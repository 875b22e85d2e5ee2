//! Shared test utilities: locating fixture documents relative to the
//! crate's test data layout.

/// The path of a fixture document under the crate's test data directory.
fn fixture_path(name: &str) -> String {
    format!("tests/fixtures/{}", name)
}

#[test]
fn test_fixture_path_genera_ruta_valida() {
    let path = fixture_path("test_notebook.ipynb");
    assert!(path.contains("tests"));
    assert!(path.contains("fixtures"));
    assert!(path.ends_with("test_notebook.ipynb"));
}
