//! Scenario tests for the documented behaviour of the pipeline: exact
//! decoder outputs for every escape kind, round trips, shadowing of
//! redefined names, and the edge documents.

use jupyter_functions_exec::{
    clean_line_json, imports_as_lines, process_code, JupyterFunctions,
};

/// A one-cell notebook around the given source lines, each line already in
/// its JSON-escaped spelling.
fn one_cell_notebook(escaped_lines: &[&str]) -> String {
    let mut text = String::from("{\n \"cells\": [\n  {\n   \"cell_type\": \"code\",\n   \"source\": [\n");
    for (i, l) in escaped_lines.iter().enumerate() {
        text.push_str("    \"");
        text.push_str(l);
        text.push_str("\"");
        if i + 1 < escaped_lines.len() {
            text.push_str(",");
        }
        text.push_str("\n");
    }
    text.push_str("   ]\n  }\n ]\n}\n");
    text
}

#[test]
fn test_decodifica_encabezado_literal() {
    // Round trip: a quoted header line decodes to exactly the header.
    let resultado = clean_line_json(String::from("\"def f(a, b):\""));
    assert_eq!(resultado, "def f(a, b):");
}

#[test]
fn test_decodifica_comillas_y_salto() {
    // The escape fixture: backslash-n and backslash-escaped quotes decode
    // to a two-line text with real quotes and no backslashes.
    let resultado = clean_line_json(String::from("\"line\\nwith\\\"quotes\\\"\""));
    assert_eq!(resultado, "line\nwith\"quotes\"");
    assert!(!resultado.contains('\\'));
}

#[test]
fn test_decodifica_tab_y_retorno() {
    let resultado = clean_line_json(String::from("\"a\\tb\\rc\""));
    assert_eq!(resultado, "a\tb\rc");
}

#[test]
fn test_decodifica_retroceso_y_formfeed() {
    let resultado = clean_line_json(String::from("\"a\\bb\\fc\""));
    assert_eq!(resultado, "a\u{0008}b\u{000C}c");
}

#[test]
fn test_decodifica_barra_y_apostrofe() {
    let resultado = clean_line_json(String::from("\"a\\/b\\'c\""));
    assert_eq!(resultado, "a/b'c");
}

#[test]
fn test_decodifica_escape_desconocido() {
    // An unrecognized escape keeps both characters.
    let resultado = clean_line_json(String::from("\"a\\qb\""));
    assert_eq!(resultado, "a\\qb");
}

#[test]
fn test_decodifica_unicode_valido() {
    let resultado = clean_line_json(String::from("\"\\u0041\\u00e9\""));
    assert_eq!(resultado, "Aé");
}

#[test]
fn test_decodifica_unicode_hex_invalido() {
    // Digits that are not hexadecimal leave the literal backslash-u and
    // continue right after it.
    let resultado = clean_line_json(String::from("\"\\uZZZZ\""));
    assert_eq!(resultado, "\\uZZZZ");
}

#[test]
fn test_decodifica_unicode_subrogado() {
    // A surrogate value is not a scalar: the literal backslash-u stays.
    let resultado = clean_line_json(String::from("\"\\uD800x\""));
    assert_eq!(resultado, "\\uD800x");
}

#[test]
fn test_decodifica_unicode_corto() {
    // Fewer than four characters after the escape leave it literal.
    let resultado = clean_line_json(String::from("\"\\u12\""));
    assert_eq!(resultado, "\\u12");
}

#[test]
fn test_cuerpo_extraido_exacto() {
    let mut functions: Vec<(String, String)> = Vec::new();
    let mut imports: Vec<String> = Vec::new();
    let lines = vec![
        String::from("    \"def g():\""),
        String::from("    \"    return 1\""),
    ];
    process_code(&mut functions, &mut imports, lines);
    assert_eq!(functions.len(), 1);
    assert_eq!(functions[0].0, "g");
    assert_eq!(functions[0].1, "def g():\n    return 1\n");
}

#[test]
fn test_import_guardado_exacto() {
    let mut functions: Vec<(String, String)> = Vec::new();
    let mut imports: Vec<String> = Vec::new();
    let lines = vec![String::from("    \"import math\"")];
    process_code(&mut functions, &mut imports, lines);
    assert_eq!(imports, vec![String::from("import math\n")]);
}

#[test]
fn test_celda_con_import_y_funcion() {
    // The documented one-cell scenario: one import, a blank line, one
    // function using the import.
    let text = one_cell_notebook(&[
        "import math\\n",
        "\\n",
        "def area(r):\\n",
        "    return math.pi*r*r\\n",
    ]);
    let jf = JupyterFunctions::new(text);
    assert_eq!(jf.necessary_imports(), vec![String::from("import math\n")]);
    assert_eq!(jf.functions_names(), vec![String::from("area")]);
    let body = jf.get_function_code(String::from("area")).unwrap();
    assert!(body.contains("def area(r):"));
    assert!(body.contains("return math.pi*r*r"));
}

#[test]
fn test_redefinicion_gana_la_ultima() {
    // Two cells each define f with different bodies: both records are
    // kept, the generated source carries both in document order, and the
    // single-record lookup returns the later body.
    let mut text = one_cell_notebook(&["def f():\\n", "    return 1\\n"]);
    let second = one_cell_notebook(&["def f():\\n", "    return 2\\n"]);
    text.push_str(&second);
    let jf = JupyterFunctions::new(text);
    assert_eq!(jf.functions.len(), 2);
    assert_eq!(jf.functions[0].0, "f");
    assert_eq!(jf.functions[1].0, "f");
    let full = jf.get_full_code(String::from("f")).unwrap();
    let first_pos = full.find("    return 1").unwrap();
    let second_pos = full.find("    return 2").unwrap();
    assert!(first_pos < second_pos);
    let body = jf.get_function_code(String::from("f")).unwrap();
    // The decoded closing-bracket line is empty and is absorbed as one
    // blank line at the end of the cell's last body.
    assert_eq!(body, "def f():\n    return 2\n\n");
}

#[test]
fn test_documento_vacio() {
    // An empty document yields an empty index and does not fail.
    let jf = JupyterFunctions::new(String::new());
    assert!(jf.functions_names().is_empty());
    assert!(jf.necessary_imports().is_empty());
}

#[test]
fn test_celda_markdown_no_produce_funciones() {
    // A markdown cell with a heading line never yields a record.
    let text = String::from(
        "{\n \"cells\": [\n  {\n   \"cell_type\": \"markdown\",\n   \"source\": [\n    \"# Not a function\\n\"\n   ]\n  }\n ]\n}\n",
    );
    let jf = JupyterFunctions::new(text);
    assert!(jf.functions_names().is_empty());
    assert!(jf.necessary_imports().is_empty());
}

#[test]
fn test_import_indentado_queda_en_el_cuerpo() {
    // An indented import inside a function body is absorbed into the body
    // and never reaches the import set.
    let text = one_cell_notebook(&["def f():\\n", "    import os\\n", "    return os.name\\n"]);
    let jf = JupyterFunctions::new(text);
    assert!(jf.necessary_imports().is_empty());
    let body = jf.get_function_code(String::from("f")).unwrap();
    assert!(body.contains("    import os"));
}

#[test]
fn test_celda_sin_cierre_se_omite() {
    // A cell whose source array never closes is skipped without aborting.
    let text = String::from(
        "{\n \"cells\": [\n  {\n   \"cell_type\": \"code\",\n   \"source\": [\n    \"def rota():\\n\"\n",
    );
    let jf = JupyterFunctions::new(text);
    assert!(jf.functions_names().is_empty());
}

#[test]
fn test_busqueda_inexistente_devuelve_none() {
    let jf = JupyterFunctions::new(String::new());
    assert!(jf.get_function_code(String::from("nada")).is_none());
    assert!(jf.get_full_code(String::from("nada")).is_none());
}

#[test]
fn test_codigo_completo_empieza_con_imports() {
    let text = one_cell_notebook(&["import math\\n", "def f():\\n", "    return math.pi\\n"]);
    let jf = JupyterFunctions::new(text);
    let full = jf.get_full_code(String::from("f")).unwrap();
    assert_eq!(full, "import math\ndef f():\n    return math.pi\n\n");
}

#[test]
fn test_imports_as_lines_exacto() {
    let text = one_cell_notebook(&["import os\\n"]);
    let jf = JupyterFunctions::new(text);
    assert_eq!(imports_as_lines(&jf), "import os\n");
}

#[test]
fn test_cuerpos_terminan_en_salto_y_empiezan_con_def() {
    let text = one_cell_notebook(&[
        "def a():\\n",
        "    pass\\n",
        "x = 1\\n",
        "def b():\\n",
        "    pass\\n",
    ]);
    let jf = JupyterFunctions::new(text);
    assert_eq!(jf.functions.len(), 2);
    for (_, body) in &jf.functions {
        assert!(body.starts_with("def"));
        assert!(body.ends_with('\n'));
    }
}
