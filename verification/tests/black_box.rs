//! Black-box tests: exercise the public interface of the library on whole
//! notebook documents, checking only observable behaviour.

use jupyter_functions_exec::JupyterFunctions;

/// A notebook document around the given cells, each a cell type plus its
/// source lines in their JSON-escaped spelling.
fn notebook_text(cells: &[(&str, &[&str])]) -> String {
    let mut t = String::from("{\n \"cells\": [\n");
    for (ci, (kind, lines)) in cells.iter().enumerate() {
        t.push_str("  {\n   \"cell_type\": \"");
        t.push_str(kind);
        t.push_str("\",\n   \"metadata\": {},\n   \"source\": [\n");
        for (i, l) in lines.iter().enumerate() {
            t.push_str("    \"");
            t.push_str(l);
            t.push_str("\"");
            if i + 1 < lines.len() {
                t.push_str(",");
            }
            t.push_str("\n");
        }
        t.push_str("   ]\n  }");
        if ci + 1 < cells.len() {
            t.push_str(",");
        }
        t.push_str("\n");
    }
    t.push_str(" ]\n}\n");
    t
}

/// A notebook document with two imports and four functions spread over
/// several code cells.
fn test_notebook_text() -> String {
    notebook_text(&[
        (
            "code",
            &["import math\\n", "from collections import Counter\\n"],
        ),
        ("code", &["def suma(a, b):\\n", "    return a + b\\n"]),
        (
            "code",
            &[
                "def multiplicar(a, b):\\n",
                "    \\\"\\\"\\\"Multiplica dos números\\\"\\\"\\\"\\n",
                "    return a * b\\n",
            ],
        ),
        (
            "code",
            &[
                "def factorial(n):\\n",
                "    if n <= 1:\\n",
                "        return 1\\n",
                "    return n * factorial(n - 1)\\n",
            ],
        ),
        (
            "code",
            &[
                "def saludar(nombre, saludo=\\\"Hola\\\"):\\n",
                "    return saludo + \\\" \\\" + nombre\\n",
            ],
        ),
    ])
}

/// A notebook document whose only cell is markdown: no code cells at all.
fn empty_notebook_text() -> String {
    notebook_text(&[("markdown", &["# Un cuaderno sin celdas de código\\n"])])
}

/// A notebook document whose single code cell holds only imports.
fn only_imports_notebook_text() -> String {
    notebook_text(&[(
        "code",
        &[
            "import os\\n",
            "import sys\\n",
            "from pathlib import Path\\n",
        ],
    )])
}

/// A notebook document with markdown cells interleaved with code cells,
/// several functions in one cell, and assorted function shapes.
fn complex_notebook_text() -> String {
    notebook_text(&[
        (
            "markdown",
            &["# Encabezado principal\\n", "Texto de introducción.\\n"],
        ),
        (
            "code",
            &[
                "def funcion_con_closure():\\n",
                "    def incrementar(x):\\n",
                "        return x + 1\\n",
                "    return incrementar\\n",
            ],
        ),
        (
            "code",
            &[
                "def funcion_multilinea(param1,\\n",
                "                       param2,\\n",
                "                       param3):\\n",
                "    return param1 + param2 + param3\\n",
            ],
        ),
        (
            "code",
            &[
                "# decorador simulado\\n",
                "def funcion_con_decorador_simulado():\\n",
                "    return 1\\n",
                "\\n",
                "def otra_funcion_en_misma_celda():\\n",
                "    return 2\\n",
            ],
        ),
        (
            "code",
            &[
                "def funcion_con_string_especial():\\n",
                "    texto = \\\"cadena con \\\\\\\"comillas\\\\\\\" y \\\\n saltos\\\"\\n",
                "    return texto\\n",
            ],
        ),
        ("code", &["def funcion_vacia():\\n", "    pass\\n"]),
        (
            "code",
            &[
                "def funcion_con_lambda():\\n",
                "    f = lambda x: x * 2\\n",
                "    return f(21)\\n",
            ],
        ),
        (
            "code",
            &[
                "def funcion_con_try_except():\\n",
                "    try:\\n",
                "        return 1\\n",
                "    except ValueError:\\n",
                "        return 2\\n",
                "    finally:\\n",
                "        pass\\n",
            ],
        ),
        ("markdown", &["# Not a function\\n", "## Otro encabezado\\n"]),
        (
            "code",
            &[
                "def funcion_despues_markdown():\\n",
                "    return True\\n",
            ],
        ),
    ])
}

#[test]
fn test_crear_jupyter_functions_notebook_valido() {
    let jf = JupyterFunctions::new(test_notebook_text());
    assert!(!jf.functions.is_empty(), "Debe tener funciones extraídas");
}

#[test]
fn test_crear_jupyter_functions_notebook_vacio() {
    let jf = JupyterFunctions::new(empty_notebook_text());
    assert!(jf.functions.is_empty(), "No debe tener funciones");
    assert!(jf.imports.is_empty(), "No debe tener imports");
}

#[test]
fn test_exists_function_funcion_existente() {
    let jf = JupyterFunctions::new(test_notebook_text());
    let existe = jf.exists_function(String::from("suma"));
    assert!(existe, "La función 'suma' debe existir");
}

#[test]
fn test_exists_function_funcion_inexistente() {
    let jf = JupyterFunctions::new(test_notebook_text());
    let existe = jf.exists_function(String::from("funcion_inventada"));
    assert!(!existe, "La función 'funcion_inventada' no debe existir");
}

#[test]
fn test_exists_function_nombre_vacio() {
    let jf = JupyterFunctions::new(test_notebook_text());
    let existe = jf.exists_function(String::new());
    assert!(!existe, "Una función con nombre vacío no debe existir");
}

#[test]
fn test_exists_function_nombre_con_espacios() {
    let jf = JupyterFunctions::new(test_notebook_text());
    let existe = jf.exists_function(String::from("suma con espacios"));
    assert!(
        !existe,
        "No debe existir una función con espacios en el nombre"
    );
}

#[test]
fn test_functions_names_retorna_nombres() {
    let jf = JupyterFunctions::new(test_notebook_text());
    let nombres = jf.functions_names();
    assert!(
        nombres.contains(&String::from("suma")),
        "Debe contener 'suma'"
    );
    assert!(
        nombres.contains(&String::from("multiplicar")),
        "Debe contener 'multiplicar'"
    );
    assert!(
        nombres.contains(&String::from("factorial")),
        "Debe contener 'factorial'"
    );
}

#[test]
fn test_functions_names_notebook_vacio() {
    let jf = JupyterFunctions::new(empty_notebook_text());
    let nombres = jf.functions_names();
    assert!(nombres.is_empty(), "No debe haber nombres de funciones");
}

#[test]
fn test_functions_names_cantidad_correcta() {
    let jf = JupyterFunctions::new(test_notebook_text());
    let nombres = jf.functions_names();
    assert!(
        nombres.len() >= 4,
        "Debe tener al menos 4 funciones (suma, multiplicar, factorial, saludar)"
    );
}

#[test]
fn test_necessary_imports_retorna_imports() {
    let jf = JupyterFunctions::new(test_notebook_text());
    let imports = jf.necessary_imports();
    let imports_str: String = imports.join("");
    assert!(
        imports_str.contains("import math"),
        "Debe contener 'import math'"
    );
    assert!(
        imports_str.contains("from collections import Counter"),
        "Debe contener 'from collections import Counter'"
    );
}

#[test]
fn test_necessary_imports_solo_imports() {
    let jf = JupyterFunctions::new(only_imports_notebook_text());
    let imports = jf.necessary_imports();
    let funciones = jf.functions_names();
    assert!(!imports.is_empty(), "Debe tener imports");
    assert!(funciones.is_empty(), "No debe tener funciones");
}

#[test]
fn test_necessary_imports_notebook_vacio() {
    let jf = JupyterFunctions::new(empty_notebook_text());
    let imports = jf.necessary_imports();
    assert!(imports.is_empty(), "No debe haber imports");
}

#[test]
fn test_multiples_funciones_en_misma_celda() {
    let jf = JupyterFunctions::new(complex_notebook_text());
    let nombres = jf.functions_names();
    assert!(nombres.contains(&String::from("funcion_con_decorador_simulado")));
    assert!(nombres.contains(&String::from("otra_funcion_en_misma_celda")));
}

#[test]
fn test_funcion_despues_de_markdown() {
    let jf = JupyterFunctions::new(complex_notebook_text());
    let existe = jf.exists_function(String::from("funcion_despues_markdown"));
    assert!(
        existe,
        "Debe encontrar funciones después de celdas markdown"
    );
}

#[test]
fn test_consistencia_entre_exists_y_names() {
    let jf = JupyterFunctions::new(test_notebook_text());
    let nombres = jf.functions_names();
    for nombre in nombres {
        assert!(
            jf.exists_function(nombre.clone()),
            "La función '{}' debe existir según exists_function",
            nombre
        );
    }
}

#[test]
fn test_notebook_complejo_tiene_todas_las_funciones() {
    let jf = JupyterFunctions::new(complex_notebook_text());
    let funciones_esperadas = vec![
        "funcion_con_closure",
        "funcion_multilinea",
        "funcion_con_decorador_simulado",
        "otra_funcion_en_misma_celda",
        "funcion_con_string_especial",
        "funcion_vacia",
        "funcion_con_lambda",
        "funcion_con_try_except",
        "funcion_despues_markdown",
    ];
    for nombre in funciones_esperadas {
        assert!(
            jf.exists_function(String::from(nombre)),
            "Debe existir la función '{}'",
            nombre
        );
    }
}
