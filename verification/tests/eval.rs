use drd::{read_eval, Env, Exp};

fn run(input: &str, output: Exp) {
    let (exp, _) = read_eval(input, &Env::new()).unwrap();
    assert_eq!(exp, output);
}

#[test]
fn test_select() {
    run(
        "name <- name, id : 'Alice', 1, 'Bob', 2",
        Exp::Table(
            vec!["name".to_string()],
            vec![Exp::Str("Alice".to_string()), Exp::Str("Bob".to_string())],
        ),
    );

    run(
        "id <- name, id : 'Alice', 1, 'Bob', 2",
        Exp::Table(vec!["id".to_string()], vec![Exp::Int(1), Exp::Int(2)]),
    );

    run(
        "foo <- name, id : 'Alice', 1, 'Bob', 2",
        Exp::Table(vec!["foo".to_string()], vec![]),
    );
}

#[test]
fn test_where() {
    run(
        "name, id : 'Alice', 1, 'Bob', 2 ? name == 'Alice'",
        Exp::Table(
            vec!["name".to_string(), "id".to_string()],
            vec![Exp::Str("Alice".to_string()), Exp::Int(1)],
        ),
    );

    run(
        "name, id : 'Alice', 1, 'Bob', 2 ? id == 2",
        Exp::Table(
            vec!["name".to_string(), "id".to_string()],
            vec![Exp::Str("Bob".to_string()), Exp::Int(2)],
        ),
    );

    run(
        "name, id : 'Alice', 1, 'Bob', 2 ? id == 1 || id == 2",
        Exp::Table(
            vec!["name".to_string(), "id".to_string()],
            vec![
                Exp::Str("Alice".to_string()),
                Exp::Int(1),
                Exp::Str("Bob".to_string()),
                Exp::Int(2),
            ],
        ),
    );

    run(
        "name, id : 'Alice', 1, 'Bob', 2 ? name == 'Foo'",
        Exp::Table(vec!["name".to_string(), "id".to_string()], vec![]),
    );
}

#[test]
fn test_union() {
    run(
        "name, id : 'Alice', 1 + name, id : 'Bob', 2",
        Exp::Table(
            vec!["name".to_string(), "id".to_string()],
            vec![
                Exp::Str("Alice".to_string()),
                Exp::Int(1),
                Exp::Str("Bob".to_string()),
                Exp::Int(2),
            ],
        ),
    );

    run(
        "table = name, id : 'Alice', 1; table + table",
        Exp::Table(
            vec!["name".to_string(), "id".to_string()],
            vec![
                Exp::Str("Alice".to_string()),
                Exp::Int(1),
                Exp::Str("Alice".to_string()),
                Exp::Int(1),
            ],
        ),
    );
}

#[test]
fn test_product() {
    run(
        r#"
Colors =
  color, hex :
  'Red', '#FF0000',
  'Green', '#00FF00',
  'Blue', '#0000FF';

Sizes = size : 'Small', 'Medium', 'Large';

Colors * Sizes
"#,
        Exp::Table(
            vec!["color".to_string(), "hex".to_string(), "size".to_string()],
            vec![
                Exp::Str("Red".to_string()),
                Exp::Str("#FF0000".to_string()),
                Exp::Str("Small".to_string()),
                Exp::Str("Red".to_string()),
                Exp::Str("#FF0000".to_string()),
                Exp::Str("Medium".to_string()),
                Exp::Str("Red".to_string()),
                Exp::Str("#FF0000".to_string()),
                Exp::Str("Large".to_string()),
                Exp::Str("Green".to_string()),
                Exp::Str("#00FF00".to_string()),
                Exp::Str("Small".to_string()),
                Exp::Str("Green".to_string()),
                Exp::Str("#00FF00".to_string()),
                Exp::Str("Medium".to_string()),
                Exp::Str("Green".to_string()),
                Exp::Str("#00FF00".to_string()),
                Exp::Str("Large".to_string()),
                Exp::Str("Blue".to_string()),
                Exp::Str("#0000FF".to_string()),
                Exp::Str("Small".to_string()),
                Exp::Str("Blue".to_string()),
                Exp::Str("#0000FF".to_string()),
                Exp::Str("Medium".to_string()),
                Exp::Str("Blue".to_string()),
                Exp::Str("#0000FF".to_string()),
                Exp::Str("Large".to_string()),
            ],
        ),
    );
}

#[test]
fn test_difference() {
    run(
        r#"
Left =
  a, b :
  1, 2,
  3, 4;

Right =
  a, b :
  1, 2;

Left - Right
"#,
        Exp::Table(
            vec!["a".to_string(), "b".to_string()],
            vec![Exp::Int(3), Exp::Int(4)],
        ),
    );

    run(
        r#"
Left =
  a, b :
  1, 2,
  3, 4;

Right =
  a, b :
  1, 'something else';

Left - Right
"#,
        Exp::Table(
            vec!["a".to_string(), "b".to_string()],
            vec![Exp::Int(1), Exp::Int(2), Exp::Int(3), Exp::Int(4)],
        ),
    );
}

#[test]
fn test_union_identity() {
    run(
        "name : 'Alice', 'Bob' + name : nil",
        Exp::Table(
            vec!["name".to_string()],
            vec![Exp::Str("Alice".to_string()), Exp::Str("Bob".to_string())],
        ),
    );
}

#[test]
fn test_difference_self() {
    run(
        "Left = a, b : 1, 2, 3, 4; Left - Left",
        Exp::Table(vec!["a".to_string(), "b".to_string()], vec![]),
    );
}

#[test]
fn test_product_small() {
    run(
        "Colors = color : 'R', 'G'; Sizes = size : 'S', 'M'; Colors * Sizes",
        Exp::Table(
            vec!["color".to_string(), "size".to_string()],
            vec![
                Exp::Str("R".to_string()),
                Exp::Str("S".to_string()),
                Exp::Str("R".to_string()),
                Exp::Str("M".to_string()),
                Exp::Str("G".to_string()),
                Exp::Str("S".to_string()),
                Exp::Str("G".to_string()),
                Exp::Str("M".to_string()),
            ],
        ),
    );
}

#[test]
fn test_short_circuit() {
    run("true || undefined_name", Exp::Bool(true));
    run("false && undefined_name", Exp::Bool(false));
}

#[test]
fn test_shadowing() {
    run("x = 1; x = 2; x", Exp::Int(2));
}

#[test]
fn test_equals_heterogeneous() {
    run("1 == '1'", Exp::Bool(false));
    run("not true", Exp::Bool(false));
    run("not false", Exp::Bool(true));
}

#[test]
fn test_eval_errors() {
    assert!(read_eval("missing_table", &Env::new()).is_err());
    assert!(read_eval("1 + 2", &Env::new()).is_err());
    assert!(read_eval("a : 1 + b : 2", &Env::new()).is_err());
    assert!(read_eval("a : 1 ? 5", &Env::new()).is_err());
    assert!(read_eval("not 1", &Env::new()).is_err());
}
