use drd::{parse, Exp};

#[test]
fn test_bool() {
    assert_eq!(parse("true"), Ok(Exp::Bool(true)));
    assert_eq!(parse("false"), Ok(Exp::Bool(false)));
}

#[test]
fn test_int() {
    assert_eq!(parse("123"), Ok(Exp::Int(123)));
    assert_eq!(parse("-42"), Ok(Exp::Int(-42)));
}

#[test]
fn test_str() {
    assert_eq!(parse("''"), Ok(Exp::Str("".to_string())));
    assert_eq!(parse("'hello'"), Ok(Exp::Str("hello".to_string())));
    assert_eq!(parse("'hello world'"), Ok(Exp::Str("hello world".to_string())));
}

#[test]
fn test_var() {
    assert_eq!(parse("x"), Ok(Exp::Var("x".to_string())));
    assert_eq!(parse("_x_1"), Ok(Exp::Var("_x_1".to_string())));
}

#[test]
fn test_comment() {
    assert_eq!(parse("1 -- hello"), Ok(Exp::Int(1)));
    assert_eq!(parse("1 --\n"), Ok(Exp::Int(1)));
    assert_eq!(parse("1 --"), Ok(Exp::Int(1)));
    assert_eq!(
        parse("not /* hello */ true"),
        Ok(Exp::Not(Box::new(Exp::Bool(true))))
    );
    assert_eq!(parse("/**/1/**/"), Ok(Exp::Int(1)));
}

#[test]
fn test_program() {
    let program = Exp::Let(
        "Staff".to_string(),
        Box::new(Exp::Table(
            vec!["name".to_string(), "id".to_string(), "employed".to_string()],
            vec![
                Exp::Str("Alice".to_string()),
                Exp::Int(1),
                Exp::Bool(true),
                Exp::Str("Bob".to_string()),
                Exp::Int(2),
                Exp::Bool(false),
            ],
        )),
        Box::new(Exp::Let(
            "alice_or_bob_employed".to_string(),
            Box::new(Exp::Let(
                "alice".to_string(),
                Box::new(Exp::Select(
                    vec!["employed".to_string()],
                    Box::new(Exp::Where(
                        Box::new(Exp::Var("Staff".to_string())),
                        Box::new(Exp::Equals(
                            Box::new(Exp::Var("name".to_string())),
                            Box::new(Exp::Str("Alice".to_string())),
                        )),
                    )),
                )),
                Box::new(Exp::Let(
                    "bob".to_string(),
                    Box::new(Exp::Select(
                        vec!["employed".to_string()],
                        Box::new(Exp::Where(
                            Box::new(Exp::Var("Staff".to_string())),
                            Box::new(Exp::Equals(
                                Box::new(Exp::Var("name".to_string())),
                                Box::new(Exp::Str("Bob".to_string())),
                            )),
                        )),
                    )),
                    Box::new(Exp::Or(
                        Box::new(Exp::Var("alice".to_string())),
                        Box::new(Exp::Var("bob".to_string())),
                    )),
                )),
            )),
            Box::new(Exp::Var("alice_or_bob_employed".to_string())),
        )),
    );

    assert_eq!(
        parse(
            r#"
/* welcome to
my program */

Staff =
  name, id, employed:
  'Alice', 1, true,
  'Bob', 2, false;

alice_or_bob_employed = (
  alice = employed <- Staff ? name == 'Alice';
  bob = employed <- Staff ? name == 'Bob';
  alice || bob
);

alice_or_bob_employed
"#
        ),
        Ok(program.clone()),
    );

    assert_eq!(
        parse(
            r#"
Staff=name,id,employed:'Alice',1,true,'Bob',2,false;
alice_or_bob_employed=(alice=employed<-Staff?name=='Alice';bob=employed<-Staff?name=='Bob';alice||bob);
alice_or_bob_employed
"#
        ),
        Ok(program),
    );
}

#[test]
fn test_parens_idempotent() {
    assert_eq!(parse("(1 + 2)"), parse("1 + 2"));
    assert_eq!(parse("(a = 1; a)"), parse("a = 1; a"));
    assert_eq!(parse("((x))"), parse("x"));
}

#[test]
fn test_int_limits() {
    assert_eq!(
        parse("9223372036854775807"),
        Ok(Exp::Int(9223372036854775807))
    );
    assert_eq!(
        parse("-9223372036854775808"),
        Ok(Exp::Int(-9223372036854775807 - 1))
    );
    assert!(parse("9223372036854775808").is_err());
    assert_eq!(parse("0000000000000000000001"), Ok(Exp::Int(1)));
}

#[test]
fn test_parse_errors() {
    assert!(parse("").is_err());
    assert!(parse("1 +").is_err());
    assert!(parse("'unterminated").is_err());
    assert!(parse("/* unterminated").is_err());
    assert!(parse("a = 1").is_err());
    assert!(parse("1; 2").is_err());
    assert!(parse("f x").is_err());
    assert!(parse("(1").is_err());
}

#[test]
fn test_nil() {
    assert_eq!(parse("nil"), Ok(Exp::Table(vec![], vec![])));
    assert_eq!(
        parse("a : nil"),
        Ok(Exp::Table(vec!["a".to_string()], vec![]))
    );
}
