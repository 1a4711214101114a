use drd::{parse, serialise, Exp};

#[test]
fn test_serialise() {
    assert_eq!(serialise(parse("1").unwrap()), "1");

    assert_eq!(serialise(parse("(((1)))").unwrap()), "1");

    assert_eq!(serialise(parse("not true").unwrap()), "not true");

    assert_eq!(serialise(parse("1 * 2 + 3 * 4").unwrap()), "1*2+3*4");
    assert_eq!(serialise(parse("1 * (2 + 3) * 4").unwrap()), "1*(2+3)*4");

    assert_eq!(
        serialise(parse("a, b, c : d, e, f").unwrap()),
        "a,b,c:d,e,f"
    );

    assert_eq!(
        serialise(parse("a = 1; b = 2; c = 3; a + b - c").unwrap()),
        "a=1;b=2;c=3;a+b-c"
    );
    assert_eq!(
        serialise(parse("a = (b = c; d); e").unwrap()),
        "a=(b=c;d);e"
    );

    assert_eq!(serialise(parse("a * b * c").unwrap()), "a*b*c");
    assert_eq!(serialise(parse("(a * b) * c").unwrap()), "a*b*c");
    assert_eq!(serialise(parse("a * (b * c)").unwrap()), "a*(b*c)");
}

#[test]
fn test_serialise_atoms() {
    assert_eq!(serialise(Exp::Int(-5)), "-5");
    assert_eq!(serialise(Exp::Int(0)), "0");
    assert_eq!(serialise(Exp::Str("hi".to_string())), "'hi'");
    assert_eq!(serialise(Exp::Bool(true)), "true");
    assert_eq!(serialise(Exp::Table(vec![], vec![])), "nil");
}

#[test]
fn test_round_trip() {
    let cases = [
        "name <- name, id : 'Alice', 1, 'Bob', 2",
        "a = 1; b = 2; c = 3; a + b - c",
        "name, id : 'Alice', 1 ? id == 1 || id == 2",
        "not (a && b)",
        "x = (a = 1; a); x * x",
        "a <- b ? c == 'd'",
    ];
    for s in cases {
        let once = parse(s).unwrap();
        let again = parse(&serialise(parse(s).unwrap())).unwrap();
        assert_eq!(once, again);
    }
}
