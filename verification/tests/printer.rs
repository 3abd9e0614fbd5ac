use esta::frontend;
use esta::frontend::ast::{Expr, Identifier, Literal, Opcode, Stmt};

fn text(source: &str) -> String {
    frontend::run(source).unwrap().to_text()
}

#[test]
fn statements_print_in_parentheses() {
    assert_eq!(text(""), "([])");
    assert_eq!(text("var a;"), "([(define a)])");
    assert_eq!(text("var a; a = 1 + 2 * 3;"), "([(define a), (a <- (+ 1 (* 2 3)))])");
    assert_eq!(text("var a = -7;"), "([([(define a), (a <- (- 7))])])");
    assert_eq!(
        text("fun add(a, b: num) { return a + b; }"),
        "([(fun add [\"a\", \"b\"] ([(return (+ a b))]))])"
    );
    assert_eq!(text("fun f() { return; }"), "([(fun f [] ([(return Nil)]))])");
    assert_eq!(
        text("if a != 1 { } else { b = True; }"),
        "([(if (!= a 1) ([]) ([(b <- true)]))])"
    );
    assert_eq!(text("while not a { a = Nil; }"), "([(while (not a) ([(a <- Nil)]))])");
    assert_eq!(text("struct P { x, y }"), "([(struct P [\"x\", \"y\"])])");
    assert_eq!(text("struct E { }"), "([(struct E [])])");
}

#[test]
fn expressions_print_with_the_operator_first() {
    let show = |source: &str| -> String {
        match frontend::run(source).unwrap() {
            Stmt::Block(body, _) => match &*body[0] {
                Stmt::Assignment(_, value) => value.to_text(),
                other => panic!("{:?}", other),
            },
            other => panic!("{:?}", other),
        }
    };
    assert_eq!(show("x = f();"), "(f, )");
    assert_eq!(show("x = f(1);"), "(f, 1)");
    assert_eq!(show("x = f(1, g(2), y);"), "(f, 1, (g, 2), y)");
    assert_eq!(show("x = [];"), "[]");
    assert_eq!(show("x = [1, [2, 3]];"), "[1, [2, 3]]");
    assert_eq!(show("x = a.b;"), "a.b");
    assert_eq!(show("x = a.b(1);"), "a.(b, 1)");
    assert_eq!(show("x = \"hi there\";"), "hi there");
    assert_eq!(show("x = 1 <= 2 and 3 >= 4 or 5 % 6 == 7 / 8;"),
        "(or (and (<= 1 2) (>= 3 4)) (== (% 5 6) (/ 7 8)))");
    assert_eq!(show("x = 1 < 2 - 3;"), "(< 1 (- 2 3))");
    assert_eq!(show("x = (1 > 2);"), "(> 1 2)");
}

#[test]
fn literals_and_operators_print() {
    assert_eq!(Literal::Number(i64::MIN).to_text(), "-9223372036854775808");
    assert_eq!(Literal::Number(42).to_text(), "42");
    assert_eq!(Literal::Boolean(false).to_text(), "false");
    assert_eq!(Literal::String("".to_string()).to_text(), "");
    assert_eq!(Literal::Nil.to_text(), "Nil");
    assert_eq!(Opcode::Mul.to_text(), "*");
    assert_eq!(Opcode::Not.to_text(), "not");
    let e = Expr::UnaryOp(Opcode::Sub, Box::new(Expr::Id(Identifier::new("v".to_string()))));
    assert_eq!(e.to_text(), "(- v)");
}
