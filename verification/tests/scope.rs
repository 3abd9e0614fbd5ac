use esta::error::CompileError;
use esta::frontend;
use esta::frontend::ast::Stmt;
use esta::frontend::infer_types::{infer, infer_expr};
use esta::frontend::scope::{discover_scope, Scope};

fn check(source: &str) -> Result<(), CompileError> {
    discover_scope(frontend::run(source).unwrap()).map(|_| ())
}

fn unknown(id: &str) -> Result<(), CompileError> {
    Err(CompileError::UnknownIdentifier(id.to_string()))
}

#[test]
fn declared_variables_are_in_scope() {
    assert_eq!(check("var a; a = 1;"), Ok(()));
    assert_eq!(check("var a; fun f(b) { var c; c = a + b; return c; }"), Ok(()));
    assert_eq!(check("fun f() { var a; if a { a = 1; } else { a = 2; } }"), Ok(()));
    assert_eq!(check("var xs = [1, 2]; var n = xs.len(1);"), Ok(()));
    assert_eq!(check("for var i = 0; i < 4; i = i + 1; { }"), Ok(()));
    assert_eq!(check("struct S { a } fun main() { return S(); }"), Ok(()));
    assert_eq!(check(""), Ok(()));
}

#[test]
fn the_first_stray_variable_is_named() {
    assert_eq!(check("a = 1;"), unknown("a"));
    assert_eq!(check("var a; a = b + c;"), unknown("b"));
    assert_eq!(check("fun f() { { var a; } return a; }"), unknown("a"));
    assert_eq!(check("fun f(a) { return a; } fun g() { return a; }"), unknown("a"));
    assert_eq!(check("fun f() { return g(1, x); }"), unknown("x"));
    assert_eq!(check("var a; var b = a.m(z);"), unknown("z"));
    assert_eq!(check("var b = a.b;"), unknown("a"));
    assert_eq!(check("var l = [q];"), unknown("q"));
    assert_eq!(check("while w { }"), unknown("w"));
    assert_eq!(check("if 1 { } else { e = 1; }"), unknown("e"));
    assert_eq!(check("fun f() { return -r; }"), unknown("r"));
    assert_eq!(check("var a = a;"), Ok(()));
}

#[test]
fn levels_hold_their_names() {
    let mut scope = Scope::new_root();
    assert_eq!(scope.depth(), 1);
    scope.define("a");
    scope.push_level();
    scope.define("b");
    assert!(scope.lookup_var("a"));
    assert!(scope.lookup_var("b"));
    assert!(!scope.lookup_var("c"));
    scope.pop_level();
    assert!(scope.lookup_var("a"));
    assert!(!scope.lookup_var("b"));
    assert_eq!(scope.depth(), 1);
}

#[test]
fn kinds_of_expressions() {
    let kind = |source: &str| -> &'static str {
        match frontend::run(source).unwrap() {
            Stmt::Block(body, _) => match &*body[0] {
                Stmt::Assignment(_, value) => infer_expr(value),
                other => panic!("{:?}", other),
            },
            other => panic!("{:?}", other),
        }
    };
    assert_eq!(kind("x = 1;"), "Number");
    assert_eq!(kind("x = True;"), "Boolean");
    assert_eq!(kind("x = \"s\";"), "String");
    assert_eq!(kind("x = Nil;"), "Nil");
    assert_eq!(kind("x = -1;"), "Number");
    assert_eq!(kind("x = 1 + 2 * 3;"), "Number");
    assert_eq!(kind("x = 1 + True;"), "Unknown");
    assert_eq!(kind("x = (1 + True) + (1 + True);"), "Unknown");
    assert_eq!(kind("x = f(1);"), "Function");
    assert_eq!(kind("x = y;"), "Identifier");
    assert_eq!(kind("x = y + z;"), "Identifier");
    assert_eq!(kind("x = [1];"), "Unknown");
    assert_eq!(kind("x = y.z;"), "Unknown");
    let program = frontend::run("fun f(a) { if a { a = 1 + 1; } else { } }").unwrap();
    assert!(infer(program).is_ok());
}
