use esta::error::{CompileError, EstaError};
use esta::execute;
use esta::frontend;
use esta::frontend::ast::{Expr, Literal, Opcode, Stmt};
use esta::frontend::scanner::scan;
use esta::frontend::tokens::{DataType, Keyword, Punctuation, TokenType};
use esta::run;
use esta::vm::semantics::VMError;

#[test]
fn test_var() {
    let input = "var a;";
    let result = frontend::run(input);
    assert_eq!(result.is_ok(), true);

    // Err because there is no semicolon
    let input = "var a";
    let result = frontend::run(input);
    assert_eq!(result.is_err(), true);

    let input = "var a = 1;";
    let result = frontend::run(input);
    assert_eq!(result.is_ok(), true);

    let input = "var a: num;";
    let result = frontend::run(input);
    assert_eq!(result.is_ok(), true);
}

#[test]
fn test_op() {
    let input = "var a = 1 + 1;";
    let result = frontend::run(input);
    assert_eq!(result.is_ok(), true);

    let input = "var a = 1 * 1 + 2 / 3 - 4;";
    let result = frontend::run(input);
    assert_eq!(result.is_ok(), true);

    let input = "var a = True or False;";
    let result = frontend::run(input);
    assert_eq!(result.is_ok(), true);

    let input = "var a = True and False;";
    let result = frontend::run(input);
    assert_eq!(result.is_ok(), true);

    let input = "var a = 1 == 2;";
    let result = frontend::run(input);
    assert_eq!(result.is_ok(), true);

    let input = "var a = 1 != 2;";
    let result = frontend::run(input);
    assert_eq!(result.is_ok(), true);

    let input = "var a = 1 < 2;";
    let result = frontend::run(input);
    assert_eq!(result.is_ok(), true);
}

#[test]
fn test_decl() {
    let input = "fun foo() {}";
    let result = frontend::run(input);
    assert_eq!(result.is_ok(), true);

    let input = "fun foo(a) {}";
    let result = frontend::run(input);
    assert_eq!(result.is_ok(), true);

    let input = "fun foo(a: num) {}";
    let result = frontend::run(input);
    assert_eq!(result.is_ok(), true);

    let input = "fun foo(a, b) {}";
    let result = frontend::run(input);
    assert_eq!(result.is_ok(), true);

    let input = "fun foo(a: num, b: nil) {}";
    let result = frontend::run(input);
    assert_eq!(result.is_ok(), true);

    let input = "fun foo() -> nil {}";
    let result = frontend::run(input);
    assert_eq!(result.is_ok(), true);

    let input = "fun foo(a) { return a; } ";
    let result = frontend::run(input);
    assert_eq!(result.is_ok(), true);

    let input = "fun foo(a: num, b: nil) -> num { return a * b; }";
    let result = frontend::run(input);
    assert_eq!(result.is_ok(), true);
}

#[test]
fn test_control() {
    let input = "for var i = 0; i < 4; i = i + 1; { }";
    let result = frontend::run(input);
    assert_eq!(result.is_ok(), true);

    let input = "var i; while i != 0 { i = 0; }";
    let result = frontend::run(input);
    assert_eq!(result.is_ok(), true);

    let input = "if False { } ";
    let result = frontend::run(input);
    assert_eq!(result.is_ok(), true);

    let input = "if False { } else { }";
    let result = frontend::run(input);
    assert_eq!(result.is_ok(), true);

    let input = "if False { } else { if True { } }";
    let result = frontend::run(input);
    assert_eq!(result.is_ok(), true);
}

#[test]
fn test_struct() {
    let input = "struct Foo { a }";
    let result = frontend::run(input);
    assert_eq!(result.is_ok(), true);

    let input = "struct Foo { a: num }";
    let result = frontend::run(input);
    assert_eq!(result.is_ok(), true);

    let input = "struct Foo { a: num, b }";
    let result = frontend::run(input);
    assert_eq!(result.is_ok(), true);
}

#[test]
fn test_list() {
    let input = "var xs = [];";
    let result = frontend::run(input);
    assert_eq!(result.is_ok(), true);

    let input = "var xs = [1];";
    let result = frontend::run(input);
    assert_eq!(result.is_ok(), true);

    let input = "var xs = [1, 2, 3];";
    let result = frontend::run(input);
    assert_eq!(result.is_ok(), true);
}

#[test]
fn test_dot() {
    let input = "var a; var b = a.b;";
    let result = frontend::run(input);
    assert_eq!(result.is_ok(), true);

    let input = "var a; var b = a.b();";
    let result = frontend::run(input);
    assert_eq!(result.is_ok(), true);
}

fn kinds(input: &str) -> Vec<TokenType> {
    scan(input).unwrap().into_iter().map(|t| t.type_of).collect()
}

#[test]
fn scanner_splits_words_numbers_and_signs() {
    assert_eq!(
        kinds("while i<=10 { i = i+1; }"),
        vec![
            TokenType::Keyword(Keyword::While),
            TokenType::Identifier,
            TokenType::Punctuation(Punctuation::LessEqual),
            TokenType::Literal(DataType::Int(10)),
            TokenType::Punctuation(Punctuation::LeftBrace),
            TokenType::Identifier,
            TokenType::Punctuation(Punctuation::Equal),
            TokenType::Identifier,
            TokenType::Punctuation(Punctuation::Plus),
            TokenType::Literal(DataType::Int(1)),
            TokenType::Punctuation(Punctuation::Semicolon),
            TokenType::Punctuation(Punctuation::RightBrace),
        ]
    );
    let tokens = scan("fortune = \"a b\" -> True").unwrap();
    let lexemes: Vec<&str> = tokens.iter().map(|t| t.lexeme.as_str()).collect();
    assert_eq!(lexemes, vec!["fortune", "=", "\"a b\"", "->", "True"]);
    assert_eq!(tokens[0].type_of, TokenType::Identifier);
    assert_eq!(tokens[2].type_of, TokenType::Literal(DataType::String("a b".to_string())));
    assert_eq!(tokens[3].type_of, TokenType::Punctuation(Punctuation::Arrow));
    assert_eq!(tokens[4].type_of, TokenType::Literal(DataType::Bool(true)));
    assert_eq!(scan(""), Ok(vec![]));
    assert_eq!(scan("  \n\t "), Ok(vec![]));
}

#[test]
fn scanner_reports_where_no_token_starts() {
    assert_eq!(scan("var a # 1;"), Err(6));
    assert_eq!(scan("x = \"open"), Err(4));
    assert_eq!(scan("n = 99999999999999999999;"), Err(4));
}

#[test]
fn operators_group_by_level_and_to_the_left() {
    let program = frontend::run("x = 1 - 2 - 3 * 4;").unwrap();
    match program {
        Stmt::Block(body, false) => match &*body[0] {
            Stmt::Assignment(_, value) => match &**value {
                Expr::BinaryOp(left, Opcode::Sub, right) => {
                    assert!(matches!(&**left, Expr::BinaryOp(_, Opcode::Sub, _)));
                    assert!(matches!(&**right, Expr::BinaryOp(_, Opcode::Mul, _)));
                }
                other => panic!("{:?}", other),
            },
            other => panic!("{:?}", other),
        },
        other => panic!("{:?}", other),
    }
}

#[test]
fn declaration_with_a_value_is_a_declaration_and_an_assignment() {
    let program = frontend::run("var a: num = -7;").unwrap();
    match program {
        Stmt::Block(body, false) => {
            assert_eq!(body.len(), 1);
            match &*body[0] {
                Stmt::Block(both, false) => {
                    assert!(
                        matches!(&*both[0], Stmt::Declaration(id) if id.id == "a" && id.type_of == "num")
                    );
                    match &*both[1] {
                        Stmt::Assignment(target, value) => {
                            assert!(matches!(&**target, Expr::Id(id) if id.id == "a"));
                            assert!(matches!(&**value, Expr::UnaryOp(Opcode::Sub, inner)
                                if matches!(&**inner, Expr::Literal(Literal::Number(7)))));
                        }
                        other => panic!("{:?}", other),
                    }
                }
                other => panic!("{:?}", other),
            }
        }
        other => panic!("{:?}", other),
    }
}

#[test]
fn statements_that_are_not_finished_are_rejected() {
    for input in [
        "fun",
        "fun f",
        "fun f(",
        "fun f() {",
        "if 1",
        "while { }",
        "x = ;",
        "x = 1",
        "return",
        "}",
        "else { }",
        "struct S { a,, }",
        "x = (1;",
        "x = [1, ;",
        "f(1);",
        "x = a.;",
    ] {
        assert!(frontend::run(input).is_err(), "{}", input);
    }
}

fn stack_after(source: &str) -> Vec<i64> {
    let program = frontend::run(source).unwrap();
    execute(program).unwrap().stack().clone()
}

#[test]
fn programs_leave_the_value_that_main_returns() {
    assert_eq!(stack_after("fun main(){ return 9; }"), vec![9]);
    assert_eq!(stack_after("fun main(){ var a; a = 9; return a; }"), vec![9]);
    assert_eq!(stack_after("fun main(){ if 0 { return 1; } else { return 2; } }"), vec![2]);
    assert_eq!(
        stack_after("fun main(){ var i; i = 0; while i != 5 { i = i + 1; } return i; }"),
        vec![5]
    );
    assert_eq!(
        stack_after("fun add(a,b){ return a+b; } fun main(){ return add(3,4); }"),
        vec![7]
    );
    assert_eq!(stack_after("fun main(){ return 2 + 3 * 4; }"), vec![14]);
    assert_eq!(stack_after("fun main(){ return i64min(); } fun i64min() { return 0 - 7 % 4; }"), vec![-3]);
}

#[test]
fn recursion_and_loops_run_to_their_end() {
    let fib = "fun fib(n) { if n < 2 { return n; } else { return fib(n - 1) + fib(n - 2); } }
               fun main() { return fib(15); }";
    assert_eq!(stack_after(fib), vec![610]);
    let sum = "fun main() { var total; total = 0;
               for var i = 1; i <= 10; i = i + 1; { total = total + i; }
               return total; }";
    assert_eq!(stack_after(sum), vec![55]);
    let logic = "fun main() { if (1 < 2) and not (2 < 1) or False { return 1; } else { return 0; } }";
    assert_eq!(stack_after(logic), vec![1]);
}

#[test]
fn struct_constructor_returns_a_heap_address() {
    let source = "struct Point { x, y } fun main() { return Point(); }";
    let program = frontend::run(source).unwrap();
    let machine = execute(program).unwrap();
    assert_eq!(machine.stack(), &vec![0]);
    assert_eq!(machine.heap(), &vec![0, 4, 0, 0]);
    assert_eq!(machine.data_segment().len(), 1 + 4);
    assert_eq!(machine.data_segment()[0], 1);
    assert_eq!(machine.data_segment()[2], 2);
    assert_eq!(machine.data_segment()[4], 3);
}

#[test]
fn run_reports_the_first_error() {
    assert_eq!(run("fun main(){ return 9; }"), Ok(()));
    assert_eq!(run("fun main(){ return 9 }"), Err(EstaError::Parse));
    assert_eq!(run(""), Err(EstaError::Compile(CompileError::NoStructsFound)));
    assert_eq!(
        run("fun main(){ return x; }"),
        Err(EstaError::Compile(CompileError::UnknownIdentifier("x".to_string())))
    );
    assert_eq!(
        run("fun start(){ return 1; }"),
        Err(EstaError::Compile(CompileError::UnresolvedLabel("main".to_string())))
    );
    assert_eq!(
        run("fun main(){ return 1 / 0; }"),
        Err(EstaError::Run(VMError::DivisionByZero))
    );
    assert_eq!(
        run("fun main(){ return missing(); }"),
        Err(EstaError::Compile(CompileError::UnresolvedLabel("missing".to_string())))
    );
}

#[test]
fn errors_tell_what_they_are_about() {
    assert_eq!(EstaError::Parse.message(), "Parsing Error");
    assert_eq!(
        run("fun main(){ return x; }").unwrap_err().message(),
        "Couldn't find id x"
    );
    assert_eq!(
        run("fun start(){ return 1; }").unwrap_err().message(),
        "Couldn't find label main"
    );
    assert_eq!(run("").unwrap_err().message(), "No structs found");
    assert_eq!(run("fun main(){ return 1 % 0; }").unwrap_err().message(), "Division by zero");
    assert_eq!(CompileError::MissingLocalAlloc("f".to_string()).message(), "Couldn't find local f");
    assert_eq!(CompileError::StructNotFound("S".to_string()).message(), "Couldn't find struct S");
    assert_eq!(CompileError::UnsupportedOperator.message(), "Operator out of place");
    assert_eq!(CompileError::LimitExceeded.message(), "Program too large");
    assert_eq!(CompileError::NoScope.message(), "Declaration outside any scope");
    assert_eq!(
        run("fun f() { fun g() { } } var a; fun main() { return 1; }").unwrap_err().message(),
        "Declaration outside any scope"
    );
}
