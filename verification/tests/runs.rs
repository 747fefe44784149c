use vaso::engine::{Engine, StepResult};
use vaso::tokens::Token;
use vaso::types::VasoType;

fn ident(name: &str) -> Token {
    Token::Identifier(name.to_string())
}

fn text(s: &str) -> Token {
    Token::StringLiteral(s.to_string())
}

fn num(n: i32) -> Token {
    Token::NumberLiteral(n)
}

fn run_program(tokens: Vec<Token>) -> Engine {
    let mut eng = Engine::new(tokens);
    let r = eng.run(100_000);
    assert!(matches!(r, StepResult::Done));
    eng
}

#[test]
fn while_loop_counts_to_three() {
    // var x = 0; while x < 3 { print(x); x += 1; }
    let tokens = vec![
        Token::Variable,
        ident("x"),
        Token::AssignC,
        num(0),
        Token::Semicolon,
        Token::While,
        ident("x"),
        Token::LessThan,
        num(3),
        Token::LBrace,
        Token::Print,
        Token::LParen,
        ident("x"),
        Token::RParen,
        Token::Semicolon,
        ident("x"),
        Token::PlusAssign,
        num(1),
        Token::Semicolon,
        Token::RBrace,
    ];
    let eng = run_program(tokens);
    let out = eng.output();
    assert_eq!(out.len(), 3);
    assert_eq!(out[0], "0");
    assert_eq!(out[1], "1");
    assert_eq!(out[2], "2");
    match eng.get_var("x") {
        Some(VasoType::Int(v)) => assert_eq!(*v, 3),
        _ => panic!("x should end as the integer 3"),
    }
}

#[test]
fn while_with_false_condition_runs_zero_times() {
    // var x = 5; while x < 3 { print("no"); } print("after")
    let tokens = vec![
        Token::Variable,
        ident("x"),
        Token::AssignC,
        num(5),
        Token::Semicolon,
        Token::While,
        ident("x"),
        Token::LessThan,
        num(3),
        Token::LBrace,
        Token::Print,
        Token::LParen,
        text("no"),
        Token::RParen,
        Token::Semicolon,
        Token::RBrace,
        Token::Print,
        Token::LParen,
        text("after"),
        Token::RParen,
    ];
    let eng = run_program(tokens);
    assert_eq!(eng.output().len(), 1);
    assert_eq!(eng.output()[0], "after");
}

#[test]
fn for_each_visits_elements_in_order() {
    // myList = [1, 2, 3]; for n in myList { print(n); }
    let tokens = vec![
        ident("myList"),
        Token::AssignC,
        Token::LBracket,
        num(1),
        Token::Comma,
        num(2),
        Token::Comma,
        num(3),
        Token::RBracket,
        Token::Semicolon,
        Token::For,
        ident("n"),
        Token::In,
        ident("myList"),
        Token::LBrace,
        Token::Print,
        Token::LParen,
        ident("n"),
        Token::RParen,
        Token::Semicolon,
        Token::RBrace,
    ];
    let eng = run_program(tokens);
    let out = eng.output();
    assert_eq!(out.len(), 3);
    assert_eq!(out[0], "1");
    assert_eq!(out[1], "2");
    assert_eq!(out[2], "3");
}

#[test]
fn for_each_body_runs_exactly_three_times_then_resumes_once() {
    // xs = [10, 20, 30]; for n in xs { print(n); } print("done")
    let tokens = vec![
        ident("xs"),
        Token::AssignC,
        Token::LBracket,
        num(10),
        Token::Comma,
        num(20),
        Token::Comma,
        num(30),
        Token::RBracket,
        Token::For,
        ident("n"),
        Token::In,
        ident("xs"),
        Token::LBrace,
        Token::Print,
        Token::LParen,
        ident("n"),
        Token::RParen,
        Token::RBrace,
        Token::Print,
        Token::LParen,
        text("done"),
        Token::RParen,
    ];
    let eng = run_program(tokens);
    let out = eng.output();
    assert_eq!(out.len(), 4);
    assert_eq!(out[0], "10");
    assert_eq!(out[1], "20");
    assert_eq!(out[2], "30");
    assert_eq!(out[3], "done");
}

#[test]
fn for_each_over_empty_list_skips_the_body() {
    // xs = [ ]; for n in xs { print(n); } print("end")
    let tokens = vec![
        ident("xs"),
        Token::AssignC,
        Token::LBracket,
        Token::RBracket,
        Token::For,
        ident("n"),
        Token::In,
        ident("xs"),
        Token::LBrace,
        Token::Print,
        Token::LParen,
        ident("n"),
        Token::RParen,
        Token::RBrace,
        Token::Print,
        Token::LParen,
        text("end"),
        Token::RParen,
    ];
    let eng = run_program(tokens);
    assert_eq!(eng.output().len(), 1);
    assert_eq!(eng.output()[0], "end");
}

#[test]
fn for_over_non_list_reports_a_diagnostic() {
    // xs = 7; for n in xs { print(n); }
    let tokens = vec![
        ident("xs"),
        Token::AssignC,
        num(7),
        Token::For,
        ident("n"),
        Token::In,
        ident("xs"),
        Token::LBrace,
        Token::Print,
        Token::LParen,
        ident("n"),
        Token::RParen,
        Token::RBrace,
    ];
    let eng = run_program(tokens);
    assert!(eng
        .diagnostics()
        .iter()
        .any(|d| d == "FOR loop expects a List variable"));
}

#[test]
fn global_counter_updated_through_function_call() {
    // var count = 0; fn poke() { count = 7 } poke()
    let tokens = vec![
        Token::Variable,
        ident("count"),
        Token::AssignC,
        num(0),
        Token::Semicolon,
        Token::Function,
        ident("poke"),
        Token::LParen,
        Token::RParen,
        Token::LBrace,
        ident("count"),
        Token::AssignC,
        num(7),
        Token::RBrace,
        ident("poke"),
        Token::LParen,
        Token::RParen,
    ];
    let eng = run_program(tokens);
    match eng.get_var("count") {
        Some(VasoType::Int(v)) => assert_eq!(*v, 7),
        _ => panic!("count should be the integer 7 after the call"),
    }
}

#[test]
fn function_call_binds_parameters_and_returns() {
    // fn shout(msg) { print(msg) } shout("hey") print("back")
    let tokens = vec![
        Token::Function,
        ident("shout"),
        Token::LParen,
        ident("msg"),
        Token::RParen,
        Token::LBrace,
        Token::Print,
        Token::LParen,
        ident("msg"),
        Token::RParen,
        Token::RBrace,
        ident("shout"),
        Token::LParen,
        text("hey"),
        Token::RParen,
        Token::Print,
        Token::LParen,
        text("back"),
        Token::RParen,
    ];
    let eng = run_program(tokens);
    let out = eng.output();
    assert_eq!(out.len(), 2);
    assert_eq!(out[0], "hey");
    assert_eq!(out[1], "back");
}

#[test]
fn error_plus_on_keeps_the_error() {
    // val a = error; val b = on; c = a + b;
    let tokens = vec![
        Token::Value,
        ident("a"),
        Token::AssignC,
        Token::LitError,
        Token::Semicolon,
        Token::Value,
        ident("b"),
        Token::AssignC,
        Token::LitOn,
        Token::Semicolon,
        ident("c"),
        Token::AssignC,
        ident("a"),
        Token::Plus,
        ident("b"),
        Token::Semicolon,
    ];
    let eng = run_program(tokens);
    match (eng.get_var("a"), eng.get_var("c")) {
        (Some(a), Some(c)) => {
            assert!(matches!(a, VasoType::VBit(3, m) if m == "Generic Error"));
            assert!(a.eq_value(c));
        },
        _ => panic!("a and c should both be bound"),
    }
}

#[test]
fn if_else_picks_one_branch() {
    // var x = 10; if x > 5 { print("big") } else { print("small") }
    let branchy = |start: i32| {
        vec![
            Token::Variable,
            ident("x"),
            Token::AssignC,
            num(start),
            Token::Semicolon,
            Token::If,
            ident("x"),
            Token::GreaterThan,
            num(5),
            Token::LBrace,
            Token::Print,
            Token::LParen,
            text("big"),
            Token::RParen,
            Token::RBrace,
            Token::Else,
            Token::LBrace,
            Token::Print,
            Token::LParen,
            text("small"),
            Token::RParen,
            Token::RBrace,
        ]
    };
    let eng = run_program(branchy(10));
    assert_eq!(eng.output().len(), 1);
    assert_eq!(eng.output()[0], "big");
    let eng = run_program(branchy(1));
    assert_eq!(eng.output().len(), 1);
    assert_eq!(eng.output()[0], "small");
}

#[test]
fn match_runs_only_the_first_corresponding_case() {
    // val s = loading; match s { on => {...} loading => {...} error => {...} }
    let tokens = vec![
        Token::Value,
        ident("s"),
        Token::AssignC,
        Token::LitLoading,
        Token::Semicolon,
        Token::Match,
        ident("s"),
        Token::LBrace,
        Token::LitOn,
        Token::Arrow,
        Token::LBrace,
        Token::Print,
        Token::LParen,
        text("ON"),
        Token::RParen,
        Token::RBrace,
        Token::LitLoading,
        Token::Arrow,
        Token::LBrace,
        Token::Print,
        Token::LParen,
        text("LOAD"),
        Token::RParen,
        Token::RBrace,
        Token::LitError,
        Token::Arrow,
        Token::LBrace,
        Token::Print,
        Token::LParen,
        text("ERR"),
        Token::RParen,
        Token::RBrace,
        Token::RBrace,
    ];
    let eng = run_program(tokens);
    assert_eq!(eng.output().len(), 1);
    assert_eq!(eng.output()[0], "LOAD");
}

#[test]
fn print_renders_literals_and_values() {
    // print("hi") print(on) print(error)
    let tokens = vec![
        Token::Print,
        Token::LParen,
        text("hi"),
        Token::RParen,
        Token::Print,
        Token::LParen,
        Token::LitOn,
        Token::RParen,
        Token::Print,
        Token::LParen,
        Token::LitError,
        Token::RParen,
    ];
    let eng = run_program(tokens);
    let out = eng.output();
    assert_eq!(out.len(), 3);
    assert_eq!(out[0], "hi");
    assert_eq!(out[1], "on");
    assert_eq!(out[2], "error");
}
