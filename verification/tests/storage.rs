use vaso::engine::build_jump_map;
use vaso::memory::MemoryStack;
use vaso::parser::extract_args;
use vaso::tokens::Token;
use vaso::types::VasoType;

fn ident(name: &str) -> Token {
    Token::Identifier(name.to_string())
}

#[test]
fn bindings_are_created_and_read_back() {
    let mut mem = MemoryStack::new();
    mem.set("x".to_string(), VasoType::Int(3));
    assert!(matches!(mem.get("x"), Some(VasoType::Int(3))));
    assert!(mem.get("y").is_none());
    mem.set("x".to_string(), VasoType::Int(4));
    assert!(matches!(mem.get("x"), Some(VasoType::Int(4))));
}

#[test]
fn inner_scopes_shadow_only_new_names() {
    let mut mem = MemoryStack::new();
    mem.set("outer".to_string(), VasoType::Int(1));
    mem.push_scope();
    mem.set("inner".to_string(), VasoType::Int(2));
    assert!(matches!(mem.get("outer"), Some(VasoType::Int(1))));
    assert!(matches!(mem.get("inner"), Some(VasoType::Int(2))));
    mem.pop_scope();
    assert!(mem.get("inner").is_none());
    assert!(matches!(mem.get("outer"), Some(VasoType::Int(1))));
}

#[test]
fn reassignment_updates_the_outer_binding() {
    let mut mem = MemoryStack::new();
    mem.set("count".to_string(), VasoType::Int(0));
    mem.push_scope();
    mem.set("count".to_string(), VasoType::Int(9));
    mem.pop_scope();
    assert!(matches!(mem.get("count"), Some(VasoType::Int(9))));
}

#[test]
fn the_global_scope_survives_extra_pops() {
    let mut mem = MemoryStack::new();
    mem.set_global("root".to_string(), VasoType::Int(5));
    mem.pop_scope();
    mem.pop_scope();
    assert!(matches!(mem.get("root"), Some(VasoType::Int(5))));
}

#[test]
fn set_global_writes_past_inner_scopes() {
    let mut mem = MemoryStack::new();
    mem.push_scope();
    mem.set_global("g".to_string(), VasoType::Int(8));
    mem.pop_scope();
    assert!(matches!(mem.get("g"), Some(VasoType::Int(8))));
}

#[test]
fn jump_map_pairs_braces_lifo() {
    // { { } } { }
    let tokens = vec![
        Token::LBrace,
        Token::LBrace,
        Token::RBrace,
        Token::RBrace,
        Token::LBrace,
        Token::RBrace,
    ];
    let jm = build_jump_map(&tokens);
    assert_eq!(jm.len(), 6);
    assert_eq!(jm[0], Some(3));
    assert_eq!(jm[1], Some(2));
    assert_eq!(jm[4], Some(5));
    assert_eq!(jm[2], None);
    assert_eq!(jm[3], None);
    assert_eq!(jm[5], None);
}

#[test]
fn unmatched_closers_are_ignored() {
    let tokens = vec![Token::RBrace, Token::LBrace, Token::RBrace];
    let jm = build_jump_map(&tokens);
    assert_eq!(jm[0], None);
    assert_eq!(jm[1], Some(2));
}

#[test]
fn extract_args_reads_literals_and_variables() {
    let mut mem = MemoryStack::new();
    mem.set("v".to_string(), VasoType::Int(7));
    let tokens = vec![
        Token::LParen,
        Token::NumberLiteral(1),
        Token::Comma,
        Token::StringLiteral("two".to_string()),
        Token::Comma,
        ident("v"),
        Token::RParen,
        Token::Print,
    ];
    let (args, next) = extract_args(&tokens, 0, &mem);
    assert_eq!(next, 7);
    assert_eq!(args.len(), 3);
    assert!(matches!(args[0], VasoType::Int(1)));
    assert!(matches!(&args[1], VasoType::Str(s) if s == "two"));
    assert!(matches!(args[2], VasoType::Int(7)));
}

#[test]
fn extract_args_marks_missing_variables() {
    let mem = MemoryStack::new();
    let tokens = vec![Token::LParen, ident("ghost_var"), Token::RParen];
    let (args, next) = extract_args(&tokens, 0, &mem);
    assert_eq!(next, 3);
    assert_eq!(args.len(), 1);
    assert!(matches!(&args[0], VasoType::VBit(3, m) if m == "Var 'ghost_var' not found"));
}

#[test]
fn extract_args_without_parenthesis_yields_nothing() {
    let mem = MemoryStack::new();
    let tokens = vec![Token::NumberLiteral(1)];
    let (args, next) = extract_args(&tokens, 0, &mem);
    assert!(args.is_empty());
    assert_eq!(next, 0);
}
