use vaso::logic::{apply_op, check_errors, get_vbit_priority};
use vaso::tokens::Token;
use vaso::types::VasoType;

fn vbit(level: u8, msg: &str) -> VasoType {
    VasoType::VBit(level, msg.to_string())
}

#[test]
fn priority_order_is_error_unknown_loading_on_off() {
    assert_eq!(get_vbit_priority(3), 100);
    assert_eq!(get_vbit_priority(4), 50);
    assert_eq!(get_vbit_priority(2), 25);
    assert_eq!(get_vbit_priority(1), 10);
    assert_eq!(get_vbit_priority(0), 0);
    assert_eq!(get_vbit_priority(9), -1);
    assert!(get_vbit_priority(3) > get_vbit_priority(4));
    assert!(get_vbit_priority(4) > get_vbit_priority(2));
    assert!(get_vbit_priority(2) > get_vbit_priority(1));
    assert!(get_vbit_priority(1) > get_vbit_priority(0));
}

#[test]
fn dominance_keeps_higher_rank() {
    // error dominates on
    let r = apply_op(vbit(1, "left"), &vbit(3, "boom"), &Token::Plus);
    assert!(matches!(&r, VasoType::VBit(3, m) if m == "boom"));
    // unknown dominates loading
    let r = apply_op(vbit(4, "u"), &vbit(2, "l"), &Token::PlusAssign);
    assert!(matches!(&r, VasoType::VBit(4, m) if m == "u"));
    // tie keeps the left operand, message included
    let r = apply_op(vbit(3, "first"), &vbit(3, "second"), &Token::Plus);
    assert!(matches!(&r, VasoType::VBit(3, m) if m == "first"));
}

#[test]
fn infection_wins_on_both_sides() {
    let r = apply_op(vbit(3, "sick"), &VasoType::Int(5), &Token::Plus);
    assert!(matches!(&r, VasoType::VBit(3, m) if m == "sick"));
    let r = apply_op(VasoType::Int(5), &vbit(3, "sick"), &Token::MinusAssign);
    assert!(matches!(&r, VasoType::VBit(3, m) if m == "sick"));
    let r = apply_op(
        VasoType::Str("text".to_string()),
        &vbit(2, "wait"),
        &Token::Plus,
    );
    assert!(matches!(&r, VasoType::VBit(2, m) if m == "wait"));
    let r = apply_op(
        vbit(4, "dunno"),
        &VasoType::List(vec![VasoType::Int(1)]),
        &Token::Equals,
    );
    assert!(matches!(&r, VasoType::VBit(4, m) if m == "dunno"));
}

#[test]
fn division_by_zero_yields_exact_message() {
    let r = apply_op(VasoType::Int(7), &VasoType::Int(0), &Token::DivAssign);
    assert!(matches!(&r, VasoType::VBit(3, m) if m == "Division by Zero"));
    let r = apply_op(VasoType::Int(-12), &VasoType::Int(0), &Token::DivAssign);
    assert!(matches!(&r, VasoType::VBit(3, m) if m == "Division by Zero"));
    let r = apply_op(VasoType::Int(0), &VasoType::Int(0), &Token::DivAssign);
    assert!(matches!(&r, VasoType::VBit(3, m) if m == "Division by Zero"));
}

#[test]
fn status_equality_ignores_message() {
    let r = apply_op(vbit(2, "a"), &vbit(2, "b"), &Token::Equals);
    assert!(matches!(&r, VasoType::VBit(1, m) if m.is_empty()));
    let r = apply_op(vbit(3, "x"), &vbit(3, "y"), &Token::Equals);
    assert!(matches!(&r, VasoType::VBit(1, m) if m.is_empty()));
    let r = apply_op(vbit(0, "a"), &vbit(1, "a"), &Token::Equals);
    assert!(matches!(&r, VasoType::VBit(0, m) if m.is_empty()));
}

#[test]
fn integer_arithmetic_and_comparisons() {
    let r = apply_op(VasoType::Int(2), &VasoType::Int(3), &Token::Plus);
    assert!(matches!(r, VasoType::Int(5)));
    let r = apply_op(VasoType::Int(2), &VasoType::Int(3), &Token::Minus);
    assert!(matches!(r, VasoType::Int(-1)));
    let r = apply_op(VasoType::Int(6), &VasoType::Int(7), &Token::MulAssign);
    assert!(matches!(r, VasoType::Int(42)));
    let r = apply_op(VasoType::Int(17), &VasoType::Int(5), &Token::DivAssign);
    assert!(matches!(r, VasoType::Int(3)));
    let r = apply_op(VasoType::Int(2), &VasoType::Int(3), &Token::LessThan);
    assert!(matches!(&r, VasoType::VBit(1, _)));
    let r = apply_op(VasoType::Int(2), &VasoType::Int(3), &Token::GreaterThan);
    assert!(matches!(&r, VasoType::VBit(0, _)));
    let r = apply_op(VasoType::Int(3), &VasoType::Int(3), &Token::Equals);
    assert!(matches!(&r, VasoType::VBit(1, _)));
    let r = apply_op(VasoType::Int(3), &VasoType::Int(3), &Token::Dot);
    assert!(matches!(&r, VasoType::VBit(3, m) if m == "Invalid Integer Op"));
}

#[test]
fn string_operations() {
    let r = apply_op(
        VasoType::Str("ab".to_string()),
        &VasoType::Str("cd".to_string()),
        &Token::Plus,
    );
    assert!(matches!(&r, VasoType::Str(s) if s == "abcd"));
    let r = apply_op(
        VasoType::Str("ab".to_string()),
        &VasoType::Str("ab".to_string()),
        &Token::Equals,
    );
    assert!(matches!(&r, VasoType::VBit(1, _)));
    let r = apply_op(
        VasoType::Str("ab".to_string()),
        &VasoType::Str("cd".to_string()),
        &Token::Minus,
    );
    assert!(matches!(&r, VasoType::VBit(3, m) if m == "Invalid String Op"));
}

#[test]
fn type_mismatch_is_an_error_status() {
    let r = apply_op(
        VasoType::Int(1),
        &VasoType::Str("x".to_string()),
        &Token::Plus,
    );
    assert!(matches!(&r, VasoType::VBit(3, m) if m == "TypeError: Mismatch"));
}

#[test]
fn status_sum_with_invalid_operator() {
    let r = apply_op(vbit(1, ""), &vbit(0, ""), &Token::LessThan);
    assert!(matches!(&r, VasoType::VBit(3, m) if m == "Invalid VBit Op"));
}

#[test]
fn check_errors_finds_first_error_argument() {
    let args = vec![
        VasoType::Int(1),
        vbit(2, "busy"),
        vbit(3, "first"),
        vbit(3, "second"),
    ];
    let r = check_errors(&args);
    assert!(matches!(&r, Some(VasoType::VBit(3, m)) if m == "first"));
    let clean = vec![VasoType::Int(1), vbit(1, "ok")];
    assert!(check_errors(&clean).is_none());
}

#[test]
fn wrapping_arithmetic_at_the_edges() {
    let r = apply_op(VasoType::Int(i32::MAX), &VasoType::Int(1), &Token::Plus);
    assert!(matches!(r, VasoType::Int(m) if m == i32::MIN));
    let r = apply_op(VasoType::Int(i32::MIN), &VasoType::Int(-1), &Token::DivAssign);
    assert!(matches!(r, VasoType::Int(m) if m == i32::MIN));
}
