//! Operation semantics: `apply_op` is total over all value pairs and never
//! fails destructively — every failure is an ordinary error-status value.
//!
//! Status values dominate: any operation touching one collapses to a status
//! value (the "infection" rule), and two status values combine by the
//! dominance order error > unknown > loading > on > off.

use vstd::prelude::*;

use crate::tokens::Token;
use crate::types::{VasoType, VasoV, views_of};

verus! {

/// The dominance rank of a status level: error above unknown above loading
/// above on above off; levels outside `0 ..= 4` rank below everything.
pub open spec fn spec_priority(level: u8) -> int {
    if level == 3 {
        100
    } else if level == 4 {
        50
    } else if level == 2 {
        25
    } else if level == 1 {
        10
    } else if level == 0 {
        0
    } else {
        -1
    }
}

/// A boolean as the language represents it: an `on` or `off` status value
/// with an empty message.
pub open spec fn spec_bool_status(c: bool) -> VasoV {
    if c {
        VasoV::VBit(1, Seq::empty())
    } else {
        VasoV::VBit(0, Seq::empty())
    }
}

/// Whether the operator is the additive form, plain or compound.
pub open spec fn spec_is_plus(op: Token) -> bool {
    op is Plus || op is PlusAssign
}

/// Integer-pair semantics: wrapping arithmetic for `+`, `-`, `*=` and `/=`,
/// an error-status value for division by zero, status-encoded booleans for
/// comparisons, and an error-status value for any other operator.
pub open spec fn spec_apply_int(a: i32, b: i32, op: Token) -> VasoV {
    match op {
        Token::Plus | Token::PlusAssign => VasoV::Int(
            vstd::wrapping::i32_specs::wrapping_add(a, b),
        ),
        Token::Minus | Token::MinusAssign => VasoV::Int(
            vstd::wrapping::i32_specs::wrapping_sub(a, b),
        ),
        Token::MulAssign => VasoV::Int(vstd::wrapping::i32_specs::wrapping_mul(a, b)),
        Token::DivAssign => if b != 0 {
            VasoV::Int(spec_div_wrap(a, b))
        } else {
            VasoV::VBit(3, "Division by Zero"@)
        },
        Token::LessThan => spec_bool_status(a < b),
        Token::GreaterThan => spec_bool_status(a > b),
        Token::Equals => spec_bool_status(a == b),
        _ => VasoV::VBit(3, "Invalid Integer Op"@),
    }
}

/// Truncated integer division, wrapping on the one overflowing case.
pub open spec fn spec_div_wrap(a: i32, b: i32) -> i32
    recommends
        b != 0,
{
    match a.checked_div(b) {
        Some(q) => q,
        None => i32::MIN,
    }
}

/// String-pair semantics: `+` concatenates, `==` compares by value, and any
/// other operator yields an error-status value.
pub open spec fn spec_apply_str(a: Seq<char>, b: Seq<char>, op: Token) -> VasoV {
    match op {
        Token::Plus | Token::PlusAssign => VasoV::Str(a + b),
        Token::Equals => spec_bool_status(a == b),
        _ => VasoV::VBit(3, "Invalid String Op"@),
    }
}

/// Status-pair semantics: the additive forms keep the operand of higher
/// dominance rank, the left one on a tie, message included; `==` compares
/// levels only; any other operator yields an error-status value.
pub open spec fn spec_apply_status(ll: u8, lm: Seq<char>, rl: u8, rm: Seq<char>, op: Token) -> VasoV {
    if spec_is_plus(op) {
        if spec_priority(ll) >= spec_priority(rl) {
            VasoV::VBit(ll, lm)
        } else {
            VasoV::VBit(rl, rm)
        }
    } else if op is Equals {
        spec_bool_status(ll == rl)
    } else {
        VasoV::VBit(3, "Invalid VBit Op"@)
    }
}

/// The full operation semantics, in evaluation order: integer pairs, string
/// pairs, status pairs, then the infection rule (a status value paired with
/// anything else wins unchanged), and a type-mismatch error-status value for
/// every remaining combination.
pub open spec fn spec_apply(l: VasoV, r: VasoV, op: Token) -> VasoV {
    match (l, r) {
        (VasoV::Int(a), VasoV::Int(b)) => spec_apply_int(a, b, op),
        (VasoV::Str(a), VasoV::Str(b)) => spec_apply_str(a, b, op),
        (VasoV::VBit(ll, lm), VasoV::VBit(rl, rm)) => spec_apply_status(ll, lm, rl, rm, op),
        (VasoV::VBit(ll, lm), _) => VasoV::VBit(ll, lm),
        (_, VasoV::VBit(rl, rm)) => VasoV::VBit(rl, rm),
        _ => VasoV::VBit(3, "TypeError: Mismatch"@),
    }
}

/// The dominance rank of a status level.
pub fn get_vbit_priority(level: u8) -> (r: i32)
    ensures
        r == spec_priority(level),
{
    match level {
        3 => 100,
        4 => 50,
        2 => 25,
        1 => 10,
        0 => 0,
        _ => -1,
    }
}

/// Applies an operator to a pair of values; total, and never panics — every
/// failure comes back as an error-status value.
pub fn apply_op(l: VasoType, r: &VasoType, op: &Token) -> (res: VasoType)
    ensures
        res@ == spec_apply(l@, r@, *op),
{
    match (l, r) {
        (VasoType::Int(a), VasoType::Int(b)) => {
            match op {
                Token::Plus | Token::PlusAssign => VasoType::Int(a.wrapping_add(*b)),
                Token::Minus | Token::MinusAssign => VasoType::Int(a.wrapping_sub(*b)),
                Token::MulAssign => VasoType::Int(a.wrapping_mul(*b)),
                Token::DivAssign => {
                    if *b != 0 {
                        match a.checked_div(*b) {
                            Some(q) => VasoType::Int(q),
                            None => VasoType::Int(i32::MIN),
                        }
                    } else {
                        VasoType::VBit(3, "Division by Zero".to_owned())
                    }
                },
                Token::LessThan => bool_status(a < *b),
                Token::GreaterThan => bool_status(a > *b),
                Token::Equals => bool_status(a == *b),
                _ => VasoType::VBit(3, "Invalid Integer Op".to_owned()),
            }
        },
        (VasoType::Str(a), VasoType::Str(b)) => {
            match op {
                Token::Plus | Token::PlusAssign => VasoType::Str(a.concat(b.as_str())),
                Token::Equals => bool_status(a == *b),
                _ => VasoType::VBit(3, "Invalid String Op".to_owned()),
            }
        },
        (VasoType::VBit(l_lvl, l_msg), VasoType::VBit(r_lvl, r_msg)) => {
            if matches!(op, Token::Plus | Token::PlusAssign) {
                let l_p = get_vbit_priority(l_lvl);
                let r_p = get_vbit_priority(*r_lvl);
                if l_p >= r_p {
                    VasoType::VBit(l_lvl, l_msg)
                } else {
                    VasoType::VBit(*r_lvl, r_msg.clone())
                }
            } else if matches!(op, Token::Equals) {
                bool_status(l_lvl == *r_lvl)
            } else {
                VasoType::VBit(3, "Invalid VBit Op".to_owned())
            }
        },
        (VasoType::VBit(lvl, msg), _) => VasoType::VBit(lvl, msg),
        (_, VasoType::VBit(lvl, msg)) => VasoType::VBit(*lvl, msg.clone()),
        _ => VasoType::VBit(3, "TypeError: Mismatch".to_owned()),
    }
}

/// A boolean encoded as an `on` or `off` status value with an empty message.
fn bool_status(c: bool) -> (r: VasoType)
    ensures
        r@ == spec_bool_status(c),
{
    if c {
        VasoType::VBit(1, String::new())
    } else {
        VasoType::VBit(0, String::new())
    }
}

/// Scans argument values for the first error-status value.
pub open spec fn spec_first_error(args: Seq<VasoV>) -> Option<VasoV>
    decreases args.len(),
{
    if args.len() == 0 {
        None
    } else {
        match args[0] {
            VasoV::VBit(level, msg) => if level == 3 {
                Some(VasoV::VBit(3, msg))
            } else {
                spec_first_error(args.drop_first())
            },
            _ => spec_first_error(args.drop_first()),
        }
    }
}

/// Whether a value picture is an error-status value.
pub open spec fn spec_is_error(v: VasoV) -> bool {
    v matches VasoV::VBit(level, _) && level == 3
}

/// Skipping an error-free prefix does not change the first error found.
proof fn lemma_first_error_skip(args: Seq<VasoV>, i: int)
    requires
        0 <= i <= args.len(),
        forall|k: int| 0 <= k < i ==> !spec_is_error(#[trigger] args[k]),
    ensures
        spec_first_error(args) == spec_first_error(args.skip(i)),
    decreases i,
{
    if i == 0 {
        assert(args.skip(0) =~= args);
    } else {
        lemma_first_error_skip(args, i - 1);
        let s = args.skip(i - 1);
        assert(s[0] == args[i - 1]);
        assert(s.drop_first() =~= args.skip(i));
    }
}

/// Returns the first error-status value among the arguments, if any: library
/// calls refuse to run on an argument that is already an error.
pub fn check_errors(args: &Vec<VasoType>) -> (r: Option<VasoType>)
    ensures
        match r {
            Some(v) => Some(v@) == spec_first_error(views_of(args@)),
            None => spec_first_error(views_of(args@)) is None,
        },
{
    proof {
        crate::types::lemma_views_of_index(args@);
    }
    let ghost vs = views_of(args@);
    let mut i: usize = 0;
    while i < args.len()
        invariant
            i <= args.len(),
            vs == views_of(args@),
            vs.len() == args@.len(),
            forall|k: int| 0 <= k < args@.len() ==> #[trigger] vs[k] == args@[k]@,
            forall|k: int| 0 <= k < i ==> !spec_is_error(#[trigger] vs[k]),
        decreases args.len() - i,
    {
        if let VasoType::VBit(level, msg) = &args[i] {
            if *level == 3 {
                proof {
                    lemma_first_error_skip(vs, i as int);
                    assert(vs.skip(i as int)[0] == vs[i as int]);
                }
                return Some(VasoType::VBit(3, msg.clone()));
            }
        }
        i += 1;
    }
    proof {
        lemma_first_error_skip(vs, args@.len() as int);
        assert(vs.skip(vs.len() as int) =~= Seq::<VasoV>::empty());
    }
    None
}

/// Dominance law: the rank order is error > unknown > loading > on > off,
/// and combining two status values with an additive operator keeps whichever
/// ranks strictly higher — on a tie, the left operand, message included.
pub proof fn lemma_status_dominance(ll: u8, lm: Seq<char>, rl: u8, rm: Seq<char>, op: Token)
    requires
        spec_is_plus(op),
    ensures
        spec_priority(3) > spec_priority(4) > spec_priority(2) > spec_priority(1) > spec_priority(
            0,
        ),
        spec_apply(VasoV::VBit(ll, lm), VasoV::VBit(rl, rm), op) == if spec_priority(ll)
            >= spec_priority(rl) {
            VasoV::VBit(ll, lm)
        } else {
            VasoV::VBit(rl, rm)
        },
{
}

/// Infection law: a status value paired with a non-status value wins
/// unchanged, on either side and under every operator.
pub proof fn lemma_infection(s: VasoV, v: VasoV, op: Token)
    requires
        s is VBit,
        !(v is VBit),
    ensures
        spec_apply(s, v, op) == s,
        spec_apply(v, s, op) == s,
{
}

/// Division-by-zero law: dividing any integer by zero yields an error-status
/// value whose message is exactly "Division by Zero".
pub proof fn lemma_division_by_zero(n: i32)
    ensures
        spec_apply(VasoV::Int(n), VasoV::Int(0), Token::DivAssign) == VasoV::VBit(
            3,
            "Division by Zero"@,
        ),
{
}

/// Status equality ignores messages: two status values of the same level
/// compare equal, whatever their messages.
pub proof fn lemma_status_equality_ignores_message(level: u8, ma: Seq<char>, mb: Seq<char>)
    ensures
        spec_apply(VasoV::VBit(level, ma), VasoV::VBit(level, mb), Token::Equals) == VasoV::VBit(
            1,
            Seq::<char>::empty(),
        ),
{
}

} // verus!
