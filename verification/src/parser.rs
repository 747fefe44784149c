//! Argument extraction for calls: reads the parenthesized literal or
//! identifier arguments that follow a call head, resolving identifiers
//! against the scope stack.

use vstd::prelude::*;

use crate::memory::{spec_lookup, MemoryStack};
use crate::tokens::Token;
use crate::types::{views_of, VasoType, VasoV};

verus! {

broadcast use vstd::std_specs::vec::group_vec_axioms, vstd::seq::group_seq_axioms;

/// The error-status value for an identifier argument no scope holds.
pub open spec fn spec_missing_var(name: Seq<char>) -> VasoV {
    VasoV::VBit(3, "Var '"@ + name + "' not found"@)
}

/// Scans argument tokens from `i` up to and past the closing parenthesis:
/// string and number literals become values, identifiers resolve through the
/// scope stack (an unknown one becomes an error-status value), and every
/// other token is skipped.  The scan also yields the position just after the
/// closing parenthesis — or the end of the sequence if none closes.
pub open spec fn spec_args_scan(
    tokens: Seq<Token>,
    i: int,
    mem: Seq<Map<Seq<char>, VasoV>>,
) -> (Seq<VasoV>, int)
    decreases tokens.len() - i,
{
    if i < 0 || i >= tokens.len() {
        (Seq::empty(), i)
    } else {
        match tokens[i] {
            Token::RParen => (Seq::empty(), i + 1),
            Token::StringLiteral(s) => {
                let (rest, end) = spec_args_scan(tokens, i + 1, mem);
                (seq![VasoV::Str(s@)] + rest, end)
            },
            Token::NumberLiteral(n) => {
                let (rest, end) = spec_args_scan(tokens, i + 1, mem);
                (seq![VasoV::Int(n)] + rest, end)
            },
            Token::Identifier(name) => {
                let v = match spec_lookup(mem, name@) {
                    Some(v) => v,
                    None => spec_missing_var(name@),
                };
                let (rest, end) = spec_args_scan(tokens, i + 1, mem);
                (seq![v] + rest, end)
            },
            _ => spec_args_scan(tokens, i + 1, mem),
        }
    }
}

/// What `extract_args` yields: nothing when no parenthesis opens at
/// `start`, else the scanned arguments and the position after the closing
/// parenthesis.
pub open spec fn spec_extract_args(
    tokens: Seq<Token>,
    start: int,
    mem: Seq<Map<Seq<char>, VasoV>>,
) -> (Seq<VasoV>, int) {
    if 0 <= start < tokens.len() && tokens[start] is LParen {
        spec_args_scan(tokens, start + 1, mem)
    } else {
        (Seq::empty(), start)
    }
}

/// Reads the argument list that opens at `start_idx`, resolving identifiers
/// against the scope stack; yields the argument values and the position just
/// after the closing parenthesis.
pub fn extract_args(tokens: &Vec<Token>, start_idx: usize, memory: &MemoryStack) -> (r: (
    Vec<VasoType>,
    usize,
))
    requires
        memory.wf(),
    ensures
        views_of(r.0@) == spec_extract_args(tokens@, start_idx as int, memory@).0,
        r.1 as int == spec_extract_args(tokens@, start_idx as int, memory@).1,
{
    let mut args: Vec<VasoType> = Vec::new();
    let mut i = start_idx;
    proof {
        crate::types::lemma_views_of_index(args@);
        assert(views_of(args@) =~= Seq::<VasoV>::empty());
    }
    if i < tokens.len() && matches!(&tokens[i], Token::LParen) {
        i += 1;
        let ghost full = spec_args_scan(tokens@, start_idx + 1, memory@);
        while i < tokens.len()
            invariant
                memory.wf(),
                start_idx < i <= tokens@.len(),
                tokens@[start_idx as int] is LParen,
                full == spec_args_scan(tokens@, start_idx + 1, memory@),
                ({
                    let rest = spec_args_scan(tokens@, i as int, memory@);
                    full.0 == views_of(args@) + rest.0 && full.1 == rest.1
                }),
            decreases tokens@.len() - i,
        {
            let ghost pre_args = args@;
            let ghost rest_here = spec_args_scan(tokens@, i as int, memory@);
            match &tokens[i] {
                Token::RParen => {
                    i += 1;
                    proof {
                        assert(views_of(args@) + Seq::<VasoV>::empty() =~= views_of(args@));
                        assert(full.0 == views_of(args@));
                        assert(full.1 == i as int);
                        assert(spec_extract_args(tokens@, start_idx as int, memory@) == full);
                    }
                    return (args, i);
                },
                Token::StringLiteral(s) => {
                    args.push(VasoType::Str(s.clone()));
                },
                Token::NumberLiteral(n) => {
                    args.push(VasoType::Int(*n));
                },
                Token::Identifier(n) => {
                    match memory.get(n.as_str()) {
                        Some(val) => {
                            let copied = val.clone();
                            args.push(copied);
                        },
                        None => {
                            let mut msg = "Var '".to_owned();
                            msg.append(n.as_str());
                            msg.append("' not found");
                            args.push(VasoType::VBit(3, msg));
                        },
                    }
                },
                _ => {},
            }
            proof {
                if args@.len() > pre_args.len() {
                    assert(args@.drop_last() =~= pre_args);
                    assert(views_of(args@) == views_of(pre_args).push(args@.last()@));
                    let rest_next = spec_args_scan(tokens@, i + 1, memory@);
                    assert(rest_here.0 == seq![args@.last()@] + rest_next.0);
                    assert(views_of(pre_args) + rest_here.0 =~= views_of(args@) + rest_next.0);
                }
            }
            i += 1;
        }
        proof {
            let rest = spec_args_scan(tokens@, i as int, memory@);
            assert(rest.0 =~= Seq::<VasoV>::empty());
            assert(views_of(args@) + rest.0 =~= views_of(args@));
        }
        (args, i)
    } else {
        (args, i)
    }
}

} // verus!
