//! The control engine: an instruction-pointer state machine over the flat
//! token sequence.
//!
//! All control flow — conditionals, loops, calls, match blocks — is
//! performed by moving an integer instruction pointer through the sequence,
//! guided by a precomputed brace-matching index for O(1) block skips.  Four
//! pieces of state move together: the instruction pointer, the block depth,
//! the scope stack, and the active-loop and call stacks, which decide in
//! priority order what a block-closing marker means — loop again, return
//! from a call, or just close a block.

use vstd::prelude::*;
use vstd::pervasive::VecAdditionalExecFns;

use crate::memory::{spec_lookup, spec_set, MemoryStack};
use crate::stdlib::{HostCall, HostCallV};
use crate::tokens::Token;
use crate::types::{views_of, VasoType, VasoV};

verus! {

broadcast use vstd::std_specs::vec::group_vec_axioms, vstd::seq::group_seq_axioms;

/// An active loop: a while record anchors at the `while` token itself and
/// carries no iterator; a for-each record anchors at the body's opening
/// brace and carries the iteration variable, a snapshot of the list, and
/// the current index.
#[derive(Debug)]
pub struct LoopRec {
    pub depth: usize,
    pub start_idx: usize,
    pub iter_var: Option<String>,
    pub iter_list: Option<Vec<VasoType>>,
    pub iter_pos: usize,
}

/// Spec-level picture of an active-loop record.
#[verifier::ext_equal]
pub struct LoopV {
    pub depth: int,
    pub start_idx: int,
    pub iter_var: Option<Seq<char>>,
    pub iter_list: Option<Seq<VasoV>>,
    pub iter_pos: int,
}

impl View for LoopRec {
    type V = LoopV;

    open spec fn view(&self) -> LoopV {
        LoopV {
            depth: self.depth as int,
            start_idx: self.start_idx as int,
            iter_var: match &self.iter_var {
                Some(v) => Some(v@),
                None => None,
            },
            iter_list: match &self.iter_list {
                Some(l) => Some(views_of(l@)),
                None => None,
            },
            iter_pos: self.iter_pos as int,
        }
    }
}

/// What one step of the engine reports: more work to do, normal
/// termination, or a host action the embedder must run before the engine
/// can resume.
#[derive(Debug)]
pub enum StepResult {
    Continue,
    Done,
    Host(HostCall),
}

/// Spec-level picture of a step report.
pub enum StepV {
    Continue,
    Done,
    Host(HostCallV),
}

impl View for StepResult {
    type V = StepV;

    open spec fn view(&self) -> StepV {
        match self {
            StepResult::Continue => StepV::Continue,
            StepResult::Done => StepV::Done,
            StepResult::Host(c) => StepV::Host(c@),
        }
    }
}

/// Spec-level picture of the whole engine state.
#[verifier::ext_equal]
pub struct EngineV {
    pub tokens: Seq<Token>,
    pub ip: int,
    pub depth: int,
    pub skip_else: Map<int, bool>,
    pub calls: Seq<(int, int)>,
    pub loops: Seq<LoopV>,
    pub mem: Seq<Map<Seq<char>, VasoV>>,
    pub output: Seq<Seq<char>>,
    pub diagnostics: Seq<Seq<char>>,
    pub pending: Option<Seq<char>>,
}

/// The brace-matching state after scanning the first `i` tokens: the stack
/// of still-open positions, and the pairs recorded so far.  Unmatched
/// closers are silently ignored.
pub open spec fn spec_brace_state(tokens: Seq<Token>, i: int) -> (Seq<int>, Map<int, int>)
    decreases i,
{
    if i <= 0 {
        (Seq::empty(), Map::empty())
    } else {
        let (st, m) = spec_brace_state(tokens, i - 1);
        match tokens[i - 1] {
            Token::LBrace => (st.push(i - 1), m),
            Token::RBrace => if st.len() > 0 {
                (st.drop_last(), m.insert(st.last(), i - 1))
            } else {
                (st, m)
            },
            _ => (st, m),
        }
    }
}

/// The jump map: each block-opening position paired with its matching
/// block-closing position, by standard LIFO bracket matching.
pub open spec fn spec_jump_map(tokens: Seq<Token>) -> Map<int, int> {
    spec_brace_state(tokens, tokens.len() as int).1
}

/// Every recorded position lies inside the scanned prefix, openers before
/// their closers.
pub proof fn lemma_brace_state_bounds(tokens: Seq<Token>, i: int)
    requires
        0 <= i <= tokens.len(),
    ensures
        ({
            let (st, m) = spec_brace_state(tokens, i);
            &&& forall|k: int| 0 <= k < st.len() ==> 0 <= #[trigger] st[k] && st[k] < i
            &&& forall|p: int|
                #[trigger] m.contains_key(p) ==> 0 <= p && p < m[p] && m[p] < i
        }),
    decreases i,
{
    if i > 0 {
        lemma_brace_state_bounds(tokens, i - 1);
        let (st0, m0) = spec_brace_state(tokens, i - 1);
        let (st, m) = spec_brace_state(tokens, i);
        match tokens[i - 1] {
            Token::LBrace => {
                assert forall|k: int| 0 <= k < st.len() implies 0 <= #[trigger] st[k] && st[k]
                    < i by {
                    if k < st.len() - 1 {
                        assert(st[k] == st0[k]);
                    }
                }
            },
            Token::RBrace => {
                if st0.len() > 0 {
                    assert forall|k: int| 0 <= k < st.len() implies 0 <= #[trigger] st[k]
                        && st[k] < i by {
                        assert(st[k] == st0[k]);
                    }
                    assert forall|p: int| #[trigger] m.contains_key(p) implies 0 <= p && p
                        < m[p] && m[p] < i by {
                        if p != st0.last() {
                            assert(m[p] == m0[p] && m0.contains_key(p));
                        } else {
                            assert(st0[st0.len() - 1] < i - 1);
                        }
                    }
                }
            },
            _ => {},
        }
    }
}

/// Whether the concrete jump table encodes the jump map of the tokens.
pub open spec fn jump_table_matches(jm: Seq<Option<usize>>, tokens: Seq<Token>) -> bool {
    let m = spec_jump_map(tokens);
    &&& jm.len() == tokens.len()
    &&& forall|p: int|
        0 <= p < jm.len() ==> #[trigger] jm[p] == (if m.contains_key(p) {
            Some(m[p] as usize)
        } else {
            None::<usize>
        })
}

/// Builds the jump map in one left-to-right scan with an auxiliary position
/// stack: push on every opener, pop and record on every matched closer.
pub fn build_jump_map(tokens: &Vec<Token>) -> (jm: Vec<Option<usize>>)
    ensures
        jump_table_matches(jm@, tokens@),
{
    let n = tokens.len();
    let mut jm: Vec<Option<usize>> = Vec::new();
    let mut t: usize = 0;
    while t < n
        invariant
            t <= n,
            jm@.len() == t,
            forall|p: int| 0 <= p < t ==> #[trigger] jm@[p] is None,
        decreases n - t,
    {
        jm.push(None);
        t += 1;
    }
    let mut stack: Vec<usize> = Vec::new();
    let mut i: usize = 0;
    while i < n
        invariant
            n == tokens@.len(),
            jm@.len() == n,
            i <= n,
            ({
                let (st, m) = spec_brace_state(tokens@, i as int);
                &&& st.len() == stack@.len()
                &&& forall|k: int| 0 <= k < st.len() ==> #[trigger] st[k] == stack@[k] as int
                &&& forall|p: int|
                    0 <= p < n ==> #[trigger] jm@[p] == (if m.contains_key(p) {
                        Some(m[p] as usize)
                    } else {
                        None::<usize>
                    })
            }),
        decreases n - i,
    {
        proof {
            lemma_brace_state_bounds(tokens@, i as int);
        }
        let ghost (st0, m0) = spec_brace_state(tokens@, i as int);
        match &tokens[i] {
            Token::LBrace => {
                stack.push(i);
            },
            Token::RBrace => {
                if let Some(start) = stack.pop() {
                    proof {
                        assert(st0[st0.len() - 1] == start as int);
                        assert(0 <= st0.last() < i as int);
                    }
                    jm.set(start, Some(i));
                }
            },
            _ => {},
        }
        i += 1;
    }
    jm
}

/// A flag table read as a partial map from depth to flag.
pub open spec fn flag_view(entries: Seq<Option<bool>>) -> Map<int, bool> {
    Map::new(
        |d: int| 0 <= d < entries.len() && entries[d] is Some,
        |d: int| opt_bool(entries[d]),
    )
}

/// The flag held, or false.
pub open spec fn opt_bool(o: Option<bool>) -> bool {
    match o {
        Some(b) => b,
        None => false,
    }
}

/// The parameter names of a function header, scanned from `k` up to the
/// closing parenthesis (every non-identifier token in between is skipped),
/// and the position of that closing parenthesis — or the end of the
/// sequence if none closes.
pub open spec fn spec_fn_params(tokens: Seq<Token>, k: int) -> (Seq<Seq<char>>, int)
    decreases tokens.len() - k,
{
    if k < 0 || k >= tokens.len() {
        (Seq::empty(), k)
    } else {
        match tokens[k] {
            Token::RParen => (Seq::empty(), k),
            Token::Identifier(a) => {
                let (rest, end) = spec_fn_params(tokens, k + 1);
                (seq![a@] + rest, end)
            },
            _ => spec_fn_params(tokens, k + 1),
        }
    }
}

/// One pre-scan step: a function header at `i` records the function in the
/// global scope, pointing at its body's start position.
pub open spec fn spec_prescan_one(
    tokens: Seq<Token>,
    i: int,
    mem: Seq<Map<Seq<char>, VasoV>>,
) -> Seq<Map<Seq<char>, VasoV>> {
    if 0 <= i && i + 2 < tokens.len() && mem.len() >= 1 {
        match (tokens[i], tokens[i + 1], tokens[i + 2]) {
            (Token::Function, Token::Identifier(name), Token::LParen) => {
                let (params, k) = spec_fn_params(tokens, i + 3);
                mem.update(0, mem[0].insert(name@, VasoV::Function(k + 1, params)))
            },
            _ => mem,
        }
    } else {
        mem
    }
}

/// The pre-scan from position `i` to the end: every function header is
/// recorded in the global scope before execution starts.
pub open spec fn spec_prescan(
    tokens: Seq<Token>,
    i: int,
    mem: Seq<Map<Seq<char>, VasoV>>,
) -> Seq<Map<Seq<char>, VasoV>>
    decreases tokens.len() - i,
{
    if i < 0 || i >= tokens.len() {
        mem
    } else {
        spec_prescan(tokens, i + 1, spec_prescan_one(tokens, i, mem))
    }
}

/// The engine's initial state on a token sequence: pointer at zero, depth
/// zero, empty loop and call stacks, and a scope stack holding only the
/// global scope filled by the pre-scan.
pub open spec fn spec_init(tokens: Seq<Token>) -> EngineV {
    EngineV {
        tokens: tokens,
        ip: 0,
        depth: 0,
        skip_else: Map::empty(),
        calls: Seq::empty(),
        loops: Seq::empty(),
        mem: spec_prescan(tokens, 0, seq![Map::empty()]),
        output: Seq::empty(),
        diagnostics: Seq::empty(),
        pending: None,
    }
}

/// A depth one deeper, held at the machine's ceiling.
pub open spec fn spec_bump(d: int) -> int {
    if d < usize::MAX {
        d + 1
    } else {
        d
    }
}

/// The first block-opening position at or after `from`, if any.
pub open spec fn spec_find_lbrace(tokens: Seq<Token>, from: int) -> Option<int>
    decreases tokens.len() - from,
{
    if from < 0 || from >= tokens.len() {
        None
    } else if tokens[from] is LBrace {
        Some(from)
    } else {
        spec_find_lbrace(tokens, from + 1)
    }
}

/// Where a block skip lands: just past the matching closer of the first
/// opener found at or after `from`, or at `fallback` when no opener or no
/// recorded match exists.
pub open spec fn spec_skip_target(tokens: Seq<Token>, from: int, fallback: int) -> int {
    match spec_find_lbrace(tokens, from) {
        Some(b) => if spec_jump_map(tokens).contains_key(b) {
            spec_jump_map(tokens)[b] + 1
        } else {
            fallback
        },
        None => fallback,
    }
}

/// The variable's value, when it is bound and holds an integer.
pub open spec fn spec_int_of(mem: Seq<Map<Seq<char>, VasoV>>, name: Seq<char>) -> Option<i32> {
    match spec_lookup(mem, name) {
        Some(VasoV::Int(v)) => Some(v),
        _ => None,
    }
}

/// A while condition: one of the fixed shapes `x < 7`, `x < y`, `x == 7`,
/// `x == y` over integers.  Yields whether the condition holds and how many
/// tokens the condition occupies; anything else reads as false.
pub open spec fn spec_while_cond(tokens: Seq<Token>, i: int, mem: Seq<Map<Seq<char>, VasoV>>) -> (
    bool,
    int,
) {
    if 0 <= i && i + 1 < tokens.len() {
        match tokens[i + 1] {
            Token::Identifier(n1) => if i + 3 < tokens.len() {
                match (tokens[i + 2], tokens[i + 3]) {
                    (Token::LessThan, Token::NumberLiteral(v2)) => (
                        spec_int_of(mem, n1@) matches Some(v1) && v1 < v2,
                        3,
                    ),
                    (Token::LessThan, Token::Identifier(n2)) => (
                        spec_int_of(mem, n1@) matches Some(v1) && spec_int_of(mem, n2@)
                            matches Some(v2) && v1 < v2,
                        3,
                    ),
                    (Token::Equals, Token::NumberLiteral(v2)) => (
                        spec_int_of(mem, n1@) matches Some(v1) && v1 == v2,
                        3,
                    ),
                    (Token::Equals, Token::Identifier(n2)) => (
                        spec_int_of(mem, n1@) matches Some(v1) && spec_int_of(mem, n2@)
                            matches Some(v2) && v1 == v2,
                        3,
                    ),
                    _ => (false, 1),
                }
            } else {
                (false, 1)
            },
            _ => (false, 1),
        }
    } else {
        (false, 1)
    }
}

/// Whether the variable currently holds an `on` status value.
pub open spec fn spec_truthy(mem: Seq<Map<Seq<char>, VasoV>>, name: Seq<char>) -> bool {
    match spec_lookup(mem, name) {
        Some(VasoV::VBit(level, _)) => level == 1,
        _ => false,
    }
}

/// An if condition: the fixed comparison shapes `x > y`, `x > 7`,
/// `x == "s"`, `x == 7` and `x == y` (deep value equality), or a bare
/// identifier read as true exactly when it holds an `on` status value.
pub open spec fn spec_if_cond(tokens: Seq<Token>, i: int, mem: Seq<Map<Seq<char>, VasoV>>) -> (
    bool,
    int,
) {
    if 0 <= i && i + 1 < tokens.len() {
        match tokens[i + 1] {
            Token::Identifier(n1) => if i + 3 < tokens.len() {
                match (tokens[i + 2], tokens[i + 3]) {
                    (Token::GreaterThan, Token::Identifier(n2)) => (
                        spec_int_of(mem, n1@) matches Some(v1) && spec_int_of(mem, n2@)
                            matches Some(v2) && v1 > v2,
                        3,
                    ),
                    (Token::GreaterThan, Token::NumberLiteral(v2)) => (
                        spec_int_of(mem, n1@) matches Some(v1) && v1 > v2,
                        3,
                    ),
                    (Token::Equals, Token::StringLiteral(s2)) => (
                        spec_lookup(mem, n1@) matches Some(VasoV::Str(s1)) && s1 == s2@,
                        3,
                    ),
                    (Token::Equals, Token::NumberLiteral(v2)) => (
                        spec_int_of(mem, n1@) matches Some(v1) && v1 == v2,
                        3,
                    ),
                    (Token::Equals, Token::Identifier(n2)) => (
                        spec_lookup(mem, n1@) matches Some(val1) && spec_lookup(mem, n2@)
                            matches Some(val2) && val1 == val2,
                        3,
                    ),
                    _ => (spec_truthy(mem, n1@), 1),
                }
            } else {
                (spec_truthy(mem, n1@), 1)
            },
            _ => (false, 1),
        }
    } else {
        (false, 1)
    }
}

/// Block open: one level deeper, next token.
pub open spec fn spec_step_lbrace(s: EngineV) -> (EngineV, StepV) {
    (EngineV { ip: s.ip + 1, depth: spec_bump(s.depth), ..s }, StepV::Continue)
}

/// Block close once no active loop claimed it: the innermost call frame
/// whose saved depth is one less returns from the call (popping the frame
/// and the innermost scope), else the block just closes.
pub open spec fn spec_step_rbrace_after_loops(s: EngineV) -> (EngineV, StepV) {
    if s.calls.len() > 0 && s.depth == s.calls.last().1 + 1 {
        (
            EngineV {
                calls: s.calls.drop_last(),
                mem: if s.mem.len() > 1 {
                    s.mem.drop_last()
                } else {
                    s.mem
                },
                ip: s.calls.last().0,
                depth: s.depth - 1,
                ..s
            },
            StepV::Continue,
        )
    } else {
        (
            EngineV {
                depth: if s.depth > 0 {
                    s.depth - 1
                } else {
                    0
                },
                ip: s.ip + 1,
                ..s
            },
            StepV::Continue,
        )
    }
}

/// Block close, in strict priority order: an active loop record at this
/// depth either iterates (for-each rebinds the variable and jumps to the
/// body start; while jumps back to its condition) or, when exhausted, is
/// popped and the close falls through to call-return and ordinary-close
/// handling.
pub open spec fn spec_step_rbrace(s: EngineV) -> (EngineV, StepV) {
    if s.loops.len() > 0 && s.loops.last().depth == s.depth {
        let rec = s.loops.last();
        match (rec.iter_var, rec.iter_list) {
            (Some(var), Some(list)) => {
                let pos2 = rec.iter_pos + 1;
                if pos2 < list.len() {
                    (
                        EngineV {
                            mem: spec_set(s.mem, var, list[pos2]),
                            ip: rec.start_idx,
                            depth: s.depth - 1,
                            loops: s.loops.update(
                                s.loops.len() - 1,
                                LoopV { iter_pos: pos2, ..rec },
                            ),
                            ..s
                        },
                        StepV::Continue,
                    )
                } else {
                    spec_step_rbrace_after_loops(EngineV { loops: s.loops.drop_last(), ..s })
                }
            },
            _ => (EngineV { ip: rec.start_idx, depth: s.depth - 1, ..s }, StepV::Continue),
        }
    } else {
        spec_step_rbrace_after_loops(s)
    }
}

/// A function header in the main pass: teleport past the whole body —
/// bodies run only through explicit calls.
pub open spec fn spec_step_function(s: EngineV) -> (EngineV, StepV) {
    (EngineV { ip: spec_skip_target(s.tokens, s.ip, s.ip + 1), ..s }, StepV::Continue)
}

/// A while token: when the condition holds, push a loop record anchored at
/// the while token itself (unless one is already active at that depth) and
/// walk into the body; when it fails, drop a stale record for this depth
/// and teleport past the block.
pub open spec fn spec_step_while(s: EngineV) -> (EngineV, StepV) {
    let (cond, offset) = spec_while_cond(s.tokens, s.ip, s.mem);
    let loop_depth = spec_bump(s.depth);
    if cond {
        let is_active = s.loops.len() > 0 && s.loops.last().depth == loop_depth;
        let loops2 = if is_active {
            s.loops
        } else {
            s.loops.push(
                LoopV {
                    depth: loop_depth,
                    start_idx: s.ip,
                    iter_var: None,
                    iter_list: None,
                    iter_pos: 0,
                },
            )
        };
        (EngineV { loops: loops2, ip: s.ip + offset + 1, ..s }, StepV::Continue)
    } else {
        let loops2 = if s.loops.len() > 0 && s.loops.last().depth == loop_depth {
            s.loops.drop_last()
        } else {
            s.loops
        };
        (
            EngineV { loops: loops2, ip: spec_skip_target(s.tokens, s.ip, s.ip + 1), ..s },
            StepV::Continue,
        )
    }
}

/// An if token: record for this depth whether the matching else must be
/// skipped, then either walk into the block or teleport past it.
pub open spec fn spec_step_if(s: EngineV) -> (EngineV, StepV) {
    let (cond, offset) = spec_if_cond(s.tokens, s.ip, s.mem);
    if cond {
        (
            EngineV { skip_else: s.skip_else.insert(s.depth, true), ip: s.ip + offset + 1, ..s },
            StepV::Continue,
        )
    } else {
        (
            EngineV {
                skip_else: s.skip_else.insert(s.depth, false),
                ip: spec_skip_target(s.tokens, s.ip, s.ip + 1),
                ..s
            },
            StepV::Continue,
        )
    }
}

/// An else token: skipped via the jump map exactly when the conditional at
/// this depth succeeded; otherwise execution falls into the block.
pub open spec fn spec_step_else(s: EngineV) -> (EngineV, StepV) {
    let should_skip = s.skip_else.contains_key(s.depth) && s.skip_else[s.depth];
    if should_skip && s.ip + 1 < s.tokens.len() && s.tokens[s.ip + 1] is LBrace
        && spec_jump_map(s.tokens).contains_key(s.ip + 1) {
        (EngineV { ip: spec_jump_map(s.tokens)[s.ip + 1] + 1, ..s }, StepV::Continue)
    } else {
        (EngineV { ip: s.ip + 1, ..s }, StepV::Continue)
    }
}

/// A print statement: one console line — a string literal verbatim, a
/// status literal by its canonical name, or a variable's rendered value (an
/// unbound variable prints an empty line).
pub open spec fn spec_step_print(s: EngineV) -> (EngineV, StepV) {
    let i = s.ip;
    if i + 1 < s.tokens.len() && s.tokens[i + 1] is LParen && i + 3 < s.tokens.len() {
        match (s.tokens[i + 2], s.tokens[i + 3]) {
            (Token::Identifier(n), Token::RParen) => {
                let line = match spec_lookup(s.mem, n@) {
                    Some(v) => crate::types::spec_render(v),
                    None => Seq::empty(),
                };
                (EngineV { output: s.output.push(line), ip: i + 4, ..s }, StepV::Continue)
            },
            (Token::StringLiteral(text), Token::RParen) => (
                EngineV { output: s.output.push(text@), ip: i + 4, ..s },
                StepV::Continue,
            ),
            (Token::LitOff, Token::RParen) => (
                EngineV { output: s.output.push("off"@), ip: i + 4, ..s },
                StepV::Continue,
            ),
            (Token::LitOn, Token::RParen) => (
                EngineV { output: s.output.push("on"@), ip: i + 4, ..s },
                StepV::Continue,
            ),
            (Token::LitLoading, Token::RParen) => (
                EngineV { output: s.output.push("loading"@), ip: i + 4, ..s },
                StepV::Continue,
            ),
            (Token::LitError, Token::RParen) => (
                EngineV { output: s.output.push("error"@), ip: i + 4, ..s },
                StepV::Continue,
            ),
            (Token::LitUnknown, Token::RParen) => (
                EngineV { output: s.output.push("unknown"@), ip: i + 4, ..s },
                StepV::Continue,
            ),
            (_, Token::RParen) => (EngineV { ip: i + 4, ..s }, StepV::Continue),
            _ => (EngineV { ip: i + 1, ..s }, StepV::Continue),
        }
    } else {
        (EngineV { ip: i + 1, ..s }, StepV::Continue)
    }
}

/// A for-each header `for x in xs`: resolve the list; enter or re-enter the
/// body binding the first element and pushing a record anchored just after
/// the header, teleport past the block when the list is empty, and report a
/// recoverable diagnostic when the variable is not a list.
pub open spec fn spec_step_for(s: EngineV) -> (EngineV, StepV) {
    let i = s.ip;
    if i + 3 < s.tokens.len() && s.tokens[i + 2] is In {
        match (s.tokens[i + 1], s.tokens[i + 3]) {
            (Token::Identifier(var), Token::Identifier(list_name)) => {
                match spec_lookup(s.mem, list_name@) {
                    Some(VasoV::List(list)) => {
                        let loop_depth = spec_bump(s.depth);
                        let is_active = s.loops.len() > 0 && s.loops.last().depth == loop_depth
                            && s.loops.last().start_idx == i + 4;
                        if is_active {
                            (EngineV { ip: i + 4, ..s }, StepV::Continue)
                        } else if list.len() > 0 {
                            (
                                EngineV {
                                    mem: spec_set(s.mem, var@, list[0]),
                                    loops: s.loops.push(
                                        LoopV {
                                            depth: loop_depth,
                                            start_idx: i + 4,
                                            iter_var: Some(var@),
                                            iter_list: Some(list),
                                            iter_pos: 0,
                                        },
                                    ),
                                    ip: i + 4,
                                    ..s
                                },
                                StepV::Continue,
                            )
                        } else {
                            if i + 4 < s.tokens.len() && s.tokens[i + 4] is LBrace
                                && spec_jump_map(s.tokens).contains_key(i + 4) {
                                (
                                    EngineV { ip: spec_jump_map(s.tokens)[i + 4] + 1, ..s },
                                    StepV::Continue,
                                )
                            } else {
                                (EngineV { ip: i + 1, ..s }, StepV::Continue)
                            }
                        }
                    },
                    _ => (
                        EngineV {
                            diagnostics: s.diagnostics.push("FOR loop expects a List variable"@),
                            ip: i + 1,
                            ..s
                        },
                        StepV::Continue,
                    ),
                }
            },
            _ => (EngineV { ip: i + 1, ..s }, StepV::Continue),
        }
    } else {
        (EngineV { ip: i + 1, ..s }, StepV::Continue)
    }
}

/// Whether a case literal corresponds to the status level of the value.
pub open spec fn spec_case_matches(tok: Token, v: VasoV) -> bool {
    match (tok, v) {
        (Token::LitOn, VasoV::VBit(level, _)) => level == 1,
        (Token::LitOff, VasoV::VBit(level, _)) => level == 0,
        (Token::LitLoading, VasoV::VBit(level, _)) => level == 2,
        (Token::LitError, VasoV::VBit(level, _)) => level == 3,
        (Token::LitUnknown, VasoV::VBit(level, _)) => level == 4,
        _ => false,
    }
}

/// The right-hand side of an assignment inside a match case.
pub open spec fn spec_case_rhs(
    tok: Token,
    mem: Seq<Map<Seq<char>, VasoV>>,
    with_string: bool,
) -> Option<VasoV> {
    match tok {
        Token::NumberLiteral(n) => Some(VasoV::Int(n)),
        Token::StringLiteral(text) => if with_string {
            Some(VasoV::Str(text@))
        } else {
            None
        },
        Token::Identifier(src) => spec_lookup(mem, src@),
        _ => None,
    }
}

/// Runs one match-case body from `k` to its closing brace: print
/// statements and a restricted set of assignment forms.
pub open spec fn spec_case_body(
    tokens: Seq<Token>,
    k: int,
    mem: Seq<Map<Seq<char>, VasoV>>,
    output: Seq<Seq<char>>,
) -> (Seq<Map<Seq<char>, VasoV>>, Seq<Seq<char>>)
    decreases tokens.len() + 4 - k,
{
    if k < 0 || k >= tokens.len() {
        (mem, output)
    } else if tokens[k] is RBrace {
        (mem, output)
    } else {
        match tokens[k] {
            Token::Print => {
                let out2 = if k + 3 < tokens.len() && tokens[k + 1] is LParen && tokens[k + 3]
                    is RParen {
                    match tokens[k + 2] {
                        Token::StringLiteral(text) => output.push(text@),
                        Token::Identifier(n) => match spec_lookup(mem, n@) {
                            Some(v) => output.push(crate::types::spec_render(v)),
                            None => output,
                        },
                        _ => output,
                    }
                } else {
                    output
                };
                spec_case_body(tokens, k + 4, mem, out2)
            },
            Token::Identifier(target) => if k + 2 < tokens.len() {
                match tokens[k + 1] {
                    Token::AssignC | Token::AssignPascal => {
                        let mem2 = match spec_case_rhs(tokens[k + 2], mem, true) {
                            Some(v) => spec_set(mem, target@, v),
                            None => mem,
                        };
                        spec_case_body(tokens, k + 3, mem2, output)
                    },
                    Token::PlusAssign | Token::MinusAssign => {
                        let mem2 = match spec_case_rhs(tokens[k + 2], mem, false) {
                            Some(r) => match spec_lookup(mem, target@) {
                                Some(l) => spec_set(
                                    mem,
                                    target@,
                                    crate::logic::spec_apply(l, r, tokens[k + 1]),
                                ),
                                None => mem,
                            },
                            None => mem,
                        };
                        spec_case_body(tokens, k + 3, mem2, output)
                    },
                    _ => spec_case_body(tokens, k + 1, mem, output),
                }
            } else {
                spec_case_body(tokens, k + 1, mem, output)
            },
            _ => spec_case_body(tokens, k + 1, mem, output),
        }
    }
}

/// Scans the cases of a match block from `j`: the first case whose literal
/// corresponds to the value's status level runs, once; every case block is
/// then skipped via the jump map.
pub open spec fn spec_match_scan(
    tokens: Seq<Token>,
    j: int,
    current: VasoV,
    executed: bool,
    mem: Seq<Map<Seq<char>, VasoV>>,
    output: Seq<Seq<char>>,
) -> (Seq<Map<Seq<char>, VasoV>>, Seq<Seq<char>>)
    decreases tokens.len() - j,
{
    if j < 0 || j >= tokens.len() {
        (mem, output)
    } else if tokens[j] is RBrace {
        (mem, output)
    } else if j + 2 < tokens.len() && tokens[j + 1] is Arrow && tokens[j + 2] is LBrace {
        let matched = spec_case_matches(tokens[j], current);
        let run_it = matched && !executed;
        let (mem2, out2) = if run_it {
            spec_case_body(tokens, j + 3, mem, output)
        } else {
            (mem, output)
        };
        let executed2 = executed || matched;
        let nj = spec_jump_map(tokens)[j + 2] + 1;
        if spec_jump_map(tokens).contains_key(j + 2) && j < nj && nj <= tokens.len() {
            spec_match_scan(tokens, nj, current, executed2, mem2, out2)
        } else {
            spec_match_scan(tokens, j + 1, current, executed2, mem2, out2)
        }
    } else {
        spec_match_scan(tokens, j + 1, current, executed, mem, output)
    }
}

/// A match block `match x { literal => { ... } ... }`: a single pass over
/// the cases with no fallthrough, then an unconditional teleport past the
/// whole block.  An unbound variable reads as an `unknown` status value.
pub open spec fn spec_step_match(s: EngineV) -> (EngineV, StepV) {
    let i = s.ip;
    if i + 2 < s.tokens.len() && s.tokens[i + 2] is LBrace {
        match s.tokens[i + 1] {
            Token::Identifier(var) => {
                let current = match spec_lookup(s.mem, var@) {
                    Some(v) => v,
                    None => VasoV::VBit(4, Seq::empty()),
                };
                let (mem2, out2) = spec_match_scan(s.tokens, i + 3, current, false, s.mem, s.output);
                if spec_jump_map(s.tokens).contains_key(i + 2) {
                    (
                        EngineV {
                            mem: mem2,
                            output: out2,
                            ip: spec_jump_map(s.tokens)[i + 2] + 1,
                            ..s
                        },
                        StepV::Continue,
                    )
                } else {
                    (EngineV { mem: mem2, output: out2, ip: i + 1, ..s }, StepV::Continue)
                }
            },
            _ => (EngineV { ip: i + 1, ..s }, StepV::Continue),
        }
    } else {
        (EngineV { ip: i + 1, ..s }, StepV::Continue)
    }
}

/// The right-hand side of a plain or compound assignment at statement
/// level: any literal (the bare `error` literal carries the message
/// "Generic Error"), or an identifier resolved through the scope stack.
pub open spec fn spec_rhs_value(tok: Token, mem: Seq<Map<Seq<char>, VasoV>>) -> Option<VasoV> {
    match tok {
        Token::LitOff => Some(VasoV::VBit(0, Seq::empty())),
        Token::LitOn => Some(VasoV::VBit(1, Seq::empty())),
        Token::LitLoading => Some(VasoV::VBit(2, Seq::empty())),
        Token::LitError => Some(VasoV::VBit(3, "Generic Error"@)),
        Token::LitUnknown => Some(VasoV::VBit(4, Seq::empty())),
        Token::NumberLiteral(n) => Some(VasoV::Int(n)),
        Token::StringLiteral(text) => Some(VasoV::Str(text@)),
        Token::Identifier(n) => spec_lookup(mem, n@),
        _ => None,
    }
}

/// A bracketed list literal scanned from `k`: number and string literals
/// become elements, everything else is skipped, and the scan stops at the
/// closing bracket (whose position is yielded) or the end of the sequence.
pub open spec fn spec_list_literal(tokens: Seq<Token>, k: int) -> (Seq<VasoV>, int)
    decreases tokens.len() - k,
{
    if k < 0 || k >= tokens.len() {
        (Seq::empty(), k)
    } else {
        match tokens[k] {
            Token::RBracket => (Seq::empty(), k),
            Token::NumberLiteral(n) => {
                let (rest, end) = spec_list_literal(tokens, k + 1);
                (seq![VasoV::Int(n)] + rest, end)
            },
            Token::StringLiteral(text) => {
                let (rest, end) = spec_list_literal(tokens, k + 1);
                (seq![VasoV::Str(text@)] + rest, end)
            },
            _ => spec_list_literal(tokens, k + 1),
        }
    }
}

/// Binds parameter names to argument values, in order, into the scope
/// stack; a parameter with no matching argument stays unbound.
pub open spec fn spec_bind_params(
    params: Seq<Seq<char>>,
    args: Seq<VasoV>,
    mem: Seq<Map<Seq<char>, VasoV>>,
    idx: int,
) -> Seq<Map<Seq<char>, VasoV>>
    decreases params.len() - idx,
{
    if idx < 0 || idx >= params.len() {
        mem
    } else {
        let mem2 = if idx < args.len() {
            spec_set(mem, params[idx], args[idx])
        } else {
            mem
        };
        spec_bind_params(params, args, mem2, idx + 1)
    }
}

/// An identifier at statement level: a call of a function value (extract
/// arguments, push a call frame and a fresh scope, bind parameters, jump
/// into the body), or a plain or compound assignment.
pub open spec fn spec_step_identifier(s: EngineV, name: Seq<char>) -> (EngineV, StepV) {
    let i = s.ip;
    let called = i + 1 < s.tokens.len() && s.tokens[i + 1] is LParen && (spec_lookup(s.mem, name)
        matches Some(VasoV::Function(_b, _p)));
    if called {
        match spec_lookup(s.mem, name) {
            Some(VasoV::Function(body, params)) => {
                let (cargs, next) = crate::parser::spec_extract_args(s.tokens, i + 1, s.mem);
                let mem2 = spec_bind_params(params, cargs, s.mem.push(Map::empty()), 0);
                (
                    EngineV {
                        calls: s.calls.push((next, s.depth)),
                        mem: mem2,
                        ip: body,
                        ..s
                    },
                    StepV::Continue,
                )
            },
            _ => (EngineV { ip: i + 1, ..s }, StepV::Continue),
        }
    } else if i + 2 < s.tokens.len() && (s.tokens[i + 1] is AssignC || s.tokens[i + 1]
        is AssignPascal) {
        if s.tokens[i + 2] is LBracket {
            let (items, k) = spec_list_literal(s.tokens, i + 3);
            (
                EngineV { mem: spec_set(s.mem, name, VasoV::List(items)), ip: k, ..s },
                StepV::Continue,
            )
        } else {
            match spec_rhs_value(s.tokens[i + 2], s.mem) {
                Some(v) => (
                    EngineV { mem: spec_set(s.mem, name, v), ip: i + 3, ..s },
                    StepV::Continue,
                ),
                None => if s.tokens[i + 2] is Identifier {
                    (EngineV { ip: i + 1, ..s }, StepV::Continue)
                } else {
                    (
                        EngineV {
                            diagnostics: s.diagnostics.push("Invalid assignment value"@),
                            ip: i + 1,
                            ..s
                        },
                        StepV::Continue,
                    )
                },
            }
        }
    } else if i + 2 < s.tokens.len() && (s.tokens[i + 1] is PlusAssign || s.tokens[i + 1]
        is MinusAssign) {
        match spec_rhs_value(s.tokens[i + 2], s.mem) {
            Some(r) => match spec_lookup(s.mem, name) {
                Some(l) => (
                    EngineV {
                        mem: spec_set(
                            s.mem,
                            name,
                            crate::logic::spec_apply(l, r, s.tokens[i + 1]),
                        ),
                        ip: i + 3,
                        ..s
                    },
                    StepV::Continue,
                ),
                None => (EngineV { ip: i + 1, ..s }, StepV::Continue),
            },
            None => (EngineV { ip: i + 1, ..s }, StepV::Continue),
        }
    } else {
        (EngineV { ip: i + 1, ..s }, StepV::Continue)
    }
}

/// A `val` or `var` declaration: a qualified `Module.function(...)` call on
/// the right-hand side goes through the standard-library dispatcher — a
/// host action parks the target variable and surfaces the call — while any
/// other right-hand side assigns a literal or a resolved identifier.
pub open spec fn spec_step_decl(s: EngineV, draw: i32) -> (EngineV, StepV) {
    let i = s.ip;
    let shape = i + 3 < s.tokens.len() && s.tokens[i + 1] is Identifier && (s.tokens[i + 2]
        is AssignC || s.tokens[i + 2] is AssignPascal);
    if shape {
        match s.tokens[i + 1] {
            Token::Identifier(name) => {
                let lib_call = i + 5 < s.tokens.len() && s.tokens[i + 3] is Identifier
                    && s.tokens[i + 4] is Dot && s.tokens[i + 5] is Identifier;
                if lib_call {
                    match (s.tokens[i + 3], s.tokens[i + 5]) {
                        (Token::Identifier(module), Token::Identifier(func)) => {
                            let (args, next) = crate::parser::spec_extract_args(
                                s.tokens,
                                i + 6,
                                s.mem,
                            );
                            match crate::stdlib::spec_dispatch(module@, func@, args, draw) {
                                crate::stdlib::StdResultV::Value(v) => (
                                    EngineV {
                                        mem: spec_set(s.mem, name@, v),
                                        ip: next,
                                        ..s
                                    },
                                    StepV::Continue,
                                ),
                                crate::stdlib::StdResultV::Host(c) => (
                                    EngineV { pending: Some(name@), ip: next, ..s },
                                    StepV::Host(c),
                                ),
                            }
                        },
                        _ => (EngineV { ip: i + 1, ..s }, StepV::Continue),
                    }
                } else {
                    match spec_rhs_value(s.tokens[i + 3], s.mem) {
                        Some(v) => (
                            EngineV { mem: spec_set(s.mem, name@, v), ip: i + 4, ..s },
                            StepV::Continue,
                        ),
                        None => (EngineV { ip: i + 1, ..s }, StepV::Continue),
                    }
                }
            },
            _ => (EngineV { ip: i + 1, ..s }, StepV::Continue),
        }
    } else {
        (EngineV { ip: i + 1, ..s }, StepV::Continue)
    }
}

/// One step of the engine: dispatch on the token under the instruction
/// pointer; past the end of the sequence the engine reports normal
/// termination.  `draw` stands for the random draw a standard-library call
/// might make.
pub open spec fn spec_step(s: EngineV, draw: i32) -> (EngineV, StepV) {
    if s.ip < 0 || s.ip >= s.tokens.len() {
        (s, StepV::Done)
    } else {
        match s.tokens[s.ip] {
            Token::Function => spec_step_function(s),
            Token::LBrace => spec_step_lbrace(s),
            Token::RBrace => spec_step_rbrace(s),
            Token::For => spec_step_for(s),
            Token::While => spec_step_while(s),
            Token::Print => spec_step_print(s),
            Token::If => spec_step_if(s),
            Token::Else => spec_step_else(s),
            Token::Match => spec_step_match(s),
            Token::Identifier(name) => spec_step_identifier(s, name@),
            Token::Value => spec_step_decl(s, draw),
            Token::Variable => spec_step_decl(s, draw),
            _ => (EngineV { ip: s.ip + 1, ..s }, StepV::Continue),
        }
    }
}

/// Zero-iterations law: a while loop whose condition reads false executes
/// its body zero times — the step leaves memory, output and every stack
/// except a stale loop record untouched, and teleports the pointer past the
/// block via the jump map.
pub proof fn lemma_while_false_skips_body(s: EngineV, draw: i32)
    requires
        0 <= s.ip < s.tokens.len(),
        (s.tokens[s.ip] is While),
        !spec_while_cond(s.tokens, s.ip, s.mem).0,
    ensures
        ({
            let (s2, out) = spec_step(s, draw);
            &&& out is Continue
            &&& s2.mem == s.mem
            &&& s2.output == s.output
            &&& s2.depth == s.depth
            &&& s2.calls == s.calls
            &&& s2.ip == spec_skip_target(s.tokens, s.ip, s.ip + 1)
        }),
{
}

/// For-each entry law: a fresh `for x in xs` over a non-empty list binds
/// the iteration variable to the first element and pushes a loop record
/// anchored just after the header, at one level deeper.
pub proof fn lemma_foreach_enters_at_first_element(
    s: EngineV,
    draw: i32,
    var: Seq<char>,
    list_name: Seq<char>,
    list: Seq<VasoV>,
)
    requires
        0 <= s.ip,
        s.ip + 3 < s.tokens.len(),
        (s.tokens[s.ip] is For),
        ({
            match (s.tokens[s.ip + 1], s.tokens[s.ip + 2], s.tokens[s.ip + 3]) {
                (Token::Identifier(v), Token::In, Token::Identifier(l)) => v@ == var && l@
                    == list_name,
                _ => false,
            }
        }),
        spec_lookup(s.mem, list_name) == Some(VasoV::List(list)),
        list.len() > 0,
        !(s.loops.len() > 0 && s.loops.last().depth == spec_bump(s.depth)
            && s.loops.last().start_idx == s.ip + 4),
    ensures
        spec_step(s, draw) == ((
            EngineV {
                mem: spec_set(s.mem, var, list[0]),
                loops: s.loops.push(
                    LoopV {
                        depth: spec_bump(s.depth),
                        start_idx: s.ip + 4,
                        iter_var: Some(var),
                        iter_list: Some(list),
                        iter_pos: 0,
                    },
                ),
                ip: s.ip + 4,
                ..s
            },
            StepV::Continue,
        )),
{
}

/// For-each iteration law: a block close at the depth of an active
/// for-each record rebinds the iteration variable to the next list element,
/// in order, and jumps back to the body start; once the list is exhausted
/// the record is popped, so the body never re-runs and execution resumes
/// after the loop exactly once.
pub proof fn lemma_foreach_iterates_in_order(s: EngineV, draw: i32)
    requires
        0 <= s.ip < s.tokens.len(),
        (s.tokens[s.ip] is RBrace),
        s.loops.len() > 0,
        s.loops.last().depth == s.depth,
        (s.loops.last().iter_var is Some),
        (s.loops.last().iter_list is Some),
    ensures
        ({
            let rec = s.loops.last();
            let list = rec.iter_list.unwrap();
            let pos2 = rec.iter_pos + 1;
            if pos2 < list.len() {
                spec_step(s, draw) == ((
                    EngineV {
                        mem: spec_set(s.mem, rec.iter_var.unwrap(), list[pos2]),
                        ip: rec.start_idx,
                        depth: s.depth - 1,
                        loops: s.loops.update(s.loops.len() - 1, LoopV { iter_pos: pos2, ..rec }),
                        ..s
                    },
                    StepV::Continue,
                ))
            } else {
                spec_step(s, draw) == spec_step_rbrace_after_loops(
                    EngineV { loops: s.loops.drop_last(), ..s },
                )
            }
        }),
{
}

/// One step relates the two states, for some admissible random draw.
pub open spec fn spec_step_ok(s1: EngineV, s2: EngineV, out: StepV) -> bool {
    exists|k: i32| 0 <= k < 100 && #[trigger] spec_step(s1, k) == (s2, out)
}

/// The second state is reachable from the first in exactly `n` ordinary
/// steps.
pub open spec fn spec_reaches(s1: EngineV, s2: EngineV, n: nat) -> bool
    decreases n,
{
    if n == 0 {
        s1 == s2
    } else {
        exists|mid: EngineV|
            #[trigger] spec_step_ok(s1, mid, StepV::Continue) && spec_reaches(
                mid,
                s2,
                (n - 1) as nat,
            )
    }
}

/// Reachability extends by one more step.
pub proof fn lemma_reaches_extend(s1: EngineV, s2: EngineV, s3: EngineV, n: nat)
    requires
        spec_reaches(s1, s2, n),
        spec_step_ok(s2, s3, StepV::Continue),
    ensures
        spec_reaches(s1, s3, n + 1),
    decreases n,
{
    if n == 0 {
        assert(spec_step_ok(s1, s3, StepV::Continue) && spec_reaches(s3, s3, 0));
    } else {
        let mid = choose|mid: EngineV|
            #[trigger] spec_step_ok(s1, mid, StepV::Continue) && spec_reaches(
                mid,
                s2,
                (n - 1) as nat,
            );
        lemma_reaches_extend(mid, s2, s3, (n - 1) as nat);
        assert(spec_step_ok(s1, mid, StepV::Continue) && spec_reaches(
            mid,
            s3,
            ((n + 1) - 1) as nat,
        ));
    }
}

/// A depth one deeper, held at the machine's ceiling.
fn bump(d: usize) -> (r: usize)
    ensures
        r as int == spec_bump(d as int),
{
    if d < usize::MAX {
        d + 1
    } else {
        d
    }
}

/// Whether a case literal corresponds to the status level of the value.
fn case_matches(tok: &Token, v: &VasoType) -> (r: bool)
    ensures
        r == spec_case_matches(*tok, v@),
{
    match (tok, v) {
        (Token::LitOn, VasoType::VBit(level, _)) => *level == 1,
        (Token::LitOff, VasoType::VBit(level, _)) => *level == 0,
        (Token::LitLoading, VasoType::VBit(level, _)) => *level == 2,
        (Token::LitError, VasoType::VBit(level, _)) => *level == 3,
        (Token::LitUnknown, VasoType::VBit(level, _)) => *level == 4,
        _ => false,
    }
}

/// The first block-opening position at or after `from`, if any.
fn find_lbrace(tokens: &Vec<Token>, from: usize) -> (r: Option<usize>)
    ensures
        match r {
            Some(b) => spec_find_lbrace(tokens@, from as int) == Some(b as int) && b
                < tokens@.len(),
            None => spec_find_lbrace(tokens@, from as int) is None,
        },
{
    let mut j = from;
    while j < tokens.len()
        invariant
            from <= j,
            spec_find_lbrace(tokens@, from as int) == spec_find_lbrace(tokens@, j as int),
        decreases tokens@.len() - j,
    {
        if matches!(&tokens[j], Token::LBrace) {
            return Some(j);
        }
        j += 1;
    }
    None
}

/// The control engine and all the state it owns.
#[derive(Debug)]
pub struct Engine {
    tokens: Vec<Token>,
    jump_map: Vec<Option<usize>>,
    ip: usize,
    depth: usize,
    skip_else: Vec<Option<bool>>,
    call_stack: Vec<(usize, usize)>,
    active_loops: Vec<LoopRec>,
    mem: MemoryStack,
    output: Vec<String>,
    diagnostics: Vec<String>,
    pending: Option<String>,
}

impl View for Engine {
    type V = EngineV;

    closed spec fn view(&self) -> EngineV {
        EngineV {
            tokens: self.tokens@,
            ip: self.ip as int,
            depth: self.depth as int,
            skip_else: flag_view(self.skip_else@),
            calls: Seq::new(
                self.call_stack@.len(),
                |i: int| (self.call_stack@[i].0 as int, self.call_stack@[i].1 as int),
            ),
            loops: Seq::new(self.active_loops@.len(), |i: int| self.active_loops@[i]@),
            mem: self.mem@,
            output: Seq::new(self.output@.len(), |i: int| self.output@[i]@),
            diagnostics: Seq::new(self.diagnostics@.len(), |i: int| self.diagnostics@[i]@),
            pending: match &self.pending {
                Some(s) => Some(s@),
                None => None,
            },
        }
    }
}

/// A loop record the engine can rely on: anchored at least one level deep,
/// with the iteration variable and list present together and the index
/// inside the list.
pub open spec fn spec_loop_wf(l: LoopV) -> bool {
    &&& l.depth >= 1
    &&& (l.iter_var is Some <==> l.iter_list is Some)
    &&& match l.iter_list {
        Some(list) => 0 <= l.iter_pos < list.len(),
        None => true,
    }
}

impl Engine {
    /// Well-formed: the scope stack is well-formed, the jump table encodes
    /// the jump map of the tokens, every loop record is sound, and the
    /// token count leaves headroom for pointer arithmetic.
    pub closed spec fn wf(&self) -> bool {
        &&& self.mem.wf()
        &&& self.tokens@.len() + 8 < usize::MAX
        &&& jump_table_matches(self.jump_map@, self.tokens@)
        &&& forall|k: int|
            0 <= k < self.active_loops@.len() ==> spec_loop_wf(#[trigger] self.active_loops@[k]@)
    }

    /// Builds an engine over a token sequence: constructs the jump map and
    /// pre-scans function definitions into the global scope.
    pub fn new(tokens: Vec<Token>) -> (r: Engine)
        requires
            tokens@.len() + 8 < usize::MAX,
        ensures
            r.wf(),
            r@ == spec_init(tokens@),
    {
        let jump_map = build_jump_map(&tokens);
        let mut mem = MemoryStack::new();
        proof {
            assert(mem@ =~= seq![Map::<Seq<char>, VasoV>::empty()]);
        }
        let mut ti: usize = 0;
        while ti < tokens.len()
            invariant
                mem.wf(),
                ti <= tokens@.len(),
                tokens@.len() + 8 < usize::MAX,
                spec_prescan(tokens@, 0, seq![Map::<Seq<char>, VasoV>::empty()]) == spec_prescan(
                    tokens@,
                    ti as int,
                    mem@,
                ),
            decreases tokens@.len() - ti,
        {
            let ghost pre_mem = mem@;
            if ti + 2 < tokens.len() {
                let is_header = matches!(&tokens[ti], Token::Function) && matches!(
                    &tokens[ti + 2],
                    Token::LParen,
                );
                if is_header {
                    if let Token::Identifier(fn_name) = &tokens[ti + 1] {
                        let mut fn_args: Vec<String> = Vec::new();
                        let mut k = ti + 3;
                        let mut at_close = false;
                        let ghost full_params = spec_fn_params(tokens@, ti + 3);
                        while !at_close && k < tokens.len()
                            invariant
                                ti + 3 <= k <= tokens@.len(),
                                tokens@.len() + 8 < usize::MAX,
                                at_close ==> (k < tokens@.len() && tokens@[k as int]
                                    is RParen),
                                ({
                                    let rest = spec_fn_params(tokens@, k as int);
                                    full_params.0 == fn_args.deep_view() + rest.0
                                        && full_params.1 == rest.1
                                }),
                            decreases tokens@.len() - k + (if at_close { 0int } else { 1int }),
                        {
                            let ghost pre_args = fn_args.deep_view();
                            match &tokens[k] {
                                Token::RParen => {
                                    at_close = true;
                                },
                                Token::Identifier(arg_name) => {
                                    fn_args.push(arg_name.clone());
                                    proof {
                                        assert(fn_args.deep_view() =~= pre_args.push(
                                            arg_name@,
                                        ));
                                        let rest = spec_fn_params(tokens@, k as int);
                                        let rest_next = spec_fn_params(tokens@, k + 1);
                                        assert(rest.0 == seq![arg_name@] + rest_next.0);
                                        assert(pre_args + rest.0 =~= fn_args.deep_view()
                                            + rest_next.0);
                                    }
                                    k += 1;
                                },
                                _ => {
                                    k += 1;
                                },
                            }
                        }
                        proof {
                            let rest = spec_fn_params(tokens@, k as int);
                            assert(rest.0 =~= Seq::<Seq<char>>::empty());
                            assert(fn_args.deep_view() + rest.0 =~= fn_args.deep_view());
                            assert(full_params.0 == fn_args.deep_view());
                            assert(full_params.1 == k as int);
                        }
                        let body_start = k + 1;
                        proof {
                            mem.lemma_wf_nonempty();
                        }
                        mem.set_global(fn_name.clone(), VasoType::Function(body_start, fn_args));
                        proof {
                            assert(mem@ == spec_prescan_one(tokens@, ti as int, pre_mem));
                        }
                    }
                }
            }
            proof {
                assert(spec_prescan_one(tokens@, ti as int, pre_mem) == mem@);
            }
            ti += 1;
        }
        let ghost toks = tokens@;
        let r = Engine {
            tokens,
            jump_map,
            ip: 0,
            depth: 0,
            skip_else: Vec::new(),
            call_stack: Vec::new(),
            active_loops: Vec::new(),
            mem,
            output: Vec::new(),
            diagnostics: Vec::new(),
            pending: None,
        };
        proof {
            assert(flag_view(r.skip_else@) =~= Map::<int, bool>::empty());
            assert(r@.calls =~= Seq::<(int, int)>::empty());
            assert(r@.loops =~= Seq::<LoopV>::empty());
            assert(r@.output =~= Seq::<Seq<char>>::empty());
            assert(r@.diagnostics =~= Seq::<Seq<char>>::empty());
            assert(r@ == spec_init(toks));
        }
        r
    }

    /// Records whether the else at this depth must be skipped.
    fn set_skip_else(&mut self, depth: usize, val: bool)
        requires
            old(self).wf(),
        ensures
            final(self).wf(),
            final(self)@ == (EngineV {
                skip_else: old(self)@.skip_else.insert(depth as int, val),
                ..old(self)@
            }),
    {
        let ghost pre = self@;
        while self.skip_else.len() <= depth
            invariant
                self.wf(),
                self@ == pre,
                self.tokens@ == pre.tokens,
            decreases depth + 1 - self.skip_else@.len(),
        {
            let ghost entries0 = self.skip_else@;
            self.skip_else.push(None);
            proof {
                assert(flag_view(self.skip_else@) =~= flag_view(entries0));
                assert(self@ =~= pre);
            }
        }
        self.skip_else.set(depth, Some(val));
        proof {
            assert(flag_view(self.skip_else@) =~= pre.skip_else.insert(depth as int, val));
            assert(self@ =~= (EngineV {
                skip_else: pre.skip_else.insert(depth as int, val),
                ..pre
            }));
        }
    }

    /// Where a block skip from `from` lands, per the jump map.
    fn skip_target(&self, from: usize, fallback: usize) -> (r: usize)
        requires
            self.wf(),
            fallback <= self.tokens@.len(),
        ensures
            r as int == spec_skip_target(self@.tokens, from as int, fallback as int),
            r <= self.tokens@.len(),
    {
        proof {
            lemma_brace_state_bounds(self.tokens@, self.tokens@.len() as int);
        }
        match find_lbrace(&self.tokens, from) {
            Some(b) => {
                match self.jump_map[b] {
                    Some(end_idx) => end_idx + 1,
                    None => fallback,
                }
            },
            None => fallback,
        }
    }

    /// Reads a variable that must hold an integer.
    fn int_var(&self, name: &str) -> (r: Option<i32>)
        requires
            self.wf(),
        ensures
            r == spec_int_of(self@.mem, name@),
    {
        match self.mem.get(name) {
            Some(v) => match v {
                VasoType::Int(n) => Some(*n),
                _ => None,
            },
            None => None,
        }
    }

    /// Evaluates a while condition at the instruction pointer.
    fn eval_while_cond(&self) -> (r: (bool, usize))
        requires
            self.wf(),
            self@.ip < self@.tokens.len(),
        ensures
            (r.0, r.1 as int) == spec_while_cond(self@.tokens, self@.ip, self@.mem),
            r.1 <= 3,
    {
        let i = self.ip;
        let n = self.tokens.len();
        if i + 1 < n {
            if let Token::Identifier(n1) = &self.tokens[i + 1] {
                if i + 3 < n {
                    match (&self.tokens[i + 2], &self.tokens[i + 3]) {
                        (Token::LessThan, Token::NumberLiteral(v2)) => {
                            let cond = match self.int_var(n1.as_str()) {
                                Some(v1) => v1 < *v2,
                                None => false,
                            };
                            (cond, 3)
                        },
                        (Token::LessThan, Token::Identifier(n2)) => {
                            let cond = match (self.int_var(n1.as_str()), self.int_var(
                                n2.as_str(),
                            )) {
                                (Some(v1), Some(v2)) => v1 < v2,
                                _ => false,
                            };
                            (cond, 3)
                        },
                        (Token::Equals, Token::NumberLiteral(v2)) => {
                            let cond = match self.int_var(n1.as_str()) {
                                Some(v1) => v1 == *v2,
                                None => false,
                            };
                            (cond, 3)
                        },
                        (Token::Equals, Token::Identifier(n2)) => {
                            let cond = match (self.int_var(n1.as_str()), self.int_var(
                                n2.as_str(),
                            )) {
                                (Some(v1), Some(v2)) => v1 == v2,
                                _ => false,
                            };
                            (cond, 3)
                        },
                        _ => (false, 1),
                    }
                } else {
                    (false, 1)
                }
            } else {
                (false, 1)
            }
        } else {
            (false, 1)
        }
    }

    /// Whether the variable holds an `on` status value.
    fn truthy_var(&self, name: &str) -> (r: bool)
        requires
            self.wf(),
        ensures
            r == spec_truthy(self@.mem, name@),
    {
        match self.mem.get(name) {
            Some(v) => match v {
                VasoType::VBit(level, _) => *level == 1,
                _ => false,
            },
            None => false,
        }
    }

    /// Evaluates an if condition at the instruction pointer.
    fn eval_if_cond(&self) -> (r: (bool, usize))
        requires
            self.wf(),
            self@.ip < self@.tokens.len(),
        ensures
            (r.0, r.1 as int) == spec_if_cond(self@.tokens, self@.ip, self@.mem),
            r.1 <= 3,
    {
        let i = self.ip;
        let n = self.tokens.len();
        if i + 1 < n {
            if let Token::Identifier(n1) = &self.tokens[i + 1] {
                if i + 3 < n {
                    match (&self.tokens[i + 2], &self.tokens[i + 3]) {
                        (Token::GreaterThan, Token::Identifier(n2)) => {
                            let cond = match (self.int_var(n1.as_str()), self.int_var(
                                n2.as_str(),
                            )) {
                                (Some(v1), Some(v2)) => v1 > v2,
                                _ => false,
                            };
                            (cond, 3)
                        },
                        (Token::GreaterThan, Token::NumberLiteral(v2)) => {
                            let cond = match self.int_var(n1.as_str()) {
                                Some(v1) => v1 > *v2,
                                None => false,
                            };
                            (cond, 3)
                        },
                        (Token::Equals, Token::StringLiteral(s2)) => {
                            let cond = match self.mem.get(n1.as_str()) {
                                Some(VasoType::Str(s1)) => crate::memory::str_equal(
                                    s1.as_str(),
                                    s2.as_str(),
                                ),
                                _ => false,
                            };
                            (cond, 3)
                        },
                        (Token::Equals, Token::NumberLiteral(v2)) => {
                            let cond = match self.int_var(n1.as_str()) {
                                Some(v1) => v1 == *v2,
                                None => false,
                            };
                            (cond, 3)
                        },
                        (Token::Equals, Token::Identifier(n2)) => {
                            let cond = match self.mem.get(n1.as_str()) {
                                Some(val1) => match self.mem.get(n2.as_str()) {
                                    Some(val2) => val1.eq_value(val2),
                                    None => false,
                                },
                                None => false,
                            };
                            (cond, 3)
                        },
                        _ => (self.truthy_var(n1.as_str()), 1),
                    }
                } else {
                    (self.truthy_var(n1.as_str()), 1)
                }
            } else {
                (false, 1)
            }
        } else {
            (false, 1)
        }
    }

    /// A function header in the main pass: skip the whole body.
    fn step_function(&mut self) -> (r: StepResult)
        requires
            old(self).wf(),
            old(self)@.ip < old(self)@.tokens.len(),
        ensures
            final(self).wf(),
            (final(self)@, r@) == spec_step_function(old(self)@),
    {
        let target = self.skip_target(self.ip, self.ip + 1);
        self.ip = target;
        proof {
            assert(self@ =~= spec_step_function(old(self)@).0);
        }
        StepResult::Continue
    }

    /// An else token: skip the block when the conditional at this depth
    /// succeeded.
    fn step_else(&mut self) -> (r: StepResult)
        requires
            old(self).wf(),
            old(self)@.ip < old(self)@.tokens.len(),
        ensures
            final(self).wf(),
            (final(self)@, r@) == spec_step_else(old(self)@),
    {
        proof {
            lemma_brace_state_bounds(self.tokens@, self.tokens@.len() as int);
        }
        let i = self.ip;
        let should_skip = if self.skip_else.len() > self.depth {
            match self.skip_else[self.depth] {
                Some(b) => b,
                None => false,
            }
        } else {
            false
        };
        let mut target = i + 1;
        if should_skip && i + 1 < self.tokens.len() && matches!(&self.tokens[i + 1], Token::LBrace)
        {
            if let Some(end_idx) = self.jump_map[i + 1] {
                target = end_idx + 1;
            }
        }
        self.ip = target;
        proof {
            assert(self@ =~= spec_step_else(old(self)@).0);
        }
        StepResult::Continue
    }

    /// A while token: push or drop the loop record and move per the
    /// condition.
    fn step_while(&mut self) -> (r: StepResult)
        requires
            old(self).wf(),
            old(self)@.ip < old(self)@.tokens.len(),
        ensures
            final(self).wf(),
            (final(self)@, r@) == spec_step_while(old(self)@),
    {
        let (cond, offset) = self.eval_while_cond();
        let loop_depth = bump(self.depth);
        let nloops = self.active_loops.len();
        let is_active = nloops > 0 && self.active_loops[nloops - 1].depth == loop_depth;
        if cond {
            if !is_active {
                self.active_loops.push(
                    LoopRec {
                        depth: loop_depth,
                        start_idx: self.ip,
                        iter_var: None,
                        iter_list: None,
                        iter_pos: 0,
                    },
                );
                proof {
                    assert(self@.loops =~= old(self)@.loops.push(
                        LoopV {
                            depth: loop_depth as int,
                            start_idx: old(self)@.ip,
                            iter_var: None,
                            iter_list: None,
                            iter_pos: 0,
                        },
                    ));
                }
            }
            self.ip = self.ip + offset + 1;
            proof {
                assert(self@ =~= spec_step_while(old(self)@).0);
            }
        } else {
            if is_active {
                self.active_loops.pop();
                proof {
                    assert(self@.loops =~= old(self)@.loops.drop_last());
                }
            }
            let target = self.skip_target(self.ip, self.ip + 1);
            self.ip = target;
            proof {
                assert(self@ =~= spec_step_while(old(self)@).0);
            }
        }
        StepResult::Continue
    }

    /// An if token: record the else decision and move per the condition.
    fn step_if(&mut self) -> (r: StepResult)
        requires
            old(self).wf(),
            old(self)@.ip < old(self)@.tokens.len(),
        ensures
            final(self).wf(),
            (final(self)@, r@) == spec_step_if(old(self)@),
    {
        let (cond, offset) = self.eval_if_cond();
        let d = self.depth;
        self.set_skip_else(d, cond);
        if cond {
            self.ip = self.ip + offset + 1;
        } else {
            let target = self.skip_target(self.ip, self.ip + 1);
            self.ip = target;
        }
        proof {
            assert(self@ =~= spec_step_if(old(self)@).0);
        }
        StepResult::Continue
    }

    /// A print statement: render one console line.
    fn step_print(&mut self) -> (r: StepResult)
        requires
            old(self).wf(),
            old(self)@.ip < old(self)@.tokens.len(),
        ensures
            final(self).wf(),
            (final(self)@, r@) == spec_step_print(old(self)@),
    {
        let i = self.ip;
        let n = self.tokens.len();
        let mut consumed = false;
        if i + 1 < n && matches!(&self.tokens[i + 1], Token::LParen) && i + 3 < n {
            let mut line: Option<String> = None;
            if matches!(&self.tokens[i + 3], Token::RParen) {
                consumed = true;
                match &self.tokens[i + 2] {
                    Token::Identifier(name) => {
                        line = Some(
                            match self.mem.get(name.as_str()) {
                                Some(v) => v.render(),
                                None => String::new(),
                            },
                        );
                    },
                    Token::StringLiteral(text) => {
                        line = Some(text.clone());
                    },
                    Token::LitOff => {
                        line = Some("off".to_owned());
                    },
                    Token::LitOn => {
                        line = Some("on".to_owned());
                    },
                    Token::LitLoading => {
                        line = Some("loading".to_owned());
                    },
                    Token::LitError => {
                        line = Some("error".to_owned());
                    },
                    Token::LitUnknown => {
                        line = Some("unknown".to_owned());
                    },
                    _ => {},
                }
            }
            if consumed {
                if let Some(text) = line {
                    self.output.push(text);
                    proof {
                        assert(self@.output =~= old(self)@.output.push(
                            self.output@.last()@,
                        ));
                    }
                }
                self.ip = i + 4;
            } else {
                self.ip = i + 1;
            }
        } else {
            self.ip = i + 1;
        }
        proof {
            assert(self@ =~= spec_step_print(old(self)@).0);
        }
        StepResult::Continue
    }

    /// A block close, in strict priority order: loop continuation, call
    /// return, ordinary close.
    fn step_rbrace(&mut self) -> (r: StepResult)
        requires
            old(self).wf(),
            old(self)@.ip < old(self)@.tokens.len(),
        ensures
            final(self).wf(),
            (final(self)@, r@) == spec_step_rbrace(old(self)@),
    {
        let ghost s0 = self@;
        if let Some(mut rec) = self.active_loops.pop() {
            if rec.depth == self.depth {
                if rec.iter_var.is_some() {
                    proof {
                        let idx = old(self).active_loops@.len() - 1;
                        assert(rec == old(self).active_loops@[idx]);
                        assert(spec_loop_wf(old(self).active_loops@[idx]@));
                        assert(spec_loop_wf(rec@));
                        assert(s0.loops.last() == rec@);
                        match &rec.iter_list {
                            Some(l) => {
                                crate::types::lemma_views_of_index(l@);
                                assert(l@.len() == vstd::std_specs::vec::spec_vec_len(l));
                                assert(rec.iter_pos < l@.len());
                            },
                            None => {},
                        }
                    }
                    rec.iter_pos = rec.iter_pos + 1;
                    let mut var = String::new();
                    let mut val = VasoType::Int(0);
                    let mut continue_loop = false;
                    if let (Some(v), Some(l)) = (&rec.iter_var, &rec.iter_list) {
                        if rec.iter_pos < l.len() {
                            var = v.clone();
                            val = l[rec.iter_pos].clone();
                            continue_loop = true;
                            proof {
                                crate::types::lemma_views_of_index(l@);
                            }
                        }
                    }
                    if continue_loop {
                        self.mem.set(var, val);
                        self.ip = rec.start_idx;
                        self.depth = self.depth - 1;
                        self.active_loops.push(rec);
                        proof {
                            assert(self@.loops =~= s0.loops.update(
                                s0.loops.len() - 1,
                                self.active_loops@.last()@,
                            ));
                            assert(self@ =~= spec_step_rbrace(s0).0);
                        }
                        return StepResult::Continue;
                    }
                    proof {
                        assert(self@.loops =~= s0.loops.drop_last());
                    }
                    // fall through to call return and ordinary close
                } else {
                    self.ip = rec.start_idx;
                    self.depth = self.depth - 1;
                    self.active_loops.push(rec);
                    proof {
                        assert(self@.loops =~= s0.loops);
                        assert(self@ =~= spec_step_rbrace(s0).0);
                    }
                    return StepResult::Continue;
                }
            } else {
                self.active_loops.push(rec);
                proof {
                    assert(self@.loops =~= s0.loops);
                    assert(self@ =~= s0);
                }
            }
        }
        let ghost s1 = self@;
        proof {
            assert(spec_step_rbrace(s0) == spec_step_rbrace_after_loops(s1));
        }
        let ncalls = self.call_stack.len();
        if ncalls > 0 {
            let (ret_index, base_depth) = self.call_stack[ncalls - 1];
            if self.depth >= 1 && base_depth == self.depth - 1 {
                self.call_stack.pop();
                proof {
                    self.mem.lemma_wf_nonempty();
                }
                self.mem.pop_scope();
                self.ip = ret_index;
                self.depth = self.depth - 1;
                proof {
                    assert(self@.calls =~= s1.calls.drop_last());
                    if s1.mem.len() > 1 {
                        assert(self@.mem =~= s1.mem.drop_last());
                    } else {
                        assert(self@.mem =~= s1.mem);
                    }
                    assert(self@ =~= spec_step_rbrace_after_loops(s1).0);
                }
                return StepResult::Continue;
            }
        }
        if self.depth > 0 {
            self.depth = self.depth - 1;
        }
        self.ip = self.ip + 1;
        proof {
            assert(self@ =~= spec_step_rbrace_after_loops(s1).0);
        }
        StepResult::Continue
    }

    /// A for-each header: resolve the list and enter, re-enter or skip the
    /// body.
    fn step_for(&mut self) -> (r: StepResult)
        requires
            old(self).wf(),
            old(self)@.ip < old(self)@.tokens.len(),
        ensures
            final(self).wf(),
            (final(self)@, r@) == spec_step_for(old(self)@),
    {
        proof {
            lemma_brace_state_bounds(self.tokens@, self.tokens@.len() as int);
        }
        let i = self.ip;
        let n = self.tokens.len();
        let mut shape: Option<(String, String)> = None;
        if i + 3 < n && matches!(&self.tokens[i + 2], Token::In) {
            if let (Token::Identifier(var), Token::Identifier(list_name)) = (
                &self.tokens[i + 1],
                &self.tokens[i + 3],
            ) {
                shape = Some((var.clone(), list_name.clone()));
            }
        }
        match shape {
            Some((var, list_name)) => {
                let mut list_val: Option<Vec<VasoType>> = None;
                if let Some(VasoType::List(l)) = self.mem.get(list_name.as_str()) {
                    list_val = Some(crate::types::clone_values(l));
                }
                match list_val {
                    Some(list) => {
                        let loop_depth = bump(self.depth);
                        let nloops = self.active_loops.len();
                        let is_active = nloops > 0 && self.active_loops[nloops - 1].depth
                            == loop_depth && self.active_loops[nloops - 1].start_idx == i + 4;
                        if is_active {
                            self.ip = i + 4;
                            proof {
                                assert(self@ =~= spec_step_for(old(self)@).0);
                            }
                        } else if list.len() > 0 {
                            proof {
                                crate::types::lemma_views_of_index(list@);
                            }
                            let first = list[0].clone();
                            self.mem.set(var.clone(), first);
                            self.active_loops.push(
                                LoopRec {
                                    depth: loop_depth,
                                    start_idx: i + 4,
                                    iter_var: Some(var),
                                    iter_list: Some(list),
                                    iter_pos: 0,
                                },
                            );
                            self.ip = i + 4;
                            proof {
                                assert(self@.loops =~= old(self)@.loops.push(
                                    self.active_loops@.last()@,
                                ));
                                assert(self@ =~= spec_step_for(old(self)@).0);
                            }
                        } else {
                            let mut target = i + 1;
                            if i + 4 < n && matches!(&self.tokens[i + 4], Token::LBrace) {
                                if let Some(end_idx) = self.jump_map[i + 4] {
                                    target = end_idx + 1;
                                }
                            }
                            self.ip = target;
                            proof {
                                assert(self@ =~= spec_step_for(old(self)@).0);
                            }
                        }
                    },
                    None => {
                        self.diagnostics.push("FOR loop expects a List variable".to_owned());
                        self.ip = i + 1;
                        proof {
                            assert(self@.diagnostics =~= old(self)@.diagnostics.push(
                                "FOR loop expects a List variable"@,
                            ));
                            assert(self@ =~= spec_step_for(old(self)@).0);
                        }
                    },
                }
            },
            None => {
                self.ip = i + 1;
                proof {
                    assert(self@ =~= spec_step_for(old(self)@).0);
                }
            },
        }
        StepResult::Continue
    }

    /// The right-hand side of a statement-level assignment, resolved.
    fn rhs_value(&self, tok_idx: usize) -> (r: Option<VasoType>)
        requires
            self.wf(),
            tok_idx < self.tokens@.len(),
        ensures
            match r {
                Some(v) => spec_rhs_value(self@.tokens[tok_idx as int], self@.mem) == Some(v@),
                None => spec_rhs_value(self@.tokens[tok_idx as int], self@.mem) is None,
            },
    {
        match &self.tokens[tok_idx] {
            Token::LitOff => Some(VasoType::VBit(0, String::new())),
            Token::LitOn => Some(VasoType::VBit(1, String::new())),
            Token::LitLoading => Some(VasoType::VBit(2, String::new())),
            Token::LitError => Some(VasoType::VBit(3, "Generic Error".to_owned())),
            Token::LitUnknown => Some(VasoType::VBit(4, String::new())),
            Token::NumberLiteral(n) => Some(VasoType::Int(*n)),
            Token::StringLiteral(text) => Some(VasoType::Str(text.clone())),
            Token::Identifier(n) => match self.mem.get(n.as_str()) {
                Some(v) => Some(v.clone()),
                None => None,
            },
            _ => None,
        }
    }

    /// Reads a bracketed list literal from `start` up to its closing
    /// bracket.
    fn scan_list_literal(&self, start: usize) -> (r: (Vec<VasoType>, usize))
        requires
            self.wf(),
        ensures
            views_of(r.0@) == spec_list_literal(self@.tokens, start as int).0,
            r.1 as int == spec_list_literal(self@.tokens, start as int).1,
    {
        let ghost full = spec_list_literal(self@.tokens, start as int);
        let mut items: Vec<VasoType> = Vec::new();
        let mut k = start;
        proof {
            crate::types::lemma_views_of_index(items@);
            assert(views_of(items@) =~= Seq::<VasoV>::empty());
        }
        while k < self.tokens.len()
            invariant
                self.wf(),
                start <= k,
                k <= self.tokens@.len() || k == start,
                full == spec_list_literal(self@.tokens, start as int),
                ({
                    let rest = spec_list_literal(self@.tokens, k as int);
                    full.0 == views_of(items@) + rest.0 && full.1 == rest.1
                }),
            decreases self.tokens@.len() - k,
        {
            let ghost pre = items@;
            let ghost rest_here = spec_list_literal(self@.tokens, k as int);
            match &self.tokens[k] {
                Token::RBracket => {
                    proof {
                        assert(rest_here.0 =~= Seq::<VasoV>::empty());
                        assert(views_of(items@) + rest_here.0 =~= views_of(items@));
                    }
                    return (items, k);
                },
                Token::NumberLiteral(n) => {
                    items.push(VasoType::Int(*n));
                },
                Token::StringLiteral(text) => {
                    items.push(VasoType::Str(text.clone()));
                },
                _ => {},
            }
            proof {
                if items@.len() > pre.len() {
                    assert(items@.drop_last() =~= pre);
                    assert(views_of(items@) == views_of(pre).push(items@.last()@));
                    let rest_next = spec_list_literal(self@.tokens, k + 1);
                    assert(rest_here.0 == seq![items@.last()@] + rest_next.0);
                    assert(views_of(pre) + rest_here.0 =~= views_of(items@) + rest_next.0);
                }
            }
            k += 1;
        }
        proof {
            let rest = spec_list_literal(self@.tokens, k as int);
            assert(rest.0 =~= Seq::<VasoV>::empty());
            assert(views_of(items@) + rest.0 =~= views_of(items@));
        }
        (items, k)
    }

    /// An identifier at statement level: a function call or an assignment.
    fn step_identifier(&mut self) -> (r: StepResult)
        requires
            old(self).wf(),
            old(self)@.ip < old(self)@.tokens.len(),
            (old(self)@.tokens[old(self)@.ip] is Identifier),
        ensures
            final(self).wf(),
            (final(self)@, r@) == spec_step(old(self)@, 0),
    {
        let i = self.ip;
        let n = self.tokens.len();
        let name = match &self.tokens[i] {
            Token::Identifier(nm) => nm.clone(),
            _ => vstd::pervasive::unreached(),
        };
        let mut call_info: Option<(usize, Vec<String>)> = None;
        if i + 1 < n && matches!(&self.tokens[i + 1], Token::LParen) {
            if let Some(VasoType::Function(body_idx, params)) = self.mem.get(name.as_str()) {
                call_info = Some((*body_idx, params.clone()));
            }
        }
        if let Some((body_idx, params)) = call_info {
            let (call_args, next_idx) = crate::parser::extract_args(&self.tokens, i + 1, &self.mem);
            self.call_stack.push((next_idx, self.depth));
            self.mem.push_scope();
            proof {
                crate::types::lemma_views_of_index(call_args@);
                assert(self@.calls =~= old(self)@.calls.push(
                    (next_idx as int, old(self)@.depth),
                ));
            }
            let ghost base = self.mem@;
            let ghost pre_loop = self@;
            let ghost pdv = params.deep_view();
            let ghost argv = views_of(call_args@);
            let ghost target = spec_bind_params(pdv, argv, base, 0);
            let mut idx: usize = 0;
            while idx < params.len()
                invariant
                    self.wf(),
                    self@ == (EngineV { mem: self.mem@, ..pre_loop }),
                    idx <= params@.len(),
                    pdv == params.deep_view(),
                    argv == views_of(call_args@),
                    argv.len() == call_args@.len(),
                    forall|q: int| 0 <= q < call_args@.len() ==> #[trigger] argv[q]
                        == call_args@[q]@,
                    target == spec_bind_params(pdv, argv, self.mem@, idx as int),
                decreases params@.len() - idx,
            {
                if idx < call_args.len() {
                    self.mem.set(params[idx].clone(), call_args[idx].clone());
                }
                idx += 1;
            }
            self.ip = body_idx;
            proof {
                assert(self@.mem == target);
                assert(self@ =~= spec_step_identifier(old(self)@, name@).0);
            }
            return StepResult::Continue;
        }
        if i + 2 < n && matches!(&self.tokens[i + 1], Token::AssignC | Token::AssignPascal) {
            if matches!(&self.tokens[i + 2], Token::LBracket) {
                let ghost nm = name@;
                let (items, kk) = self.scan_list_literal(i + 3);
                self.mem.set(name, VasoType::List(items));
                self.ip = kk;
                proof {
                    assert(self@ =~= spec_step_identifier(old(self)@, nm).0);
                }
            } else {
                match self.rhs_value(i + 2) {
                    Some(v) => {
                        self.mem.set(name, v);
                        self.ip = i + 3;
                    },
                    None => {
                        if matches!(&self.tokens[i + 2], Token::Identifier(_)) {
                            self.ip = i + 1;
                        } else {
                            self.diagnostics.push("Invalid assignment value".to_owned());
                            self.ip = i + 1;
                            proof {
                                assert(self@.diagnostics =~= old(self)@.diagnostics.push(
                                    "Invalid assignment value"@,
                                ));
                            }
                        }
                    },
                }
            }
        } else if i + 2 < n && matches!(
            &self.tokens[i + 1],
            Token::PlusAssign | Token::MinusAssign,
        ) {
            let mut done = false;
            if let Some(r_val) = self.rhs_value(i + 2) {
                let mut l_val: Option<VasoType> = None;
                if let Some(lv) = self.mem.get(name.as_str()) {
                    l_val = Some(lv.clone());
                }
                if let Some(lv) = l_val {
                    let res = crate::logic::apply_op(lv, &r_val, &self.tokens[i + 1]);
                    self.mem.set(name, res);
                    self.ip = i + 3;
                    done = true;
                }
            }
            if !done {
                self.ip = i + 1;
            }
        } else {
            self.ip = i + 1;
        }
        proof {
            assert(self@ =~= spec_step(old(self)@, 0).0);
        }
        StepResult::Continue
    }

    /// A `val` or `var` declaration, possibly a standard-library call.
    fn step_decl(&mut self) -> (r: StepResult)
        requires
            old(self).wf(),
            old(self)@.ip < old(self)@.tokens.len(),
            (old(self)@.tokens[old(self)@.ip] is Value || old(self)@.tokens[old(self)@.ip]
                is Variable),
        ensures
            final(self).wf(),
            exists|k: i32| 0 <= k < 100 && (final(self)@, r@) == #[trigger] spec_step(
                old(self)@,
                k,
            ),
    {
        let i = self.ip;
        let n = self.tokens.len();
        let mut shape: Option<String> = None;
        if i + 3 < n && matches!(&self.tokens[i + 2], Token::AssignC | Token::AssignPascal) {
            if let Token::Identifier(nm) = &self.tokens[i + 1] {
                shape = Some(nm.clone());
            }
        }
        if let Some(name) = shape {
            let mut lib: Option<(String, String)> = None;
            if i + 5 < n && matches!(&self.tokens[i + 4], Token::Dot) {
                if let (Token::Identifier(module), Token::Identifier(func)) = (
                    &self.tokens[i + 3],
                    &self.tokens[i + 5],
                ) {
                    lib = Some((module.clone(), func.clone()));
                }
            }
            if let Some((module, func)) = lib {
                let (args, next_idx) = crate::parser::extract_args(&self.tokens, i + 6, &self.mem);
                let ghost argv = views_of(args@);
                let result = crate::stdlib::call_std_function(
                    module.as_str(),
                    func.as_str(),
                    args,
                );
                let ghost kk = choose|k: i32|
                    0 <= k < 100 && result@ == crate::stdlib::spec_dispatch(
                        module@,
                        func@,
                        argv,
                        k,
                    );
                match result {
                    crate::stdlib::StdResult::Value(v) => {
                        self.mem.set(name, v);
                        self.ip = next_idx;
                        proof {
                            assert(self@ =~= spec_step(old(self)@, kk).0);
                        }
                        StepResult::Continue
                    },
                    crate::stdlib::StdResult::Host(c) => {
                        self.pending = Some(name);
                        self.ip = next_idx;
                        let r = StepResult::Host(c);
                        proof {
                            assert(self@ =~= spec_step(old(self)@, kk).0);
                            assert(r@ == spec_step(old(self)@, kk).1);
                        }
                        r
                    },
                }
            } else {
                match self.rhs_value(i + 3) {
                    Some(v) => {
                        self.mem.set(name, v);
                        self.ip = i + 4;
                    },
                    None => {
                        self.ip = i + 1;
                    },
                }
                proof {
                    assert(self@ =~= spec_step(old(self)@, 0).0);
                }
                StepResult::Continue
            }
        } else {
            self.ip = i + 1;
            proof {
                assert(self@ =~= spec_step(old(self)@, 0).0);
            }
            StepResult::Continue
        }
    }

    /// The right-hand side of an assignment inside a match case.
    fn case_rhs(&self, tok_idx: usize, with_string: bool) -> (r: Option<VasoType>)
        requires
            self.wf(),
            tok_idx < self.tokens@.len(),
        ensures
            match r {
                Some(v) => spec_case_rhs(self@.tokens[tok_idx as int], self@.mem, with_string)
                    == Some(v@),
                None => spec_case_rhs(self@.tokens[tok_idx as int], self@.mem, with_string)
                    is None,
            },
    {
        match &self.tokens[tok_idx] {
            Token::NumberLiteral(n) => Some(VasoType::Int(*n)),
            Token::StringLiteral(text) => if with_string {
                Some(VasoType::Str(text.clone()))
            } else {
                None
            },
            Token::Identifier(src) => match self.mem.get(src.as_str()) {
                Some(v) => Some(v.clone()),
                None => None,
            },
            _ => None,
        }
    }

    /// Runs one match-case body from `k_start` to its closing brace.
    fn run_case_body(&mut self, k_start: usize)
        requires
            old(self).wf(),
        ensures
            final(self).wf(),
            final(self)@ == (EngineV {
                mem: spec_case_body(
                    old(self)@.tokens,
                    k_start as int,
                    old(self)@.mem,
                    old(self)@.output,
                ).0,
                output: spec_case_body(
                    old(self)@.tokens,
                    k_start as int,
                    old(self)@.mem,
                    old(self)@.output,
                ).1,
                ..old(self)@
            }),
    {
        let ghost s0 = self@;
        let ghost target = spec_case_body(s0.tokens, k_start as int, s0.mem, s0.output);
        let n = self.tokens.len();
        let mut k = k_start;
        let mut at_end = false;
        while !at_end && k < n
            invariant
                self.wf(),
                n == self.tokens@.len(),
                k_start <= k,
                self@ == (EngineV { mem: self.mem@, output: self@.output, ..s0 }),
                at_end ==> (k < n && self@.tokens[k as int] is RBrace),
                target == spec_case_body(self@.tokens, k as int, self@.mem, self@.output),
            decreases n + 4 - k + (if at_end { 0int } else { 1int }),
        {
            let ghost pre = self@;
            match &self.tokens[k] {
                Token::RBrace => {
                    at_end = true;
                },
                Token::Print => {
                    let mut line: Option<String> = None;
                    if k + 3 < n && matches!(&self.tokens[k + 1], Token::LParen) && matches!(
                        &self.tokens[k + 3],
                        Token::RParen,
                    ) {
                        match &self.tokens[k + 2] {
                            Token::StringLiteral(text) => {
                                line = Some(text.clone());
                            },
                            Token::Identifier(nm) => {
                                if let Some(v) = self.mem.get(nm.as_str()) {
                                    line = Some(v.render());
                                }
                            },
                            _ => {},
                        }
                    }
                    if let Some(text) = line {
                        self.output.push(text);
                        proof {
                            assert(self@.output =~= pre.output.push(self.output@.last()@));
                        }
                    }
                    k = k + 4;
                },
                Token::Identifier(target_name) => {
                    let tn = target_name.clone();
                    if k + 2 < n && matches!(
                        &self.tokens[k + 1],
                        Token::AssignC | Token::AssignPascal,
                    ) {
                        if let Some(v) = self.case_rhs(k + 2, true) {
                            self.mem.set(tn, v);
                        }
                        k = k + 3;
                    } else if k + 2 < n && matches!(
                        &self.tokens[k + 1],
                        Token::PlusAssign | Token::MinusAssign,
                    ) {
                        if let Some(r_val) = self.case_rhs(k + 2, false) {
                            let mut l_val: Option<VasoType> = None;
                            if let Some(lv) = self.mem.get(tn.as_str()) {
                                l_val = Some(lv.clone());
                            }
                            if let Some(lv) = l_val {
                                let res = crate::logic::apply_op(lv, &r_val, &self.tokens[k + 1]);
                                self.mem.set(tn, res);
                            }
                        }
                        k = k + 3;
                    } else {
                        k = k + 1;
                    }
                },
                _ => {
                    k = k + 1;
                },
            }
            proof {
                assert(self@ == (EngineV { mem: self.mem@, output: self@.output, ..s0 }));
            }
        }
        proof {
            assert(target == (self@.mem, self@.output));
            assert(self@ =~= (EngineV { mem: target.0, output: target.1, ..s0 }));
        }
    }

    /// A match block: one pass over the cases, then a teleport past the
    /// whole block.
    fn step_match(&mut self) -> (r: StepResult)
        requires
            old(self).wf(),
            old(self)@.ip < old(self)@.tokens.len(),
            (old(self)@.tokens[old(self)@.ip] is Match),
        ensures
            final(self).wf(),
            (final(self)@, r@) == spec_step(old(self)@, 0),
    {
        proof {
            lemma_brace_state_bounds(self.tokens@, self.tokens@.len() as int);
        }
        let ghost s0 = self@;
        let i = self.ip;
        let n = self.tokens.len();
        let mut var: Option<String> = None;
        if i + 2 < n && matches!(&self.tokens[i + 2], Token::LBrace) {
            if let Token::Identifier(v) = &self.tokens[i + 1] {
                var = Some(v.clone());
            }
        }
        match var {
            Some(var_name) => {
                let current: VasoType = match self.mem.get(var_name.as_str()) {
                    Some(v) => v.clone(),
                    None => VasoType::VBit(4, String::new()),
                };
                let ghost target = spec_match_scan(
                    s0.tokens,
                    i + 3,
                    current@,
                    false,
                    s0.mem,
                    s0.output,
                );
                let mut j = i + 3;
                let mut match_executed = false;
                let mut at_end = false;
                while !at_end && j < n
                    invariant
                        self.wf(),
                        n == self.tokens@.len(),
                        self@ == (EngineV { mem: self.mem@, output: self@.output, ..s0 }),
                        at_end ==> (j < n && self@.tokens[j as int] is RBrace),
                        target == spec_match_scan(
                            self@.tokens,
                            j as int,
                            current@,
                            match_executed,
                            self@.mem,
                            self@.output,
                        ),
                    decreases n - j + (if at_end { 0int } else { 1int }),
                {
                    proof {
                        lemma_brace_state_bounds(self.tokens@, self.tokens@.len() as int);
                    }
                    let mut arrow_case = false;
                    if matches!(&self.tokens[j], Token::RBrace) {
                        at_end = true;
                    } else {
                        if j + 2 < n && matches!(&self.tokens[j + 1], Token::Arrow) && matches!(
                            &self.tokens[j + 2],
                            Token::LBrace,
                        ) {
                            arrow_case = true;
                        }
                        if arrow_case {
                            let matched = case_matches(&self.tokens[j], &current);
                            if matched && !match_executed {
                                match_executed = true;
                                self.run_case_body(j + 3);
                            } else if matched {
                                match_executed = true;
                            }
                            let mut jumped = false;
                            if let Some(end_idx) = self.jump_map[j + 2] {
                                let nj = end_idx + 1;
                                if j < nj && nj <= n {
                                    j = nj;
                                    jumped = true;
                                }
                            }
                            if !jumped {
                                j = j + 1;
                            }
                        } else {
                            j = j + 1;
                        }
                    }
                }
                proof {
                    assert(target == (self@.mem, self@.output));
                }
                let mut tip = i + 1;
                if let Some(end_idx) = self.jump_map[i + 2] {
                    tip = end_idx + 1;
                }
                self.ip = tip;
                proof {
                    assert(self@ =~= spec_step_match(s0).0);
                }
            },
            None => {
                self.ip = i + 1;
                proof {
                    assert(self@ =~= spec_step_match(s0).0);
                }
            },
        }
        StepResult::Continue
    }

    /// Performs one step of the engine: dispatches on the token under the
    /// instruction pointer, per `spec_step` — the draw accounts for the
    /// random number a standard-library call may consume.
    pub fn step(&mut self) -> (r: StepResult)
        requires
            old(self).wf(),
        ensures
            final(self).wf(),
            exists|k: i32|
                0 <= k < 100 && (final(self)@, r@) == #[trigger] spec_step(old(self)@, k),
            (r@ is Done) ==> (final(self)@ == old(self)@ && old(self)@.ip
                >= old(self)@.tokens.len()),
            (r@ is Host) ==> (final(self)@.pending is Some),
    {
        if self.ip >= self.tokens.len() {
            proof {
                assert((self@, StepResult::Done@) == spec_step(old(self)@, 0));
            }
            return StepResult::Done;
        }
        let i = self.ip;
        if matches!(&self.tokens[i], Token::Function) {
            let r = self.step_function();
            proof {
                assert((self@, r@) == spec_step(old(self)@, 0));
            }
            r
        } else if matches!(&self.tokens[i], Token::LBrace) {
            self.depth = bump(self.depth);
            self.ip = i + 1;
            proof {
                assert((self@, StepResult::Continue@) == spec_step(old(self)@, 0));
            }
            StepResult::Continue
        } else if matches!(&self.tokens[i], Token::RBrace) {
            let r = self.step_rbrace();
            proof {
                assert((self@, r@) == spec_step(old(self)@, 0));
            }
            r
        } else if matches!(&self.tokens[i], Token::For) {
            let r = self.step_for();
            proof {
                assert((self@, r@) == spec_step(old(self)@, 0));
            }
            r
        } else if matches!(&self.tokens[i], Token::While) {
            let r = self.step_while();
            proof {
                assert((self@, r@) == spec_step(old(self)@, 0));
            }
            r
        } else if matches!(&self.tokens[i], Token::Print) {
            let r = self.step_print();
            proof {
                assert((self@, r@) == spec_step(old(self)@, 0));
            }
            r
        } else if matches!(&self.tokens[i], Token::If) {
            let r = self.step_if();
            proof {
                assert((self@, r@) == spec_step(old(self)@, 0));
            }
            r
        } else if matches!(&self.tokens[i], Token::Else) {
            let r = self.step_else();
            proof {
                assert((self@, r@) == spec_step(old(self)@, 0));
            }
            r
        } else if matches!(&self.tokens[i], Token::Match) {
            let r = self.step_match();
            r
        } else if matches!(&self.tokens[i], Token::Identifier(_)) {
            let r = self.step_identifier();
            r
        } else if matches!(&self.tokens[i], Token::Value | Token::Variable) {
            let r = self.step_decl();
            r
        } else {
            self.ip = i + 1;
            proof {
                assert((self@, StepResult::Continue@) == spec_step(old(self)@, 0));
            }
            StepResult::Continue
        }
    }

    /// Runs up to `fuel` steps: stops early on normal termination or on a
    /// host action the embedder must perform; a `Continue` result means the
    /// fuel ran out first.
    pub fn run(&mut self, fuel: usize) -> (r: StepResult)
        requires
            old(self).wf(),
        ensures
            final(self).wf(),
            exists|n: nat, s_mid: EngineV|
                n <= fuel && #[trigger] spec_reaches(old(self)@, s_mid, n) && (((r@ is Continue)
                    && final(self)@ == s_mid) || (!(r@ is Continue) && spec_step_ok(
                    s_mid,
                    final(self)@,
                    r@,
                ))),
            (r@ is Continue) ==> spec_reaches(old(self)@, final(self)@, fuel as nat),
            (r@ is Done) ==> final(self)@.ip >= final(self)@.tokens.len(),
            (r@ is Host) ==> (final(self)@.pending is Some),
    {
        let mut left = fuel;
        let ghost mut steps: nat = 0nat;
        while left > 0
            invariant
                self.wf(),
                spec_reaches(old(self)@, self@, steps),
                steps + left == fuel,
            decreases left,
        {
            let ghost pre = self@;
            let r = self.step();
            let ghost rv = r@;
            proof {
                let k = choose|k: i32|
                    0 <= k < 100 && (self@, rv) == #[trigger] spec_step(pre, k);
                assert(spec_step(pre, k) == (self@, rv));
            }
            match r {
                StepResult::Continue => {
                    proof {
                        assert(spec_step_ok(pre, self@, StepV::Continue));
                        lemma_reaches_extend(old(self)@, pre, self@, steps);
                        steps = steps + 1;
                    }
                    left = left - 1;
                },
                other => {
                    proof {
                        assert(spec_step_ok(pre, self@, rv));
                        assert(spec_reaches(old(self)@, pre, steps));
                    }
                    return other;
                },
            }
        }
        proof {
            assert(spec_reaches(old(self)@, self@, steps));
        }
        StepResult::Continue
    }

    /// The console lines produced so far, in order.
    pub fn output(&self) -> (r: &Vec<String>)
        ensures
            r@.len() == self@.output.len(),
            forall|i: int| 0 <= i < r@.len() ==> #[trigger] r@[i]@ == self@.output[i],
    {
        &self.output
    }

    /// The recoverable diagnostics reported so far, in order.
    pub fn diagnostics(&self) -> (r: &Vec<String>)
        ensures
            r@.len() == self@.diagnostics.len(),
            forall|i: int| 0 <= i < r@.len() ==> #[trigger] r@[i]@ == self@.diagnostics[i],
    {
        &self.diagnostics
    }

    /// Reads a variable of the running program, innermost scope first.
    pub fn get_var(&self, name: &str) -> (r: Option<&VasoType>)
        requires
            self.wf(),
        ensures
            match r {
                Some(v) => spec_lookup(self@.mem, name@) == Some(v@),
                None => spec_lookup(self@.mem, name@) is None,
            },
    {
        self.mem.get(name)
    }

    /// Hands the engine the value of the host action it last asked for: the
    /// value is bound to the variable that was waiting for it.
    pub fn resume(&mut self, v: VasoType)
        requires
            old(self).wf(),
            (old(self)@.pending is Some),
        ensures
            final(self).wf(),
            final(self)@ == (EngineV {
                mem: spec_set(old(self)@.mem, old(self)@.pending.unwrap(), v@),
                pending: None,
                ..old(self)@
            }),
    {
        let mut taken: Option<String> = None;
        core::mem::swap(&mut taken, &mut self.pending);
        if let Some(name) = taken {
            self.mem.set(name, v);
        }
    }
}

} // verus!
