//! The standard-library dispatcher: resolves qualified `Module.function`
//! calls.  It is total — unknown modules or functions and argument-shape
//! mismatches come back as error-status values, never as exceptions.
//!
//! The decision logic lives here, verified: which calls are known, which
//! argument shapes they demand, and what each host reply means.  Only the
//! host actions themselves — reading the clock, sleeping, running a
//! process, touching the file system — are handed out as `HostCall` values
//! for the embedder to perform; JSON work and the random draw are done in
//! place through the outside crates.

use vstd::prelude::*;

use crate::logic::{check_errors, spec_bool_status, spec_first_error};
use crate::memory::str_equal;
use crate::types::{views_of, VasoType, VasoV};

verus! {

broadcast use vstd::std_specs::vec::group_vec_axioms, vstd::seq::group_seq_axioms;

/// A host action the dispatcher cannot perform itself: the embedder runs it
/// and feeds the outcome back.
#[derive(Debug, Clone)]
pub enum HostCall {
    TimeNow,
    TimeSleep(i32),
    SysOs,
    SysArg(i32),
    SysExec(String, String),
    FileRead(String),
    FileWrite(String, String),
}

/// Spec-level picture of a host action.
pub enum HostCallV {
    TimeNow,
    TimeSleep(i32),
    SysOs,
    SysArg(i32),
    SysExec(Seq<char>, Seq<char>),
    FileRead(Seq<char>),
    FileWrite(Seq<char>, Seq<char>),
}

impl View for HostCall {
    type V = HostCallV;

    open spec fn view(&self) -> HostCallV {
        match self {
            HostCall::TimeNow => HostCallV::TimeNow,
            HostCall::TimeSleep(ms) => HostCallV::TimeSleep(*ms),
            HostCall::SysOs => HostCallV::SysOs,
            HostCall::SysArg(idx) => HostCallV::SysArg(*idx),
            HostCall::SysExec(cmd, arg) => HostCallV::SysExec(cmd@, arg@),
            HostCall::FileRead(path) => HostCallV::FileRead(path@),
            HostCall::FileWrite(path, content) => HostCallV::FileWrite(path@, content@),
        }
    }
}

/// What the embedder reports back from a host action.
#[derive(Debug)]
pub enum HostOutcome {
    /// A number, for the clock.
    Int(i32),
    /// A text, for a read file, an argument or the platform name.
    Text(String),
    /// Plain success, for a sleep, a write or a successful process.
    Done,
    /// The requested item does not exist.
    Missing,
    /// The action ran and reported failure, with its message.
    Failed(String),
    /// The action could not run at all, with the host's error text.
    Fault(String),
}

/// Spec-level picture of a host outcome.
pub enum HostOutcomeV {
    Int(i32),
    Text(Seq<char>),
    Done,
    Missing,
    Failed(Seq<char>),
    Fault(Seq<char>),
}

impl View for HostOutcome {
    type V = HostOutcomeV;

    open spec fn view(&self) -> HostOutcomeV {
        match self {
            HostOutcome::Int(n) => HostOutcomeV::Int(*n),
            HostOutcome::Text(s) => HostOutcomeV::Text(s@),
            HostOutcome::Done => HostOutcomeV::Done,
            HostOutcome::Missing => HostOutcomeV::Missing,
            HostOutcome::Failed(s) => HostOutcomeV::Failed(s@),
            HostOutcome::Fault(s) => HostOutcomeV::Fault(s@),
        }
    }
}

/// What a dispatch yields: a finished value, or a host action still to run.
#[derive(Debug)]
pub enum StdResult {
    Value(VasoType),
    Host(HostCall),
}

/// Spec-level picture of a dispatch result.
pub enum StdResultV {
    Value(VasoV),
    Host(HostCallV),
}

impl View for StdResult {
    type V = StdResultV;

    open spec fn view(&self) -> StdResultV {
        match self {
            StdResult::Value(v) => StdResultV::Value(v@),
            StdResult::Host(c) => StdResultV::Host(c@),
        }
    }
}

/// An error-status value with the given message.
pub open spec fn spec_error_status(msg: Seq<char>) -> VasoV {
    VasoV::VBit(3, msg)
}

/// What `Json.parse` yields on a text: the canonical serialized form of the
/// parsed document, or the parser's error text.
pub uninterp spec fn spec_json_parse(text: Seq<char>) -> Result<Seq<char>, Seq<char>>;

/// Whether the document (in canonical text form) is an object with the
/// given top-level field.
pub uninterp spec fn spec_json_has(doc: Seq<char>, key: Seq<char>) -> bool;

/// The field's value as a signed 64-bit integer, when it has one.
pub uninterp spec fn spec_json_i64(doc: Seq<char>, key: Seq<char>) -> Option<i64>;

/// The field's value as a text, when it is a string.
pub uninterp spec fn spec_json_str(doc: Seq<char>, key: Seq<char>) -> Option<Seq<char>>;

/// The field's value as a boolean, when it is one.
pub uninterp spec fn spec_json_bool(doc: Seq<char>, key: Seq<char>) -> Option<bool>;

/// Relies on `serde_json::from_str` and `Value::to_string`: parsing is a
/// function of the text alone, and a parsed document serializes to its
/// canonical form; `Error::to_string` renders the parse error.
#[verifier::external_body]
fn json_parse_text(text: &str) -> (r: Result<String, String>)
    ensures
        match r {
            Ok(doc) => spec_json_parse(text@) == Ok::<Seq<char>, Seq<char>>(doc@),
            Err(e) => spec_json_parse(text@) == Err::<Seq<char>, Seq<char>>(e@),
        },
{
    match serde_json::from_str::<serde_json::Value>(text) {
        Ok(v) => Ok(v.to_string()),
        Err(e) => Err(e.to_string()),
    }
}

/// Relies on `serde_json::from_str` and `Value::get`: whether the document
/// holds the top-level field.
#[verifier::external_body]
fn json_has_field(doc: &str, key: &str) -> (r: bool)
    ensures
        r == spec_json_has(doc@, key@),
{
    match serde_json::from_str::<serde_json::Value>(doc) {
        Ok(v) => v.get(key).is_some(),
        Err(_) => false,
    }
}

/// Relies on `serde_json::Value::as_i64`: the field's integer value, when
/// it is an integer that fits 64 bits.
#[verifier::external_body]
fn json_field_i64(doc: &str, key: &str) -> (r: Option<i64>)
    ensures
        r == spec_json_i64(doc@, key@),
{
    let v: serde_json::Value = serde_json::from_str(doc).ok()?;
    v.get(key)?.as_i64()
}

/// Relies on `serde_json::Value::as_str`: the field's text, when it is a
/// string.
#[verifier::external_body]
fn json_field_str(doc: &str, key: &str) -> (r: Option<String>)
    ensures
        match r {
            Some(s) => spec_json_str(doc@, key@) == Some(s@),
            None => spec_json_str(doc@, key@) is None,
        },
{
    let v: serde_json::Value = serde_json::from_str(doc).ok()?;
    Some(v.get(key)?.as_str()?.to_string())
}

/// Relies on `serde_json::Value::as_bool`: the field's boolean, when it is
/// one.
#[verifier::external_body]
fn json_field_bool(doc: &str, key: &str) -> (r: Option<bool>)
    ensures
        r == spec_json_bool(doc@, key@),
{
    let v: serde_json::Value = serde_json::from_str(doc).ok()?;
    v.get(key)?.as_bool()
}

/// Relies on `rand::rng` and `random_range`: a draw from `0 .. 100` lies in
/// that range; nothing else is promised of it.
#[verifier::external_body]
fn random_below_100() -> (r: i32)
    ensures
        0 <= r < 100,
{
    rand::RngExt::random_range(&mut rand::rng(), 0..100)
}

/// A 64-bit integer truncated to 32 bits, as the narrowing cast does.
pub open spec fn spec_crop_i64(i: i64) -> i32 {
    i as i32
}

/// The `Json.get` decision: absent field, then integer, text and boolean in
/// turn, and an `unknown` status for anything structured.
pub open spec fn spec_json_get(doc: Seq<char>, key: Seq<char>) -> VasoV {
    if !spec_json_has(doc, key) {
        VasoV::VBit(4, "Field '"@ + key + "' not found"@)
    } else {
        match spec_json_i64(doc, key) {
            Some(i) => VasoV::Int(spec_crop_i64(i)),
            None => match spec_json_str(doc, key) {
                Some(s) => VasoV::Str(s),
                None => match spec_json_bool(doc, key) {
                    Some(b) => spec_bool_status(b),
                    None => VasoV::VBit(4, "Complex Type"@),
                },
            },
        }
    }
}

/// The dispatch decision, total over every module, function and argument
/// list.  An argument that is already an error-status value short-circuits
/// the call.  `draw` stands for the random draw: only the `Math.random`
/// case reads it, and `call_std_function` promises it lies in `0 .. 100`.
pub open spec fn spec_dispatch(
    module: Seq<char>,
    func: Seq<char>,
    args: Seq<VasoV>,
    draw: i32,
) -> StdResultV {
    match spec_first_error(args) {
        Some(e) => StdResultV::Value(e),
        None => spec_dispatch_clean(module, func, args, draw),
    }
}

/// The dispatch decision once the arguments are known to be error-free.
pub open spec fn spec_dispatch_clean(
    module: Seq<char>,
    func: Seq<char>,
    args: Seq<VasoV>,
    draw: i32,
) -> StdResultV {
    if module == "Time"@ {
        if func == "now"@ {
            StdResultV::Host(HostCallV::TimeNow)
        } else if func == "sleep"@ {
            if args.len() > 0 {
                match args[0] {
                    VasoV::Int(ms) => StdResultV::Host(HostCallV::TimeSleep(ms)),
                    _ => StdResultV::Value(spec_error_status("Arg Error: Sleep needs Int (ms)"@)),
                }
            } else {
                StdResultV::Value(spec_error_status("Arg Error: Sleep needs Int (ms)"@))
            }
        } else {
            StdResultV::Value(spec_error_status("Time."@ + func + " not found"@))
        }
    } else if module == "Sys"@ {
        if func == "os"@ {
            StdResultV::Host(HostCallV::SysOs)
        } else if func == "arg"@ {
            if args.len() > 0 {
                match args[0] {
                    VasoV::Int(idx) => StdResultV::Host(HostCallV::SysArg(idx)),
                    _ => StdResultV::Value(spec_error_status("Sys.arg needs Int"@)),
                }
            } else {
                StdResultV::Value(spec_error_status("Sys.arg needs Int"@))
            }
        } else if func == "exec"@ {
            if args.len() > 1 {
                match (args[0], args[1]) {
                    (VasoV::Str(cmd), VasoV::Str(a1)) => StdResultV::Host(
                        HostCallV::SysExec(cmd, a1),
                    ),
                    _ => StdResultV::Value(spec_error_status("Sys.exec needs (cmd, arg)"@)),
                }
            } else {
                StdResultV::Value(spec_error_status("Sys.exec needs (cmd, arg)"@))
            }
        } else {
            StdResultV::Value(spec_error_status("Sys func error"@))
        }
    } else if module == "Math"@ {
        if func == "random"@ {
            StdResultV::Value(VasoV::Int(draw))
        } else {
            StdResultV::Value(spec_error_status("Math."@ + func + " not found"@))
        }
    } else if module == "Json"@ {
        if func == "parse"@ {
            if args.len() > 0 {
                match args[0] {
                    VasoV::Str(text) => match spec_json_parse(text) {
                        Ok(doc) => StdResultV::Value(VasoV::Json(doc)),
                        Err(e) => StdResultV::Value(spec_error_status("JSON Error: "@ + e)),
                    },
                    _ => StdResultV::Value(spec_error_status("Json.parse needs (Str)"@)),
                }
            } else {
                StdResultV::Value(spec_error_status("Json.parse needs (Str)"@))
            }
        } else if func == "get"@ {
            if args.len() > 1 {
                match (args[0], args[1]) {
                    (VasoV::Json(doc), VasoV::Str(key)) => StdResultV::Value(
                        spec_json_get(doc, key),
                    ),
                    _ => StdResultV::Value(spec_error_status("Json.get needs (Json, Str)"@)),
                }
            } else {
                StdResultV::Value(spec_error_status("Json.get needs (Json, Str)"@))
            }
        } else {
            StdResultV::Value(spec_error_status("Json."@ + func + " not found"@))
        }
    } else if module == "File"@ {
        if func == "read"@ {
            if args.len() > 0 {
                match args[0] {
                    VasoV::Str(path) => StdResultV::Host(HostCallV::FileRead(path)),
                    _ => StdResultV::Value(spec_error_status("Arg Error"@)),
                }
            } else {
                StdResultV::Value(spec_error_status("Arg Error"@))
            }
        } else if func == "write"@ {
            if args.len() > 1 {
                match (args[0], args[1]) {
                    (VasoV::Str(path), VasoV::Str(content)) => StdResultV::Host(
                        HostCallV::FileWrite(path, content),
                    ),
                    _ => StdResultV::Value(spec_error_status("Arg Error"@)),
                }
            } else {
                StdResultV::Value(spec_error_status("Arg Error"@))
            }
        } else {
            StdResultV::Value(spec_error_status("File."@ + func + " not found"@))
        }
    } else {
        StdResultV::Value(spec_error_status("Module "@ + module + " not found"@))
    }
}

/// Concatenates three texts.
fn concat3(a: &str, b: &str, c: &str) -> (r: String)
    ensures
        r@ == a@ + b@ + c@,
{
    let mut r = a.to_owned();
    r.append(b);
    r.append(c);
    r
}

/// Concatenates two texts.
fn concat2(a: &str, b: &str) -> (r: String)
    ensures
        r@ == a@ + b@,
{
    let mut r = a.to_owned();
    r.append(b);
    r
}

/// An error-status value carrying the message.
fn error_status(msg: &str) -> (r: VasoType)
    ensures
        r@ == spec_error_status(msg@),
{
    VasoType::VBit(3, msg.to_owned())
}

/// Resolves a qualified `Module.function` call: either finishes it in place
/// or names the host action still to run.  Total, never panics; the result
/// is `spec_dispatch` of the inputs, for some random draw in `0 .. 100`.
pub fn call_std_function(module: &str, func: &str, args: Vec<VasoType>) -> (r: StdResult)
    ensures
        exists|k: i32|
            0 <= k < 100 && r@ == spec_dispatch(module@, func@, views_of(args@), k),
{
    proof {
        crate::types::lemma_views_of_index(args@);
    }
    let ghost argv = views_of(args@);
    if let Some(err) = check_errors(&args) {
        proof {
            assert(spec_dispatch(module@, func@, argv, 0) == StdResultV::Value(err@));
        }
        return StdResult::Value(err);
    }
    let r: StdResult = if str_equal(module, "Time") {
        if str_equal(func, "now") {
            StdResult::Host(HostCall::TimeNow)
        } else if str_equal(func, "sleep") {
            let mut picked: Option<i32> = None;
            if args.len() > 0 {
                if let VasoType::Int(ms) = &args[0] {
                    picked = Some(*ms);
                }
            }
            match picked {
                Some(ms) => StdResult::Host(HostCall::TimeSleep(ms)),
                None => StdResult::Value(error_status("Arg Error: Sleep needs Int (ms)")),
            }
        } else {
            StdResult::Value(VasoType::VBit(3, concat3("Time.", func, " not found")))
        }
    } else if str_equal(module, "Sys") {
        if str_equal(func, "os") {
            StdResult::Host(HostCall::SysOs)
        } else if str_equal(func, "arg") {
            let mut picked: Option<i32> = None;
            if args.len() > 0 {
                if let VasoType::Int(idx) = &args[0] {
                    picked = Some(*idx);
                }
            }
            match picked {
                Some(idx) => StdResult::Host(HostCall::SysArg(idx)),
                None => StdResult::Value(error_status("Sys.arg needs Int")),
            }
        } else if str_equal(func, "exec") {
            let mut picked: Option<(String, String)> = None;
            if args.len() > 1 {
                if let (VasoType::Str(cmd), VasoType::Str(a1)) = (&args[0], &args[1]) {
                    picked = Some((cmd.clone(), a1.clone()));
                }
            }
            match picked {
                Some((cmd, a1)) => StdResult::Host(HostCall::SysExec(cmd, a1)),
                None => StdResult::Value(error_status("Sys.exec needs (cmd, arg)")),
            }
        } else {
            StdResult::Value(error_status("Sys func error"))
        }
    } else if str_equal(module, "Math") {
        if str_equal(func, "random") {
            let k = random_below_100();
            let rr = StdResult::Value(VasoType::Int(k));
            proof {
                assert(rr@ == spec_dispatch(module@, func@, argv, k));
            }
            return rr;
        } else {
            StdResult::Value(VasoType::VBit(3, concat3("Math.", func, " not found")))
        }
    } else if str_equal(module, "Json") {
        if str_equal(func, "parse") {
            let mut picked: Option<String> = None;
            if args.len() > 0 {
                if let VasoType::Str(text) = &args[0] {
                    picked = Some(text.clone());
                }
            }
            match picked {
                Some(text) => match json_parse_text(text.as_str()) {
                    Ok(doc) => StdResult::Value(VasoType::Json(doc)),
                    Err(e) => StdResult::Value(
                        VasoType::VBit(3, concat2("JSON Error: ", e.as_str())),
                    ),
                },
                None => StdResult::Value(error_status("Json.parse needs (Str)")),
            }
        } else if str_equal(func, "get") {
            let mut picked: Option<(String, String)> = None;
            if args.len() > 1 {
                if let (VasoType::Json(doc), VasoType::Str(key)) = (&args[0], &args[1]) {
                    picked = Some((doc.clone(), key.clone()));
                }
            }
            match picked {
                Some((doc, key)) => StdResult::Value(json_get_value(doc.as_str(), key.as_str())),
                None => StdResult::Value(error_status("Json.get needs (Json, Str)")),
            }
        } else {
            StdResult::Value(VasoType::VBit(3, concat3("Json.", func, " not found")))
        }
    } else if str_equal(module, "File") {
        if str_equal(func, "read") {
            let mut picked: Option<String> = None;
            if args.len() > 0 {
                if let VasoType::Str(path) = &args[0] {
                    picked = Some(path.clone());
                }
            }
            match picked {
                Some(path) => StdResult::Host(HostCall::FileRead(path)),
                None => StdResult::Value(error_status("Arg Error")),
            }
        } else if str_equal(func, "write") {
            let mut picked: Option<(String, String)> = None;
            if args.len() > 1 {
                if let (VasoType::Str(path), VasoType::Str(content)) = (&args[0], &args[1]) {
                    picked = Some((path.clone(), content.clone()));
                }
            }
            match picked {
                Some((path, content)) => StdResult::Host(HostCall::FileWrite(path, content)),
                None => StdResult::Value(error_status("Arg Error")),
            }
        } else {
            StdResult::Value(VasoType::VBit(3, concat3("File.", func, " not found")))
        }
    } else {
        StdResult::Value(VasoType::VBit(3, concat3("Module ", module, " not found")))
    };
    proof {
        assert(r@ == spec_dispatch(module@, func@, argv, 0));
    }
    r
}

/// The `Json.get` decision on a document and key, in place.
fn json_get_value(doc: &str, key: &str) -> (r: VasoType)
    ensures
        r@ == spec_json_get(doc@, key@),
{
    if !json_has_field(doc, key) {
        VasoType::VBit(4, concat3("Field '", key, "' not found"))
    } else if let Some(i) = json_field_i64(doc, key) {
        VasoType::Int(#[verifier::truncate] (i as i32))
    } else if let Some(s) = json_field_str(doc, key) {
        VasoType::Str(s)
    } else if let Some(b) = json_field_bool(doc, key) {
        if b {
            VasoType::VBit(1, String::new())
        } else {
            VasoType::VBit(0, String::new())
        }
    } else {
        VasoType::VBit(4, "Complex Type".to_owned())
    }
}

/// The meaning of a host outcome for the call that asked for it: what the
/// dispatcher hands the program once the embedder reports back.
pub open spec fn spec_host_value(call: HostCallV, outcome: HostOutcomeV) -> VasoV {
    match (call, outcome) {
        (HostCallV::TimeNow, HostOutcomeV::Int(n)) => VasoV::Int(n),
        (HostCallV::TimeSleep(_), HostOutcomeV::Done) => VasoV::VBit(1, Seq::empty()),
        (HostCallV::SysOs, HostOutcomeV::Text(s)) => VasoV::Str(s),
        (HostCallV::SysArg(_), HostOutcomeV::Text(s)) => VasoV::Str(s),
        (HostCallV::SysArg(_), HostOutcomeV::Missing) => VasoV::VBit(4, "No Arg"@),
        (HostCallV::SysExec(_, _), HostOutcomeV::Done) => VasoV::VBit(1, Seq::empty()),
        (HostCallV::SysExec(_, _), HostOutcomeV::Failed(m)) => VasoV::VBit(
            3,
            "CMD Failed: "@ + m,
        ),
        (HostCallV::SysExec(_, _), HostOutcomeV::Fault(e)) => VasoV::VBit(
            3,
            "Exec Error: "@ + e,
        ),
        (HostCallV::FileRead(_), HostOutcomeV::Text(s)) => VasoV::Str(s),
        (HostCallV::FileRead(_), HostOutcomeV::Fault(e)) => VasoV::VBit(3, "IO Error: "@ + e),
        (HostCallV::FileWrite(_, _), HostOutcomeV::Done) => VasoV::VBit(1, "File Written"@),
        (HostCallV::FileWrite(_, _), HostOutcomeV::Fault(e)) => VasoV::VBit(
            3,
            "Write Error: "@ + e,
        ),
        _ => VasoV::VBit(3, "Host Error"@),
    }
}

/// Turns a host outcome into the value the program sees, per
/// `spec_host_value`.
pub fn host_outcome_value(call: &HostCall, outcome: HostOutcome) -> (r: VasoType)
    ensures
        r@ == spec_host_value(call@, outcome@),
{
    match (call, outcome) {
        (HostCall::TimeNow, HostOutcome::Int(n)) => VasoType::Int(n),
        (HostCall::TimeSleep(_), HostOutcome::Done) => VasoType::VBit(1, String::new()),
        (HostCall::SysOs, HostOutcome::Text(s)) => VasoType::Str(s),
        (HostCall::SysArg(_), HostOutcome::Text(s)) => VasoType::Str(s),
        (HostCall::SysArg(_), HostOutcome::Missing) => VasoType::VBit(4, "No Arg".to_owned()),
        (HostCall::SysExec(_, _), HostOutcome::Done) => VasoType::VBit(1, String::new()),
        (HostCall::SysExec(_, _), HostOutcome::Failed(m)) => VasoType::VBit(
            3,
            concat2("CMD Failed: ", m.as_str()),
        ),
        (HostCall::SysExec(_, _), HostOutcome::Fault(e)) => VasoType::VBit(
            3,
            concat2("Exec Error: ", e.as_str()),
        ),
        (HostCall::FileRead(_), HostOutcome::Text(s)) => VasoType::Str(s),
        (HostCall::FileRead(_), HostOutcome::Fault(e)) => VasoType::VBit(
            3,
            concat2("IO Error: ", e.as_str()),
        ),
        (HostCall::FileWrite(_, _), HostOutcome::Done) => VasoType::VBit(
            1,
            "File Written".to_owned(),
        ),
        (HostCall::FileWrite(_, _), HostOutcome::Fault(e)) => VasoType::VBit(
            3,
            concat2("Write Error: ", e.as_str()),
        ),
        _ => VasoType::VBit(3, "Host Error".to_owned()),
    }
}

} // verus!
