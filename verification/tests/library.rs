use vaso::stdlib::{call_std_function, host_outcome_value, HostCall, HostOutcome, StdResult};
use vaso::types::VasoType;

fn svalue(s: &str) -> VasoType {
    VasoType::Str(s.to_string())
}

#[test]
fn json_parse_and_get_round_trip() {
    let parsed = call_std_function(
        "Json",
        "parse",
        vec![svalue("{\"age\": 41, \"name\": \"vera\", \"up\": true}")],
    );
    let doc = match parsed {
        StdResult::Value(VasoType::Json(doc)) => doc,
        other => panic!("expected a parsed document, got {:?}", other),
    };
    let age = call_std_function(
        "Json",
        "get",
        vec![VasoType::Json(doc.clone()), svalue("age")],
    );
    assert!(matches!(age, StdResult::Value(VasoType::Int(41))));
    let name = call_std_function(
        "Json",
        "get",
        vec![VasoType::Json(doc.clone()), svalue("name")],
    );
    assert!(matches!(&name, StdResult::Value(VasoType::Str(s)) if s == "vera"));
    let up = call_std_function(
        "Json",
        "get",
        vec![VasoType::Json(doc.clone()), svalue("up")],
    );
    assert!(matches!(&up, StdResult::Value(VasoType::VBit(1, _))));
    let gone = call_std_function(
        "Json",
        "get",
        vec![VasoType::Json(doc), svalue("salary")],
    );
    assert!(
        matches!(&gone, StdResult::Value(VasoType::VBit(4, m)) if m == "Field 'salary' not found")
    );
}

#[test]
fn json_parse_rejects_bad_text() {
    let r = call_std_function("Json", "parse", vec![svalue("{nope")]);
    match r {
        StdResult::Value(VasoType::VBit(3, m)) => assert!(m.starts_with("JSON Error: ")),
        other => panic!("expected an error status, got {:?}", other),
    }
}

#[test]
fn json_parse_needs_a_string_argument() {
    let r = call_std_function("Json", "parse", vec![VasoType::Int(3)]);
    assert!(matches!(&r, StdResult::Value(VasoType::VBit(3, m)) if m == "Json.parse needs (Str)"));
}

#[test]
fn math_random_stays_below_one_hundred() {
    for _ in 0..20 {
        let r = call_std_function("Math", "random", vec![]);
        match r {
            StdResult::Value(VasoType::Int(k)) => assert!((0..100).contains(&k)),
            other => panic!("expected an integer draw, got {:?}", other),
        }
    }
}

#[test]
fn unknown_module_and_function_messages() {
    let r = call_std_function("Nope", "x", vec![]);
    assert!(
        matches!(&r, StdResult::Value(VasoType::VBit(3, m)) if m == "Module Nope not found")
    );
    let r = call_std_function("Time", "warp", vec![]);
    assert!(matches!(&r, StdResult::Value(VasoType::VBit(3, m)) if m == "Time.warp not found"));
    let r = call_std_function("Math", "cosine", vec![]);
    assert!(matches!(&r, StdResult::Value(VasoType::VBit(3, m)) if m == "Math.cosine not found"));
}

#[test]
fn error_argument_short_circuits_the_call() {
    let r = call_std_function(
        "Math",
        "random",
        vec![VasoType::VBit(3, "already broken".to_string())],
    );
    assert!(matches!(&r, StdResult::Value(VasoType::VBit(3, m)) if m == "already broken"));
}

#[test]
fn host_actions_are_surfaced_not_run() {
    assert!(matches!(
        call_std_function("Time", "now", vec![]),
        StdResult::Host(HostCall::TimeNow)
    ));
    assert!(matches!(
        call_std_function("Time", "sleep", vec![VasoType::Int(5)]),
        StdResult::Host(HostCall::TimeSleep(5))
    ));
    assert!(matches!(
        call_std_function("Sys", "os", vec![]),
        StdResult::Host(HostCall::SysOs)
    ));
    assert!(matches!(
        &call_std_function("File", "read", vec![svalue("a.txt")]),
        StdResult::Host(HostCall::FileRead(p)) if p == "a.txt"
    ));
    assert!(matches!(
        &call_std_function("File", "write", vec![svalue("a.txt"), svalue("body")]),
        StdResult::Host(HostCall::FileWrite(p, c)) if p == "a.txt" && c == "body"
    ));
}

#[test]
fn argument_shape_errors() {
    let r = call_std_function("Time", "sleep", vec![svalue("soon")]);
    assert!(
        matches!(&r, StdResult::Value(VasoType::VBit(3, m)) if m == "Arg Error: Sleep needs Int (ms)")
    );
    let r = call_std_function("Sys", "arg", vec![svalue("zero")]);
    assert!(matches!(&r, StdResult::Value(VasoType::VBit(3, m)) if m == "Sys.arg needs Int"));
    let r = call_std_function("Sys", "exec", vec![svalue("ls")]);
    assert!(
        matches!(&r, StdResult::Value(VasoType::VBit(3, m)) if m == "Sys.exec needs (cmd, arg)")
    );
    let r = call_std_function("File", "read", vec![VasoType::Int(1)]);
    assert!(matches!(&r, StdResult::Value(VasoType::VBit(3, m)) if m == "Arg Error"));
}

#[test]
fn host_outcomes_become_values() {
    let r = host_outcome_value(&HostCall::TimeNow, HostOutcome::Int(1234));
    assert!(matches!(r, VasoType::Int(1234)));
    let r = host_outcome_value(&HostCall::TimeSleep(5), HostOutcome::Done);
    assert!(matches!(&r, VasoType::VBit(1, m) if m.is_empty()));
    let r = host_outcome_value(&HostCall::SysArg(0), HostOutcome::Missing);
    assert!(matches!(&r, VasoType::VBit(4, m) if m == "No Arg"));
    let r = host_outcome_value(
        &HostCall::FileRead("a".to_string()),
        HostOutcome::Fault("denied".to_string()),
    );
    assert!(matches!(&r, VasoType::VBit(3, m) if m == "IO Error: denied"));
    let r = host_outcome_value(
        &HostCall::FileWrite("a".to_string(), "b".to_string()),
        HostOutcome::Done,
    );
    assert!(matches!(&r, VasoType::VBit(1, m) if m == "File Written"));
    let r = host_outcome_value(
        &HostCall::SysExec("x".to_string(), "y".to_string()),
        HostOutcome::Failed("code 2".to_string()),
    );
    assert!(matches!(&r, VasoType::VBit(3, m) if m == "CMD Failed: code 2"));
}

#[test]
fn rendering_matches_the_console_rules() {
    assert_eq!(VasoType::Int(42).render(), "42");
    assert_eq!(VasoType::Int(-42).render(), "-42");
    assert_eq!(VasoType::Int(0).render(), "0");
    assert_eq!(svalue("verbatim").render(), "verbatim");
    assert_eq!(VasoType::VBit(0, String::new()).render(), "off");
    assert_eq!(VasoType::VBit(1, String::new()).render(), "on");
    assert_eq!(VasoType::VBit(2, String::new()).render(), "loading");
    assert_eq!(
        VasoType::VBit(3, "Division by Zero".to_string()).render(),
        "error(\"Division by Zero\")"
    );
    assert_eq!(VasoType::VBit(4, String::new()).render(), "unknown");
    let list = VasoType::List(vec![VasoType::Int(1), svalue("two"), VasoType::Int(3)]);
    assert_eq!(list.render(), "[1, two, 3]");
    let f = VasoType::Function(9, vec!["a".to_string(), "b".to_string()]);
    assert_eq!(f.render(), "fn(a, b)");
}

#[test]
fn deep_value_equality_compares_structure() {
    let a = VasoType::List(vec![VasoType::Int(1), svalue("x")]);
    let b = VasoType::List(vec![VasoType::Int(1), svalue("x")]);
    let c = VasoType::List(vec![VasoType::Int(1), svalue("y")]);
    assert!(a.eq_value(&b));
    assert!(!a.eq_value(&c));
    assert!(!a.eq_value(&VasoType::Int(1)));
    let s1 = VasoType::VBit(3, "a".to_string());
    let s2 = VasoType::VBit(3, "b".to_string());
    assert!(!s1.eq_value(&s2));
    assert!(s1.eq_value(&s1.clone()));
}
