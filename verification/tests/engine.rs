use assyst::errors::{format_error, Error, ErrorKind, Span};
use assyst::{parse, Context, MediaKind, NopContext, ParseResult};

fn run(input: &str) -> Result<ParseResult, Error> {
    parse(input, &Vec::new(), &NopContext)
}

fn run_args(input: &str, args: &[&str]) -> Result<ParseResult, Error> {
    let owned: Vec<String> = args.iter().map(|s| s.to_string()).collect();
    parse(input, &owned, &NopContext)
}

fn innermost(err: &Error) -> &ErrorKind {
    match &err.kind {
        ErrorKind::Nested { inner } => innermost(inner),
        other => other,
    }
}

fn check(input: &str, expect: fn(&Result<String, &ErrorKind>) -> bool) {
    let res = run(input);
    let view = res
        .as_ref()
        .map(|ok| ok.output.clone())
        .map_err(|err| &err.kind);
    assert!(expect(&view), "unexpected result for {input:?}: {view:?}");
    if let Err(err) = res {
        // Formatting must tolerate every error the engine can produce.
        format_error(input, err);
    }
}

#[test]
fn crash1() {
    check("zzzz@z{z", |r| matches!(r, Err(ErrorKind::MissingClosingBrace)));
}

#[test]
fn crash2() {
    check("{if|z|~|\u{7}|gs|I---s{args|", |r| {
        matches!(r, Err(ErrorKind::MissingClosingBrace))
    });
}

#[test]
fn crash3() {
    check("{a:a", |r| matches!(r, Err(ErrorKind::MissingClosingBrace)));
}

#[test]
fn crash4() {
    check("{note:::::JJJJ:::::::::::)[x{||z\0\0{z|||{i:||||{\u{7}Ƅ", |r| {
        matches!(r, Err(ErrorKind::MissingClosingBrace))
    });
}

#[test]
fn crash5() {
    check("{max}Ӱ______________________________", |r| {
        matches!(r, Err(ErrorKind::ArgParseError { .. }))
    });
}

#[test]
fn crash6() {
    check("{args}ӌs", |r| matches!(r, Ok(s) if s == "ӌs"));
}

#[test]
fn iter_limit() {
    let input = "{max:0}".repeat(501);
    let res = run(&input);
    match &res {
        Err(err) => assert!(matches!(err.kind, ErrorKind::IterLimit { .. })),
        Ok(ok) => panic!("expected the budget error, rendered {:?}", ok.output),
    }
    if let Err(err) = res {
        format_error(&input, err);
    }
}

#[test]
fn iter_limit_within_budget() {
    let input = "{max:0}".repeat(500);
    let res = run(&input).unwrap();
    assert_eq!(res.output, "0".repeat(500));
}

#[test]
fn if_then_works() {
    check("{if:{argslen}|=|0|ok|wrong}", |r| matches!(r, Ok(s) if s == "ok"));
}

#[test]
fn if_else_works() {
    check("{if:{argslen}|=|1|wrong|ok}", |r| matches!(r, Ok(s) if s == "ok"));
}

#[test]
fn args_join_and_len() {
    let res = run_args("{args} ({argslen})", &["a", "b", "c"]).unwrap();
    assert_eq!(res.output, "a b c (3)");
}

#[test]
fn args_scenario() {
    let res = run("{args}abc").unwrap();
    assert_eq!(res.output, "abc");
    assert!(res.attachment.is_none());
}

#[test]
fn arg_by_index() {
    let res = run_args("{arg:1}", &["first", "second"]).unwrap();
    assert_eq!(res.output, "second");
}

#[test]
fn arg_out_of_range() {
    let res = run_args("{arg:5}", &["only"]);
    assert!(matches!(res.unwrap_err().kind, ErrorKind::ArgParseError { .. }));
}

#[test]
fn literal_passthrough() {
    let res = run("plain text } with | bars").unwrap();
    assert_eq!(res.output, "plain text } with | bars");
}

#[test]
fn escapes_drop_backslash() {
    let res = run("\\{args\\} \\| \\ӌ \\").unwrap();
    assert_eq!(res.output, "{args} | ӌ \\");
}

#[test]
fn unknown_subtag() {
    let res = run("{zzz}");
    match res.unwrap_err().kind {
        ErrorKind::UnknownSubtag { name } => assert_eq!(name, b"zzz".to_vec()),
        other => panic!("unexpected kind {other:?}"),
    }
}

#[test]
fn max_of_numbers() {
    let res = run("{max:3|7|5}").unwrap();
    assert_eq!(res.output, "7");
}

#[test]
fn max_single_zero() {
    let res = run("{max:0}").unwrap();
    assert_eq!(res.output, "0");
}

#[test]
fn max_rejects_non_numbers() {
    let res = run("{max:2|x}");
    assert!(matches!(res.unwrap_err().kind, ErrorKind::ArgParseError { .. }));
}

#[test]
fn set_then_get() {
    let res = run("{set:x|hello}{get:x} {get:x}").unwrap();
    assert_eq!(res.output, "hello hello");
}

#[test]
fn set_overwrites() {
    let res = run("{set:x|1}{set:x|2}{get:x}").unwrap();
    assert_eq!(res.output, "2");
}

#[test]
fn get_unset_is_empty() {
    let res = run("a{get:x}b").unwrap();
    assert_eq!(res.output, "ab");
}

#[test]
fn sibling_requests_are_isolated() {
    let first = run("{set:x|secret}").unwrap();
    assert_eq!(first.output, "");
    let second = run("{get:x}").unwrap();
    assert_eq!(second.output, "");
}

#[test]
fn conditional_skips_unselected_side_effect() {
    let res = run("{if:0|=|0|ok|{set:x|1}}{get:x}").unwrap();
    assert_eq!(res.output, "ok");
}

#[test]
fn conditional_runs_selected_side_effect() {
    let res = run("{if:0|=|1|wrong|{set:x|1}}{get:x}").unwrap();
    assert_eq!(res.output, "1");
}

#[test]
fn conditional_skips_unselected_budget() {
    // The unselected branch alone would blow the 500-unit budget.
    let input = format!("{{if:1|=|1|ok|{}}}", "{max:0}".repeat(600));
    let res = run(&input).unwrap();
    assert_eq!(res.output, "ok");
}

#[test]
fn conditional_numeric_comparisons() {
    assert_eq!(run("{if:10|>|9|a|b}").unwrap().output, "a");
    assert_eq!(run("{if:10|<=|9|a|b}").unwrap().output, "b");
    assert_eq!(run("{if:2|!=|3|a|b}").unwrap().output, "a");
}

#[test]
fn conditional_rejects_bad_operator() {
    let res = run("{if:1|~|2|a|b}");
    assert!(matches!(res.unwrap_err().kind, ErrorKind::ArgParseError { .. }));
}

#[test]
fn repeat_text() {
    let res = run("{repeat:3|ab}").unwrap();
    assert_eq!(res.output, "ababab");
}

#[test]
fn repeat_exhausts_budget() {
    let res = run("{repeat:501|x}");
    assert!(matches!(res.unwrap_err().kind, ErrorKind::IterLimit { .. }));
}

#[test]
fn note_is_never_evaluated() {
    // The comment's content holds an unknown subtag and more invocations
    // than the budget allows; none of it runs.
    let input = format!("a{{note:{{zzz}}{}}}b", "{max:0}".repeat(600));
    let res = run(&input).unwrap();
    assert_eq!(res.output, "ab");
}

#[test]
fn depth_cap_trips_on_deep_nesting() {
    let input = format!("{}1{}", "{max:".repeat(70), "}".repeat(70));
    let res = run(&input);
    let err = res.unwrap_err();
    assert!(matches!(innermost(&err), ErrorKind::DepthLimit { .. }));
}

#[test]
fn nested_invocations_evaluate_depth_first() {
    let res = run("{max:{max:1|5}|3}").unwrap();
    assert_eq!(res.output, "5");
}

#[test]
fn capability_failures_surface_as_nested() {
    let err = run("{usertag:123}").unwrap_err();
    assert!(matches!(err.kind, ErrorKind::Nested { .. }));
    assert!(matches!(innermost(&err), ErrorKind::Capability { .. }));
}

struct FakeContext;

impl Context for FakeContext {
    fn resolve_reference(&self, id: u64) -> Result<String, String> {
        Ok(format!("user{id}"))
    }

    fn fetch_bytes(&self, url: &Vec<u8>) -> Result<Vec<u8>, String> {
        let mut data = vec![0x89u8, 0x50, 0x4e, 0x47];
        data.extend_from_slice(url.as_slice());
        Ok(data)
    }
}

#[test]
fn usertag_resolves_through_context() {
    let res = parse("{usertag:42}", &Vec::new(), &FakeContext).unwrap();
    assert_eq!(res.output, "user42");
}

#[test]
fn attach_fills_the_slot() {
    let res = parse("{attach:pic}", &Vec::new(), &FakeContext).unwrap();
    assert_eq!(res.output, "");
    let (data, kind) = res.attachment.expect("an attachment");
    assert_eq!(kind, MediaKind::Png);
    assert_eq!(&data[..4], &[0x89, 0x50, 0x4e, 0x47]);
}

#[test]
fn later_attachment_replaces_earlier() {
    let res = parse("{attach:a}{attach:b}", &Vec::new(), &FakeContext).unwrap();
    let (data, _) = res.attachment.expect("an attachment");
    assert_eq!(&data[4..], b"b");
}

#[test]
fn format_error_exact_report() {
    let err = run("zzzz@z{z").unwrap_err();
    let report = format_error("zzzz@z{z", err);
    assert_eq!(
        String::from_utf8(report).unwrap(),
        "error: missing a closing brace\nzzzz@z{z\n      ^"
    );
}

#[test]
fn format_error_tolerates_any_span() {
    // Spans inside multi-byte characters and past the end must both be
    // snapped rather than sliced blindly.
    for start in 0..12usize {
        let err = Error {
            kind: ErrorKind::MissingClosingBrace,
            span: Span { start, end: start + 1 },
        };
        format_error("aӌbӰ\u{10348}c", err);
    }
}

#[test]
fn format_error_reports_nested_chain() {
    let err = run("{max:{zzz}}").unwrap_err();
    let report = String::from_utf8(format_error("{max:{zzz}}", err)).unwrap();
    assert!(report.starts_with("error: nested: unknown subtag: zzz"));
}
