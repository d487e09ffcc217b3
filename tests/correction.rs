use solana_debugger::correct::{
    compile_errors, files_to_errors, next_action, plan_correction, BuildAction, BuildError, CompileError,
    Diagnostic, DiagnosticSpan, Span,
};

fn err(file: &str, start: usize, end: usize) -> CompileError {
    CompileError {
        file_path: file.to_string(),
        error_code: "E0277".to_string(),
        primary_span: Span { start, end },
        source_spans: vec![Span { start, end }],
        error_message: "the trait bound is not satisfied".to_string(),
    }
}

fn dspan(file: &str, start: usize, end: usize, primary: bool) -> DiagnosticSpan {
    DiagnosticSpan { file_name: file.to_string(), byte_start: start, byte_end: end, is_primary: primary }
}

#[test]
fn one_round_removes_exactly_the_failing_probe() {
    let stmts = vec![Span { start: 100, end: 180 }, Span { start: 181, end: 260 }, Span { start: 261, end: 340 }];
    let plan = plan_correction(&stmts, vec![err("src/lib.rs", 200, 210)]).unwrap();
    assert_eq!(plan, vec![false, true, false]);
}

#[test]
fn error_outside_generated_code_is_uncorrectable() {
    let stmts = vec![Span { start: 100, end: 180 }];
    let r = plan_correction(&stmts, vec![err("src/lib.rs", 10, 20)]);
    assert_eq!(r, Err(BuildError::UncorrectableCompileError));
    let r = plan_correction(&vec![], vec![err("src/lib.rs", 10, 20)]);
    assert_eq!(r, Err(BuildError::UncorrectableCompileError));
}

#[test]
fn span_must_lie_wholly_inside_the_statement() {
    let stmts = vec![Span { start: 100, end: 180 }];
    assert_eq!(plan_correction(&stmts, vec![err("f", 100, 180)]), Ok(vec![true]));
    assert_eq!(plan_correction(&stmts, vec![err("f", 90, 120)]), Err(BuildError::UncorrectableCompileError));
    assert_eq!(plan_correction(&stmts, vec![err("f", 170, 181)]), Err(BuildError::UncorrectableCompileError));
}

#[test]
fn an_error_closed_by_one_statement_does_not_delete_another() {
    // Two overlapping statements hold the same error: only the first goes.
    let stmts = vec![Span { start: 0, end: 50 }, Span { start: 0, end: 60 }];
    assert_eq!(plan_correction(&stmts, vec![err("f", 10, 20)]), Ok(vec![true, false]));
}


#[test]
fn diagnostics_that_count() {
    let diags = vec![
        // a warning
        Diagnostic { is_error: false, code: Some("unused".to_string()), spans: vec![dspan("a.rs", 1, 2, true)], rendered: None },
        // "aborting due to previous error": no code
        Diagnostic { is_error: true, code: None, spans: vec![], rendered: Some("aborting".to_string()) },
        // an error with no primary span
        Diagnostic { is_error: true, code: Some("E1".to_string()), spans: vec![dspan("a.rs", 1, 2, false)], rendered: None },
        // a real error: the file is the primary span's
        Diagnostic {
            is_error: true,
            code: Some("E0277".to_string()),
            spans: vec![dspan("other.rs", 5, 6, false), dspan("src/lib.rs", 30, 40, true)],
            rendered: Some("error[E0277]".to_string()),
        },
    ];
    let errs = compile_errors(&diags);
    assert_eq!(errs.len(), 1);
    assert_eq!(errs[0].file_path, "src/lib.rs");
    assert_eq!(errs[0].error_code, "E0277");
    assert_eq!(errs[0].primary_span, Span { start: 30, end: 40 });
    assert_eq!(errs[0].source_spans, vec![Span { start: 5, end: 6 }, Span { start: 30, end: 40 }]);
    assert_eq!(errs[0].error_message, "error[E0277]");
}

#[test]
fn missing_message_reads_n_a() {
    let diags = vec![Diagnostic {
        is_error: true,
        code: Some("E0599".to_string()),
        spans: vec![dspan("src/a.rs", 1, 2, true)],
        rendered: None,
    }];
    assert_eq!(compile_errors(&diags)[0].error_message, "N/A");
}

#[test]
fn errors_grouped_by_file_in_first_seen_order() {
    let groups = files_to_errors(vec![err("b.rs", 1, 2), err("a.rs", 3, 4), err("b.rs", 5, 6)]);
    assert_eq!(groups.len(), 2);
    assert_eq!(groups[0].file_path, "b.rs");
    assert_eq!(groups[0].errors.len(), 2);
    assert_eq!(groups[0].errors[1].primary_span.start, 5);
    assert_eq!(groups[1].file_path, "a.rs");
    assert_eq!(groups[1].errors.len(), 1);
    assert!(files_to_errors(vec![]).is_empty());
}

#[test]
fn build_loop_decisions() {
    assert!(matches!(next_action(vec![], true), BuildAction::Done));
    assert!(matches!(next_action(vec![], false), BuildAction::Fail(BuildError::BuildInvocationError)));
    match next_action(vec![err("x.rs", 1, 2)], false) {
        BuildAction::Correct(g) => {
            assert_eq!(g.len(), 1);
            assert_eq!(g[0].file_path, "x.rs");
        },
        _ => panic!("correction expected"),
    }
}
