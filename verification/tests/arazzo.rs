use spall_cli::arazzo::actions::{
    dispatch_failure_chain, dispatch_success_chain, resolve_failure_chain, resolve_success_chain,
    ActionDispatchError, ActionInfo, ActionOrRef, Components, CriterionInfo, FailureActionInfo,
    StepFlow, DEFAULT_RETRY_LIMIT,
};
use spall_cli::arazzo::runner::{
    begin_step, build_step_args, effective_chain_of, looks_like_expression, resolve_step_operation,
    synthetic_failure_outcome, dry_run_outcome, into_cli_err, validation_report, ValidationDiagnostic, normalize_op_id, on_step_failure,
    outcome_to_json, split_input, validate_doc, ArazzoRunError, DocInfo, FailureStep, RoutedParam,
    RunOutcome, Severity, StepCursor, StepInfo, StepOutcome, WorkflowInfo,
};
use spall_cli::error::SpallCliError;
use spall_cli::ir::{HttpMethod, OperationInfo};
use spall_cli::json::{to_json_text, Json};

fn s(x: &str) -> String {
    x.to_string()
}

fn unconditional_end_action() -> ActionInfo {
    ActionInfo { name: s("wrap"), kind: s("end"), workflow_id: None, step_id: None, criteria: Vec::new() }
}

fn unconditional_end_failure() -> FailureActionInfo {
    FailureActionInfo {
        name: s("wrap"),
        kind: s("end"),
        workflow_id: None,
        step_id: None,
        retry_after_ms: None,
        retry_limit: None,
        criteria: Vec::new(),
    }
}

fn empty_components() -> Components {
    Components { success_actions: Vec::new(), failure_actions: Vec::new() }
}

#[test]
fn success_chain_with_unconditional_end_terminates() {
    let a = unconditional_end_action();
    let flow = dispatch_success_chain(&vec![&a]).ok().unwrap();
    assert!(matches!(flow, StepFlow::End { success: true }));
}

#[test]
fn empty_chain_returns_continue() {
    let flow = dispatch_success_chain(&vec![]).ok().unwrap();
    assert!(matches!(flow, StepFlow::Continue));
}

#[test]
fn goto_missing_step_id_errors() {
    let action = ActionInfo { name: s("g"), kind: s("goto"), workflow_id: None, step_id: None, criteria: Vec::new() };
    let err = dispatch_success_chain(&vec![&action]).err().unwrap();
    assert!(matches!(err, ActionDispatchError::GotoMissingStepId { .. }));
}

#[test]
fn goto_with_step_id_jumps() {
    let action = ActionInfo { name: s("g"), kind: s("goto"), workflow_id: None, step_id: Some(s("next")), criteria: Vec::new() };
    let flow = dispatch_success_chain(&vec![&action]).ok().unwrap();
    assert!(matches!(flow, StepFlow::Goto { step_id } if step_id == "next"));
}

#[test]
fn workflow_id_in_goto_rejects_as_nested_v2() {
    let action = ActionInfo {
        name: s("g"),
        kind: s("goto"),
        workflow_id: Some(s("other")),
        step_id: Some(s("x")),
        criteria: Vec::new(),
    };
    let err = dispatch_success_chain(&vec![&action]).err().unwrap();
    assert!(matches!(err, ActionDispatchError::NestedWorkflowGoto { .. }));
}

#[test]
fn jsonpath_criterion_kind_is_rejected_hard() {
    let action = ActionInfo {
        name: s("g"),
        kind: s("end"),
        workflow_id: None,
        step_id: None,
        criteria: vec![CriterionInfo { kind: Some(s("jsonpath")), outcome: Ok(true) }],
    };
    let err = dispatch_success_chain(&vec![&action]).err().unwrap();
    assert!(matches!(err, ActionDispatchError::UnsupportedCriterionType { ref kind, .. } if kind == "jsonpath"));
}

#[test]
fn regex_criterion_kind_is_rejected_hard() {
    let mut action = unconditional_end_failure();
    action.name = s("g");
    action.criteria = vec![CriterionInfo { kind: Some(s("regex")), outcome: Ok(true) }];
    let err = dispatch_failure_chain(&vec![&action]).err().unwrap();
    assert!(matches!(err, ActionDispatchError::UnsupportedCriterionType { .. }));
}

#[test]
fn retry_default_limit_kicks_in_when_field_omitted() {
    let mut action = unconditional_end_failure();
    action.name = s("r");
    action.kind = s("retry");
    action.retry_after_ms = Some(500);
    let flow = dispatch_failure_chain(&vec![&action]).ok().unwrap();
    match flow {
        StepFlow::Retry { after_ms, limit } => {
            assert_eq!(after_ms, 500);
            assert_eq!(limit, DEFAULT_RETRY_LIMIT);
        }
        _ => panic!("expected Retry"),
    }
}

#[test]
fn first_matching_action_wins_in_order() {
    let first = unconditional_end_failure();
    let mut second = unconditional_end_failure();
    second.kind = s("retry");
    let flow = dispatch_failure_chain(&vec![&first, &second]).ok().unwrap();
    assert!(matches!(flow, StepFlow::End { success: false }));
}

#[test]
fn unknown_action_kind_errors_with_name() {
    let action = ActionInfo { name: s("bogus"), kind: s("abort"), workflow_id: None, step_id: None, criteria: Vec::new() };
    let err = dispatch_success_chain(&vec![&action]).err().unwrap();
    match err {
        ActionDispatchError::UnknownActionKind { name, kind } => {
            assert_eq!(name, "bogus");
            assert_eq!(kind, "abort");
        }
        _ => panic!("expected UnknownActionKind"),
    }
}

#[test]
fn refs_resolve_against_components() {
    let mut comps = empty_components();
    comps.success_actions.push((s("named-end"), unconditional_end_action()));
    let chain = vec![ActionOrRef::Reference(s("$components.successActions.named-end"))];
    let resolved = resolve_success_chain(&chain, Some(&comps)).ok().unwrap();
    assert_eq!(resolved.len(), 1);
    assert_eq!(resolved[0].kind, "end");
}

#[test]
fn unknown_reference_errors_with_path() {
    let chain = vec![ActionOrRef::Reference(s("$components.successActions.ghost"))];
    let comps = empty_components();
    let err = resolve_success_chain(&chain, Some(&comps)).err().unwrap();
    assert!(matches!(err, ActionDispatchError::UnknownReference { .. }));
}

#[test]
fn malformed_reference_path_errors() {
    let chain = vec![ActionOrRef::Reference(s("components.bogus.path"))];
    let err = resolve_success_chain(&chain, None).err().unwrap();
    assert!(matches!(err, ActionDispatchError::MalformedReference { .. }));
}

#[test]
fn failure_chain_resolves_failure_refs_only() {
    let chain: Vec<ActionOrRef<FailureActionInfo>> = vec![ActionOrRef::Reference(s("$components.successActions.foo"))];
    let mut comps = empty_components();
    comps.success_actions.push((s("foo"), unconditional_end_action()));
    let err = resolve_failure_chain(&chain, Some(&comps)).err().unwrap();
    assert!(matches!(err, ActionDispatchError::MalformedReference { .. }));
}

#[test]
fn criterion_failure_skips_action() {
    let action = ActionInfo {
        name: s("guarded"),
        kind: s("end"),
        workflow_id: None,
        step_id: None,
        criteria: vec![CriterionInfo { kind: None, outcome: Ok(false) }],
    };
    let flow = dispatch_success_chain(&vec![&action]).ok().unwrap();
    assert!(matches!(flow, StepFlow::Continue));
}

#[test]
fn dispatch_error_messages() {
    let e = ActionDispatchError::UnknownActionKind { name: s("n"), kind: s("k") };
    assert!(e.message().contains("n"));
}

fn step(id: &str, op: Option<&str>) -> StepInfo {
    StepInfo {
        step_id: s(id),
        operation_id: op.map(|x| s(x)),
        operation_path: None,
        workflow_id: None,
        criteria_kinds: Vec::new(),
    }
}

#[test]
fn validation_flags_missing_operation_and_empty_docs() {
    let doc = DocInfo {
        arazzo: s("1.0.1"),
        workflows: vec![WorkflowInfo { workflow_id: s("w"), steps: vec![step("a", Some("op")), step("b", None)] }],
    };
    let diags = validate_doc(&doc);
    assert_eq!(diags.len(), 1);
    assert!(matches!(diags[0].severity, Severity::Error));
    assert_eq!(diags[0].message, "step 'b' has no operationId, operationPath, or workflowId");
    let empty = DocInfo { arazzo: s("2.0.0"), workflows: vec![] };
    let d2 = validate_doc(&empty);
    assert_eq!(d2.len(), 2);
    assert!(matches!(d2[0].severity, Severity::Warning));
    assert_eq!(d2[1].message, "document declares no workflows");
}

#[test]
fn step_budget_stops_at_the_limit() {
    let mut cur = StepCursor { idx: 0, budget: 0 };
    assert!(begin_step(&mut cur, 2, "wf", "a").is_ok());
    assert!(begin_step(&mut cur, 2, "wf", "b").is_ok());
    match begin_step(&mut cur, 2, "wf", "a") {
        Err(ArazzoRunError::StepBudgetExhausted { workflow, step, limit }) => {
            assert_eq!(workflow, "wf");
            assert_eq!(step, "a");
            assert_eq!(limit, 2);
        }
        _ => panic!("expected StepBudgetExhausted"),
    }
    assert_eq!(cur.budget, 2);
}

#[test]
fn failure_retry_counts_attempts() {
    let flow = StepFlow::Retry { after_ms: 120_000, limit: 1 };
    let mut attempt: u32 = 0;
    let mut cur = StepCursor { idx: 0, budget: 1 };
    assert!(matches!(on_step_failure(&flow, &mut attempt, &mut cur, 10, "wf", "pay"), FailureStep::Retry(60_000)));
    assert_eq!(attempt, 1);
    assert_eq!(cur.budget, 2);
    assert!(matches!(on_step_failure(&flow, &mut attempt, &mut cur, 10, "wf", "pay"), FailureStep::Exhausted(1)));
    assert!(matches!(on_step_failure(&StepFlow::Continue, &mut attempt, &mut cur, 10, "wf", "pay"), FailureStep::Propagate));
    assert_eq!(cur.budget, 2);
}

#[test]
fn retries_are_charged_to_the_step_budget() {
    let flow = StepFlow::Retry { after_ms: 10, limit: 5 };
    let mut attempt: u32 = 0;
    let mut cur = StepCursor { idx: 3, budget: 0 };
    assert!(begin_step(&mut cur, 2, "wf", "poll").is_ok());
    assert!(matches!(on_step_failure(&flow, &mut attempt, &mut cur, 2, "wf", "poll"), FailureStep::Retry(10)));
    assert_eq!(cur.budget, 2);
    match on_step_failure(&flow, &mut attempt, &mut cur, 2, "wf", "poll") {
        FailureStep::BudgetExhausted(ArazzoRunError::StepBudgetExhausted { workflow, step, limit }) => {
            assert_eq!(workflow, "wf");
            assert_eq!(step, "poll");
            assert_eq!(limit, 2);
        }
        _ => panic!("expected the step budget to run out"),
    }
    assert_eq!(attempt, 1);
    assert_eq!(cur.budget, 2);
    assert_eq!(cur.idx, 3);
    assert!(begin_step(&mut cur, 2, "wf", "next").is_err());
}

#[test]
fn inputs_split_at_first_equals() {
    let (k, v) = split_input("a=b=c").ok().unwrap();
    assert_eq!(k, "a");
    assert_eq!(v, "b=c");
    match split_input("novalue") {
        Err(ArazzoRunError::ParseDoc { path, reason }) => {
            assert_eq!(path, "--input");
            assert_eq!(reason, "expected key=value, got 'novalue'");
        }
        _ => panic!("expected an error"),
    }
}

#[test]
fn expressions_are_told_from_literals() {
    assert!(looks_like_expression("$inputs.id"));
    assert!(looks_like_expression("$response.statusCode"));
    assert!(!looks_like_expression("$10 fee"));
}

#[test]
fn op_ids_normalize_like_the_resolver() {
    assert_eq!(normalize_op_id("List_Pets.v2 all"), "list-pets-v2-all");
}

#[test]
fn step_parameters_route_by_location() {
    let params = vec![
        RoutedParam { name: s("id"), value: s("7"), location: s("path") },
        RoutedParam { name: s("q"), value: s("x"), location: s("query") },
        RoutedParam { name: s("q"), value: s("y"), location: s("query") },
        RoutedParam { name: s("X-T"), value: s("t"), location: s("header") },
    ];
    let args = build_step_args("s1", &params, Some((Json::Null, Some(s("application/json"))))).ok().unwrap();
    assert_eq!(args.path, vec![(s("id"), s("7"))]);
    assert_eq!(args.query, vec![(s("q"), s("y"))]);
    assert_eq!(args.header, vec![(s("Content-Type"), s("application/json")), (s("X-T"), s("t"))]);
    assert!(args.body.is_some());
}

#[test]
fn step_parameter_in_unsupported_location_errors() {
    let params = vec![RoutedParam { name: s("a"), value: s("1"), location: s("body") }];
    match build_step_args("s1", &params, None) {
        Err(ArazzoRunError::UnsupportedStepFeature { step, feature }) => {
            assert_eq!(step, "s1");
            assert_eq!(feature, "parameter 'in: body'");
        }
        _ => panic!("expected an error"),
    }
}

#[test]
fn run_outcome_serializes_in_field_order() {
    let outcome = RunOutcome {
        workflow_id: s("w"),
        steps: vec![StepOutcome {
            step_id: s("a"),
            status: 200,
            outputs: vec![(s("id"), Json::Number(s("1")))],
            dry_run: false,
            failed_via: Some(s("on-failure-end")),
        }],
        outputs: vec![],
    };
    assert_eq!(
        to_json_text(&outcome_to_json(&outcome)),
        "{\"workflowId\":\"w\",\"outputs\":{},\"steps\":[{\"stepId\":\"a\",\"status\":200,\"dryRun\":false,\"outputs\":{\"id\":1},\"failedVia\":\"on-failure-end\"}]}"
    );
}

fn plain_op(id: &str) -> OperationInfo {
    OperationInfo {
        operation_id: s(id),
        method: HttpMethod::Get,
        path_template: format!("/{}", id),
        summary: None,
        description: None,
        deprecated: false,
        parameters: Vec::new(),
        request_body: None,
        tags: Vec::new(),
        mcp_auth_profile: None,
        mcp_annotations: None,
    }
}

fn op_step(id: &str, op_ref: Option<&str>) -> StepInfo {
    StepInfo {
        step_id: s(id),
        operation_id: op_ref.map(s),
        operation_path: None,
        workflow_id: None,
        criteria_kinds: Vec::new(),
    }
}

fn two_sources() -> Vec<(String, Vec<OperationInfo>)> {
    vec![
        (s("billing"), vec![plain_op("get-invoice"), plain_op("list-items")]),
        (s("store"), vec![plain_op("list-items"), plain_op("get-pet")]),
    ]
}

#[test]
fn step_operation_resolves_unqualified_unique_id() {
    let sources = two_sources();
    assert_eq!(resolve_step_operation(&op_step("a", Some("get-pet")), &sources).ok(), Some((1, 1)));
    assert_eq!(resolve_step_operation(&op_step("a", Some("get_invoice")), &sources).ok(), Some((0, 0)));
}

#[test]
fn step_operation_resolves_qualified_id() {
    let sources = two_sources();
    assert_eq!(resolve_step_operation(&op_step("a", Some("store.list-items")), &sources).ok(), Some((1, 0)));
    match resolve_step_operation(&op_step("a", Some("store.get-invoice")), &sources) {
        Err(ArazzoRunError::OperationNotFound { step, op_id }) => {
            assert_eq!(step, "a");
            assert_eq!(op_id, "store.get-invoice");
        }
        _ => panic!("expected OperationNotFound"),
    }
}

#[test]
fn step_operation_ambiguous_across_sources() {
    let sources = two_sources();
    match resolve_step_operation(&op_step("a", Some("list-items")), &sources) {
        Err(ArazzoRunError::UnknownSource { step, message }) => {
            assert_eq!(step, "a");
            assert_eq!(
                message,
                "operationId 'list-items' is ambiguous across multiple sources; use '<sourceName>.list-items'"
            );
        }
        _ => panic!("expected an ambiguity error"),
    }
}

#[test]
fn step_operation_missing_or_unsupported() {
    let sources = two_sources();
    match resolve_step_operation(&op_step("a", Some("nope")), &sources) {
        Err(ArazzoRunError::OperationNotFound { op_id, .. }) => assert_eq!(op_id, "nope"),
        _ => panic!("expected OperationNotFound"),
    }
    match resolve_step_operation(&op_step("a", None), &sources) {
        Err(ArazzoRunError::StepMissingOperation { step }) => assert_eq!(step, "a"),
        _ => panic!("expected StepMissingOperation"),
    }
    let mut nested = op_step("a", Some("get-pet"));
    nested.workflow_id = Some(s("other"));
    match resolve_step_operation(&nested, &sources) {
        Err(ArazzoRunError::UnsupportedStepFeature { feature, .. }) => {
            assert_eq!(feature, "workflowId (nested workflows are v2)")
        }
        _ => panic!("expected UnsupportedStepFeature"),
    }
    let mut by_path = op_step("a", Some("get-pet"));
    by_path.operation_path = Some(s("{$sourceDescriptions.store}#/paths"));
    match resolve_step_operation(&by_path, &sources) {
        Err(ArazzoRunError::UnsupportedStepFeature { feature, .. }) => {
            assert_eq!(feature, "operationPath (v2, see issue #5)")
        }
        _ => panic!("expected UnsupportedStepFeature"),
    }
}

#[test]
fn absorbed_failure_outcome_records_status_and_route() {
    let o = synthetic_failure_outcome("pay", Some(502), "on-failure-end");
    assert_eq!(o.step_id, "pay");
    assert_eq!(o.status, 502);
    assert!(o.outputs.is_empty());
    assert!(!o.dry_run);
    assert_eq!(o.failed_via.as_deref(), Some("on-failure-end"));
    assert_eq!(synthetic_failure_outcome("pay", None, "x").status, 0);
}

#[test]
fn step_chain_overrides_workflow_chain() {
    let wf = vec![1u8, 2];
    let own: Option<Vec<u8>> = Some(vec![]);
    assert!(effective_chain_of(&own, &wf).is_empty());
    let none: Option<Vec<u8>> = None;
    assert_eq!(effective_chain_of(&none, &wf), &vec![1u8, 2]);
}

#[test]
fn run_errors_map_to_program_errors() {
    assert!(matches!(into_cli_err(ArazzoRunError::Transport(s("reset"))), SpallCliError::Network(m) if m == "reset"));
    let http = |status| ArazzoRunError::StepHttpError { step: s("a"), status, hint: String::new() };
    assert!(matches!(into_cli_err(http(404)), SpallCliError::Http4xx(404)));
    assert!(matches!(into_cli_err(http(503)), SpallCliError::Http5xx(503)));
    match into_cli_err(http(302)) {
        SpallCliError::Usage(m) => assert_eq!(m, "step 'a' returned HTTP 302"),
        _ => panic!("expected a usage error"),
    }
    match into_cli_err(ArazzoRunError::StepBudgetExhausted { workflow: s("w"), step: s("loop"), limit: 3 }) {
        SpallCliError::Usage(m) => assert_eq!(
            m,
            "workflow 'w' exceeded --spall-max-steps (3) \u{2014} possible infinite goto loop, last step was 'loop'"
        ),
        _ => panic!("expected a usage error"),
    }
}

#[test]
fn run_error_messages() {
    let e = ArazzoRunError::CriterionFailed { step: s("s1"), index: 2, condition: s("$statusCode == 200") };
    assert_eq!(e.message(), "step 's1' failed successCriteria #2: condition '$statusCode == 200'");
    assert_eq!(ArazzoRunError::NoWorkflows.message(), "document has no workflows");
    let r = ArazzoRunError::RetryExhausted { step: s("s"), limit: 5, last: s("boom") };
    assert_eq!(r.message(), "step 's' retry limit (5) exhausted; last error: boom");
}

#[test]
fn validate_report_lists_diagnostics() {
    let (lines, failed) = validation_report("wf.arazzo.yaml", 1, 2, &Vec::new());
    assert!(!failed);
    assert_eq!(lines, vec![s("ok: 'wf.arazzo.yaml' parses cleanly; all v1 features supported (1 workflow, 2 sources).")]);
    let diags = vec![
        ValidationDiagnostic { severity: Severity::Warning, message: s("w1") },
        ValidationDiagnostic { severity: Severity::Error, message: s("e1") },
    ];
    let (lines, failed) = validation_report("x", 0, 0, &diags);
    assert!(failed);
    assert_eq!(lines, vec![s("warning: w1"), s("error: e1")]);
    let (_, failed) = validation_report("x", 0, 0, &vec![ValidationDiagnostic { severity: Severity::Warning, message: s("w") }]);
    assert!(!failed);
}

#[test]
fn dry_run_outcome_is_marked_and_empty() {
    let o = dry_run_outcome("create");
    assert_eq!(o.step_id, "create");
    assert_eq!(o.status, 0);
    assert!(o.outputs.is_empty());
    assert!(o.dry_run);
    assert!(o.failed_via.is_none());
}
