use thclaws_core::plan::{
    build_plan_reminder, build_step_continuation_prompt, build_todos_reminder, todos_excerpt,
    PermissionMode, Plan, PlanStep, StepStatus,
};

fn step(
    id: &str,
    title: &str,
    description: &str,
    status: StepStatus,
) -> PlanStep {
    PlanStep {
        id: id.into(),
        title: title.into(),
        description: description.into(),
        status,
        note: None,
        output: None,
    }
}

fn make_plan(steps: Vec<PlanStep>) -> Plan {
    Plan {
        id: "plan-test".into(),
        steps,
    }
}

#[test]
fn reminder_layer2_hides_descriptions_for_remaining_steps() {
    let plan = make_plan(vec![
        step(
            "s1",
            "Scaffold project",
            "scaffold detail",
            StepStatus::Done,
        ),
        step(
            "s2",
            "Install deps",
            "install detail HIDE FROM MODEL",
            StepStatus::InProgress,
        ),
        step(
            "s3",
            "Configure Vite",
            "vite detail SHOULD-NOT-LEAK",
            StepStatus::Todo,
        ),
        step(
            "s4",
            "Add tests",
            "tests detail ALSO-HIDDEN",
            StepStatus::Todo,
        ),
    ]);
    let r = build_plan_reminder(PermissionMode::Auto, Some(&plan)).unwrap();

    assert!(
        r.contains("install detail HIDE FROM MODEL"),
        "current step description must appear: {r}"
    );

    assert!(
        !r.contains("vite detail SHOULD-NOT-LEAK"),
        "step 3 description leaked: {r}"
    );
    assert!(
        !r.contains("tests detail ALSO-HIDDEN"),
        "step 4 description leaked: {r}"
    );

    assert!(r.contains("Configure Vite"), "step 3 title missing: {r}");
    assert!(r.contains("Add tests"), "step 4 title missing: {r}");

    assert!(r.contains("Already complete:"));
    assert!(r.contains("1. Scaffold project"));

    assert!(
        r.contains("UpdatePlanStep(\"s2\""),
        "protocol must name the focus step id: {r}"
    );
}

#[test]
fn reminder_layer2_picks_failed_step_as_focus() {
    let mut s2 = step("s2", "Install deps", "doesn't matter", StepStatus::Failed);
    s2.note = Some("ENOTFOUND registry.npmjs.org".into());
    let plan = make_plan(vec![
        step("s1", "Scaffold", "", StepStatus::Done),
        s2,
        step("s3", "Configure", "", StepStatus::Todo),
    ]);
    let r = build_plan_reminder(PermissionMode::Auto, Some(&plan)).unwrap();

    assert!(r.contains("Failed step"), "failed status hint missing: {r}");
    assert!(
        r.contains("ENOTFOUND registry"),
        "failure note missing: {r}"
    );
    assert!(
        r.contains("user retry / skip / abort"),
        "retry hint missing: {r}"
    );
}

#[test]
fn reminder_layer2_all_done_wraps_up() {
    let plan = make_plan(vec![
        step("s1", "A", "", StepStatus::Done),
        step("s2", "B", "", StepStatus::Done),
    ]);
    let r = build_plan_reminder(PermissionMode::Auto, Some(&plan)).unwrap();
    assert!(r.contains("all steps complete"));
    assert!(r.contains("Wrap up"));
    assert!(!r.contains("UpdatePlanStep("));
}

#[test]
fn reminder_plan_mode_with_no_plan_tells_model_to_explore() {
    let r = build_plan_reminder(PermissionMode::Plan, None).unwrap();
    assert!(r.contains("Plan mode is active"));
    assert!(r.contains("Read / Grep"));
    assert!(r.contains("SubmitPlan"));
    assert!(r.contains("Do NOT call TodoWrite"));
}

#[test]
fn reminder_plan_mode_includes_step_quality_guidance() {
    let r = build_plan_reminder(PermissionMode::Plan, None).unwrap();

    assert!(
        !r.contains("3–10") && !r.contains("3-10"),
        "step-count cap should be removed: {r}",
    );
    assert!(
        r.contains("as many as needed"),
        "no-cap step-count guidance missing: {r}",
    );
    assert!(
        r.contains("ONE action") && r.contains("ONE shell-runnable verification"),
        "split-until-atomic three-rule test missing: {r}",
    );
    assert!(
        r.contains("PRESERVED across the next step"),
        "preservation rule missing: {r}",
    );

    assert!(
        r.contains("at least 2 steps"),
        "floor of 2 steps missing: {r}",
    );

    assert!(
        r.contains("Build-and-run") || r.contains("\"Build and run\" is TWO steps"),
        "build-and-run separation rule missing: {r}",
    );

    assert!(
        r.contains("Verifications must be shell-runnable"),
        "shell-runnable rule missing: {r}",
    );
    assert!(
        r.contains("NO human-eye checks"),
        "no-human-eye rule missing: {r}",
    );

    assert!(
        r.contains("Long-running processes are NOT verifications"),
        "no-long-running-server rule missing: {r}",
    );

    assert!(
        r.contains("No bootstrap-then-overwrite"),
        "bootstrap-overwrite rule missing: {r}",
    );

    assert!(
        r.contains("canonical scaffolders"),
        "canonical-scaffolder rule missing: {r}",
    );
    assert!(
        r.contains("interactive TTY prompt"),
        "interactive-prompt warning missing: {r}",
    );

    assert!(
        r.contains("Name cross-step artifacts"),
        "cross-step-artifacts rule missing: {r}",
    );

    assert!(
        r.contains("ACTUALLY RUN the verification"),
        "must actually run verify, not just declare it: {r}",
    );

    assert!(
        r.contains("Don't paper over") || r.contains("don't paper over"),
        "no-paper-over rule missing: {r}",
    );

    assert!(
        r.contains("AskUserQuestion is REQUIRED"),
        "required-ask rule missing: {r}",
    );
}

#[test]
fn reminder_plan_mode_includes_pre_submission_audit() {
    let r = build_plan_reminder(PermissionMode::Plan, None).unwrap();

    assert!(
        r.contains("Audit BEFORE calling SubmitPlan"),
        "pre-submission audit section missing: {r}",
    );

    for needle in [
        "Goal coverage",
        "Atomic steps",
        "Bash-runnable verifications",
        "Cross-step dependencies named",
        "No throwaway steps",
        "No long-running servers as verifications",
        "Stack decisions made",
    ] {
        assert!(
            r.contains(needle),
            "audit checklist item missing: {needle:?} not in: {r}",
        );
    }

    assert!(
        r.contains("revise — don't submit a plan you wouldn't approve yourself"),
        "audit gate framing missing: {r}",
    );
}

#[test]
fn reminder_per_step_protocol_includes_verification_step() {

    let plan_in_progress = make_plan(vec![step(
        "s1",
        "Build the project",
        "cargo build --release. Verify exits 0.",
        StepStatus::InProgress,
    )]);
    let r = build_plan_reminder(PermissionMode::Auto, Some(&plan_in_progress)).unwrap();
    assert!(
        r.contains("Run the verification before marking done"),
        "verify-then-done missing for in_progress: {r}"
    );
    assert!(
        r.contains("Don't paper over"),
        "no-paper-over missing for in_progress: {r}"
    );

    let plan_todo = make_plan(vec![step(
        "s1",
        "Run the tests",
        "cargo test. Verify all pass.",
        StepStatus::Todo,
    )]);
    let r = build_plan_reminder(PermissionMode::Auto, Some(&plan_todo)).unwrap();
    assert!(
        r.contains("Run the verification"),
        "verify-step missing for todo: {r}"
    );
}

#[test]
fn reminder_plan_mode_with_plan_tells_model_to_wait() {
    let plan = make_plan(vec![
        step("s1", "A", "", StepStatus::Todo),
        step("s2", "B", "", StepStatus::Todo),
    ]);
    let r = build_plan_reminder(PermissionMode::Plan, Some(&plan)).unwrap();
    assert!(r.contains("awaiting user approval"));
    assert!(r.contains("2 steps"));
}

#[test]
fn reminder_plan_mode_with_all_done_plan_falls_back_to_explore_reminder() {
    let plan = make_plan(vec![
        step("s1", "Build", "", StepStatus::Done),
        step("s2", "Test", "", StepStatus::Done),
    ]);
    let r = build_plan_reminder(PermissionMode::Plan, Some(&plan)).unwrap();
    assert!(
        !r.contains("awaiting user approval"),
        "all-done plan must NOT trigger awaiting-approval reminder: {r}",
    );
    assert!(
        r.contains("Plan mode is active"),
        "must fall through to the (Plan, None) explore reminder: {r}",
    );
    assert!(
        r.contains("SubmitPlan"),
        "must invite the model to submit a fresh plan: {r}",
    );
}

#[test]
fn reminder_no_plan_no_mode_returns_none() {
    assert!(build_plan_reminder(PermissionMode::Auto, None).is_none());
    assert!(build_plan_reminder(PermissionMode::Ask, None).is_none());
}

#[test]
fn step_continuation_prompt_first_attempt_is_terse_and_directive() {
    let plan = make_plan(vec![
        step("s1", "Scaffold project", "", StepStatus::Done),
        step(
            "s2",
            "Install deps",
            "Run `npm install`. Verify: lockfile exists.",
            StepStatus::Todo,
        ),
        step("s3", "Build", "", StepStatus::Todo),
    ]);
    let p = build_step_continuation_prompt(&plan, &plan.steps[1], 1);

    assert!(p.contains("step 2/3"), "missing position/total: {p}");
    assert!(p.contains("Install deps"), "missing step title: {p}");

    assert!(
        p.contains("UpdatePlanStep(\"s2\", \"in_progress\")"),
        "missing begin transition: {p}",
    );
    assert!(
        p.contains("\"done\"") && p.contains("\"failed\""),
        "missing terminal transitions: {p}",
    );

    assert!(
        !p.contains("attempts per step"),
        "first-attempt prompt should not warn about retry budget: {p}",
    );
}

#[test]
fn step_continuation_prompt_in_progress_step_skips_begin_transition() {
    let plan = make_plan(vec![
        step("s1", "Already running", "do work", StepStatus::InProgress),
        step("s2", "Next", "", StepStatus::Todo),
    ]);
    let p = build_step_continuation_prompt(&plan, &plan.steps[0], 1);

    assert!(
        !p.contains("\"in_progress\""),
        "in_progress step should not be told to begin again: {p}",
    );
    assert!(
        p.contains("already on this step"),
        "missing in-progress hint: {p}"
    );
    assert!(p.contains("\"done\""));
    assert!(p.contains("\"failed\""));
}

#[test]
fn step_continuation_prompt_escalates_on_repeated_attempts() {
    let plan = make_plan(vec![step(
        "s1",
        "Build release",
        "cargo build --release",
        StepStatus::InProgress,
    )]);
    let p2 = build_step_continuation_prompt(&plan, &plan.steps[0], 2);

    assert!(p2.contains("attempt 2"), "missing attempt number: {p2}");
    assert!(
        p2.contains("attempts per step"),
        "missing budget warning: {p2}"
    );
    assert!(
        p2.contains("Failed automatically"),
        "must tell model the driver will force-Failed: {p2}",
    );
    assert!(
        p2.contains("retry / skip / abort") || p2.contains("Retry") || p2.contains("user"),
        "must reference user recovery path: {p2}",
    );
}

#[test]
fn step_continuation_prompt_surfaces_prior_step_outputs() {
    let mut s1 = step("s1", "Generate user id", "", StepStatus::Done);
    s1.output = Some("user-id: abc-123".into());
    let mut s2 = step("s2", "Hash password", "", StepStatus::Done);
    s2.output = Some("hash: $argon2id$xyz".into());
    let s3 = step("s3", "Persist to db", "", StepStatus::Todo);
    let plan = make_plan(vec![s1, s2, s3]);

    let p = build_step_continuation_prompt(&plan, &plan.steps[2], 1);

    assert!(
        p.contains("Outputs from prior steps"),
        "section header missing: {p}"
    );
    assert!(p.contains("user-id: abc-123"), "step 1 output missing: {p}");
    assert!(
        p.contains("hash: $argon2id$xyz"),
        "step 2 output missing: {p}"
    );
}

#[test]
fn step_continuation_prompt_omits_outputs_section_when_none() {
    let plan = make_plan(vec![
        step("s1", "Done", "", StepStatus::Done),
        step("s2", "Focus", "", StepStatus::Todo),
    ]);
    let p = build_step_continuation_prompt(&plan, &plan.steps[1], 1);
    assert!(
        !p.contains("Outputs from prior steps"),
        "section should be elided when empty: {p}",
    );
}

#[test]
fn step_continuation_prompt_excludes_failed_step_outputs() {
    let mut s1 = step("s1", "Tried something", "", StepStatus::Failed);
    s1.output = Some("partial-result-DO-NOT-USE".into());
    let s2 = step("s2", "Focus", "", StepStatus::Todo);
    let plan = make_plan(vec![s1, s2]);

    let p = build_step_continuation_prompt(&plan, &plan.steps[1], 1);
    assert!(
        !p.contains("partial-result-DO-NOT-USE"),
        "failed step output must not leak into prompt: {p}",
    );
}

#[test]
fn execution_reminder_surfaces_prior_step_outputs() {
    let mut s1 = step("s1", "Build artifact", "", StepStatus::Done);
    s1.output = Some("path: target/release/foo".into());
    let s2 = step("s2", "Run tests", "", StepStatus::InProgress);
    let plan = make_plan(vec![s1, s2]);

    let r = build_plan_reminder(PermissionMode::Auto, Some(&plan)).unwrap();
    assert!(
        r.contains("Outputs from prior steps"),
        "system reminder must surface outputs: {r}",
    );
    assert!(
        r.contains("path: target/release/foo"),
        "step 1 output missing in reminder: {r}",
    );
}

#[test]
fn step_continuation_prompt_no_op_for_done_or_failed_steps() {
    let plan = make_plan(vec![
        step("s1", "Done step", "", StepStatus::Done),
        step("s2", "Failed step", "", StepStatus::Failed),
    ]);
    let pd = build_step_continuation_prompt(&plan, &plan.steps[0], 1);
    let pf = build_step_continuation_prompt(&plan, &plan.steps[1], 1);

    assert!(
        !pd.contains("\"in_progress\""),
        "Done step should not be re-started: {pd}"
    );
    assert!(
        !pf.contains("\"in_progress\""),
        "Failed step requires explicit user retry: {pf}"
    );
}

#[test]
fn todos_reminder_returns_none_when_file_missing() {
    let r = build_todos_reminder(None);
    assert!(r.is_none(), "no .thclaws/todos.md → no reminder");
}

#[test]
fn todos_reminder_returns_none_when_file_empty() {
    let r = build_todos_reminder(Some(""));
    assert!(r.is_none(), "empty file → no reminder");
}

#[test]
fn todos_reminder_returns_none_when_all_completed() {
    let body = "# Todos\n\n- [x] Done thing (id: 1)\n- [x] Other done thing (id: 2)\n";
    let r = build_todos_reminder(Some(body));
    assert!(r.is_none(), "all-completed list → no reminder");
}

#[test]
fn todos_reminder_surfaces_pending_items() {
    let body =
        "# Todos\n\n- [ ] Add tests (id: 1)\n- [-] Fix bug (id: 2)\n- [x] Old task (id: 3)\n";
    let r = build_todos_reminder(Some(body)).expect("reminder fires");
    assert!(r.contains(".thclaws/todos.md"), "missing file path: {r}");
    assert!(
        r.contains("before asking the user")
            || r.contains("before asking what")
            || r.contains("Don't ask"),
        "missing anti-ask framing: {r}",
    );
    assert!(
        r.contains("Add tests"),
        "pending item missing in reminder: {r}"
    );
    assert!(
        r.contains("Fix bug"),
        "in_progress item missing in reminder: {r}"
    );
    assert!(
        r.contains("TodoWrite"),
        "must point at TodoWrite for the action: {r}"
    );
    assert!(
        r.contains("in_progress") || r.contains("resume"),
        "must mention resume/in_progress flow: {r}",
    );
}

#[test]
fn todos_reminder_fires_when_only_one_in_progress_item() {
    let body = "# Todos\n\n- [x] Done (id: 1)\n- [-] Halfway (id: 2)\n";
    let r = build_todos_reminder(Some(body)).expect("must fire");
    assert!(r.contains("Halfway"), "in_progress item must surface: {r}");
}

#[test]
fn long_todo_lists_are_cut() {
    assert_eq!(todos_excerpt("- [ ] a\n- [x] b\n\n"), "- [ ] a\n- [x] b");
    assert_eq!(todos_excerpt(&"- [ ] x\n".repeat(200)).lines().count(), 80);
    let wide = todos_excerpt(&format!("{}\n", "y".repeat(999)).repeat(20));
    assert_eq!(wide.lines().count(), 6);
    assert_eq!(todos_excerpt(""), "");
    let long = build_todos_reminder(Some(&"- [ ] x\n".repeat(200))).unwrap();
    assert_eq!(long.matches("- [ ] x").count(), 80);
}
