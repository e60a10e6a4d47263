use uipilot::engine::{
    Action, Directive, Event, PlanStep, RunOutcome, StepEngine, Validation,
};

fn step(action: Action) -> PlanStep {
    PlanStep { action, validation: None }
}

fn visit(url: &str) -> PlanStep {
    step(Action::VisitUrl { url: url.to_string() })
}

fn begin(row: usize) -> PlanStep {
    step(Action::BeginClient { row })
}

/// Drive the engine until it wants something from outside (a step, a
/// question, or the end), feeding Tick through internal transitions.
fn next_directive(engine: &mut StepEngine) -> Directive {
    loop {
        match engine.advance(Event::Tick) {
            Directive::Proceed => continue,
            d => return d,
        }
    }
}

/// The URL of the step the engine currently waits on, for checking
/// where execution resumed.
fn current_url(engine: &StepEngine) -> String {
    match engine.current_step() {
        Some(s) => match &s.action {
            Action::VisitUrl { url } => url.clone(),
            _ => panic!("current step is not a visit"),
        },
        None => panic!("no current step"),
    }
}

#[test]
fn plain_plan_runs_to_completion() {
    let plan = vec![begin(2), visit("a"), visit("b")];
    let mut e = StepEngine::new(plan);
    assert!(matches!(next_directive(&mut e), Directive::Perform));
    assert_eq!(current_url(&e), "a");
    assert!(matches!(e.advance(Event::StepOk), Directive::Proceed));
    assert!(matches!(next_directive(&mut e), Directive::Perform));
    assert_eq!(current_url(&e), "b");
    assert!(matches!(e.advance(Event::StepOk), Directive::Proceed));
    assert!(matches!(next_directive(&mut e), Directive::Finished));
    assert_eq!(e.outcome(), Some(RunOutcome::Completed));
}

#[test]
fn step_failure_fails_the_whole_run() {
    let plan = vec![begin(2), visit("a"), visit("b")];
    let mut e = StepEngine::new(plan);
    assert!(matches!(next_directive(&mut e), Directive::Perform));
    assert!(matches!(e.advance(Event::StepErr), Directive::Finished));
    assert_eq!(e.outcome(), Some(RunOutcome::StepFailed));
    // the run stays over, whatever is reported afterwards
    assert!(matches!(e.advance(Event::Tick), Directive::Finished));
}

#[test]
fn stop_client_resumes_at_next_begin_client() {
    // plan: [BeginClient(2), ClickByVision, StopClient,
    //        BeginClient(3), VisitUrl(u)]
    let plan = vec![
        begin(2),
        step(Action::ClickByVision { prompt: "create".to_string(), double: None }),
        step(Action::StopClient),
        begin(3),
        visit("u"),
    ];
    let mut e = StepEngine::new(plan);
    // the click is handed out and succeeds
    assert!(matches!(next_directive(&mut e), Directive::Perform));
    assert!(matches!(e.current_step().unwrap().action, Action::ClickByVision { .. }));
    assert!(matches!(e.advance(Event::StepOk), Directive::Proceed));
    // the stop-client step skips to BeginClient(3); the next thing
    // handed out is the second client's visit
    assert!(matches!(next_directive(&mut e), Directive::Perform));
    assert_eq!(current_url(&e), "u");
    assert!(matches!(e.advance(Event::StepOk), Directive::Proceed));
    assert!(matches!(next_directive(&mut e), Directive::Finished));
    assert_eq!(e.outcome(), Some(RunOutcome::Completed));
}

#[test]
fn failed_vision_click_propagates_as_run_failure() {
    let plan = vec![
        begin(2),
        step(Action::ClickByVision { prompt: "create".to_string(), double: None }),
        step(Action::StopClient),
        begin(3),
        visit("u"),
    ];
    let mut e = StepEngine::new(plan);
    assert!(matches!(next_directive(&mut e), Directive::Perform));
    // all samples failed: an ordinary error, not a control-flow signal
    assert!(matches!(e.advance(Event::StepErr), Directive::Finished));
    assert_eq!(e.outcome(), Some(RunOutcome::StepFailed));
}

#[test]
fn validation_enters_corrective_steps_for_the_answer() {
    let corrective = vec![visit("fixup")];
    let plan = vec![PlanStep {
        action: Action::VisitUrl { url: "main".to_string() },
        validation: Some(Validation {
            question: "did it work?".to_string(),
            on_true: None,
            on_false: Some(corrective),
        }),
    }];
    let mut e = StepEngine::new(plan);
    assert!(matches!(next_directive(&mut e), Directive::Perform));
    assert!(matches!(e.advance(Event::StepOk), Directive::Ask));
    assert_eq!(
        e.current_step().unwrap().validation.as_ref().unwrap().question,
        "did it work?"
    );
    // a no answer enters the on_false corrective list
    assert!(matches!(e.advance(Event::Answer(false)), Directive::Proceed));
    assert!(matches!(next_directive(&mut e), Directive::Perform));
    assert_eq!(current_url(&e), "fixup");
    assert!(matches!(e.advance(Event::StepOk), Directive::Proceed));
    assert!(matches!(next_directive(&mut e), Directive::Finished));
    assert_eq!(e.outcome(), Some(RunOutcome::Completed));
}

#[test]
fn yes_answer_without_corrective_moves_on() {
    let plan = vec![
        PlanStep {
            action: Action::VisitUrl { url: "main".to_string() },
            validation: Some(Validation {
                question: "ok?".to_string(),
                on_true: None,
                on_false: Some(vec![visit("fixup")]),
            }),
        },
        visit("after"),
    ];
    let mut e = StepEngine::new(plan);
    assert!(matches!(next_directive(&mut e), Directive::Perform));
    assert!(matches!(e.advance(Event::StepOk), Directive::Ask));
    assert!(matches!(e.advance(Event::Answer(true)), Directive::Proceed));
    assert!(matches!(next_directive(&mut e), Directive::Perform));
    assert_eq!(current_url(&e), "after");
}

#[test]
fn unanswerable_validation_continues_the_run() {
    let plan = vec![
        PlanStep {
            action: Action::VisitUrl { url: "main".to_string() },
            validation: Some(Validation {
                question: "ok?".to_string(),
                on_true: Some(vec![visit("praise")]),
                on_false: Some(vec![visit("fixup")]),
            }),
        },
        visit("after"),
    ];
    let mut e = StepEngine::new(plan);
    assert!(matches!(next_directive(&mut e), Directive::Perform));
    assert!(matches!(e.advance(Event::StepOk), Directive::Ask));
    assert!(matches!(e.advance(Event::AnswerErr), Directive::Proceed));
    assert!(matches!(next_directive(&mut e), Directive::Perform));
    assert_eq!(current_url(&e), "after");
}

fn deep_plan(innermost: Action) -> Vec<PlanStep> {
    // a validated step whose corrective tree nests three levels deep,
    // with the given action at the bottom and siblings at every level
    let level3 = vec![step(innermost), visit("l3-sibling")];
    let level2 = vec![
        PlanStep {
            action: Action::VisitUrl { url: "l2".to_string() },
            validation: Some(Validation {
                question: "q3".to_string(),
                on_true: Some(level3),
                on_false: None,
            }),
        },
        visit("l2-sibling"),
    ];
    let level1 = vec![
        PlanStep {
            action: Action::VisitUrl { url: "l1".to_string() },
            validation: Some(Validation {
                question: "q2".to_string(),
                on_true: Some(level2),
                on_false: None,
            }),
        },
        visit("l1-sibling"),
    ];
    vec![
        begin(2),
        PlanStep {
            action: Action::VisitUrl { url: "top".to_string() },
            validation: Some(Validation {
                question: "q1".to_string(),
                on_true: Some(level1),
                on_false: None,
            }),
        },
        visit("top-sibling"),
        begin(3),
        visit("next-client"),
    ]
}

/// Descend through three validation levels to the innermost step.
fn descend(e: &mut StepEngine) {
    for url in ["top", "l1", "l2"] {
        assert!(matches!(next_directive(e), Directive::Perform));
        assert_eq!(current_url(e), url);
        assert!(matches!(e.advance(Event::StepOk), Directive::Ask));
        assert!(matches!(e.advance(Event::Answer(true)), Directive::Proceed));
    }
}

#[test]
fn stop_client_three_levels_deep_skips_to_next_client() {
    let mut e = StepEngine::new(deep_plan(Action::StopClient));
    descend(&mut e);
    // the innermost corrective step is the stop-client signal; nothing
    // of l3-sibling, l2-sibling, l1-sibling or top-sibling runs: the
    // next step handed out is the next client's first real step
    assert!(matches!(next_directive(&mut e), Directive::Perform));
    assert_eq!(current_url(&e), "next-client");
    assert!(matches!(e.advance(Event::StepOk), Directive::Proceed));
    assert!(matches!(next_directive(&mut e), Directive::Finished));
    assert_eq!(e.outcome(), Some(RunOutcome::Completed));
}

#[test]
fn abort_three_levels_deep_terminates_the_run() {
    let mut e = StepEngine::new(deep_plan(Action::Abort));
    descend(&mut e);
    // the innermost corrective step aborts the whole run: no step at
    // any level runs after it
    assert!(matches!(next_directive(&mut e), Directive::Finished));
    assert_eq!(e.outcome(), Some(RunOutcome::Aborted));
    assert!(matches!(e.advance(Event::Tick), Directive::Finished));
    assert_eq!(e.outcome(), Some(RunOutcome::Aborted));
}

#[test]
fn stop_client_with_no_later_client_ends_the_run() {
    let plan = vec![begin(2), step(Action::StopClient), visit("tail")];
    let mut e = StepEngine::new(plan);
    // no BeginClient follows, so the run completes without the tail
    assert!(matches!(next_directive(&mut e), Directive::Finished));
    assert_eq!(e.outcome(), Some(RunOutcome::Completed));
}
