use task_maker_exec::proto::{ExecutionResult, ExecutionStatus};
use task_maker_exec::ui_state::TestcaseEvaluationStatus::{
    Accepted, Checking, Failed, MemoryLimitExceeded, Partial, Pending, RuntimeError, Skipped,
    Solved, Solving, TimeLimitExceeded, WallTimeLimitExceeded, WrongAnswer,
};
use task_maker_exec::ui_state::{
    CompilationStatus, Phase, SolutionTestcaseEvaluationState, Stream, TestcaseEvaluationStatus,
    TestcaseGenerationState, TestcaseGenerationStatus, UIExecutionStatus, Verdict,
};

fn done(status: ExecutionStatus) -> UIExecutionStatus {
    UIExecutionStatus::Done { result: ExecutionResult { status, resources: None } }
}

#[test]
fn messages_of_the_statuses() {
    let expected = [
        (Pending, "Not done"),
        (Solving, "Solution running"),
        (Solved, "Solution completed"),
        (Checking, "Checker running"),
        (Accepted(String::new()), "Output is correct"),
        (Accepted("Well done".into()), "Well done"),
        (WrongAnswer(String::new()), "Output is not correct"),
        (WrongAnswer("Nope".into()), "Nope"),
        (Partial(String::new()), "Partially correct"),
        (Partial("Half".into()), "Half"),
        (TimeLimitExceeded, "Time limit exceeded"),
        (WallTimeLimitExceeded, "Execution took too long"),
        (MemoryLimitExceeded, "Memory limit exceeded"),
        (RuntimeError, "Runtime error"),
        (Failed, "Execution failed"),
        (Skipped, "Execution skipped"),
    ];
    for (status, message) in expected.iter() {
        assert_eq!(status.message(), *message);
    }
    for (status, _) in expected.iter() {
        let running = matches!(status, Pending | Solving | Solved | Checking);
        assert_eq!(status.has_completed(), !running);
        assert_eq!(status.is_success(), matches!(status, Accepted(_)));
        assert_eq!(status.is_partial(), matches!(status, Partial(_)));
    }
}

#[test]
fn compilations_follow_the_news() {
    assert!(matches!(
        CompilationStatus::after(UIExecutionStatus::Pending),
        CompilationStatus::Pending
    ));
    assert!(matches!(
        CompilationStatus::after(UIExecutionStatus::Started { worker: 3 }),
        CompilationStatus::Running
    ));
    assert!(matches!(
        CompilationStatus::after(UIExecutionStatus::Skipped),
        CompilationStatus::Skipped
    ));
    let compiled = CompilationStatus::after(done(ExecutionStatus::Success));
    assert!(matches!(&compiled, CompilationStatus::Done { stdout: None, stderr: None, .. }));
    let compiled = compiled.set_output(Stream::Stderr, "warning".into());
    let compiled = compiled.set_output(Stream::Stdout, "out".into());
    match &compiled {
        CompilationStatus::Done { stdout, stderr, .. } => {
            assert_eq!(stdout.as_deref(), Some("out"));
            assert_eq!(stderr.as_deref(), Some("warning"));
        }
        other => panic!("unexpected {:?}", other),
    }
    let broken = CompilationStatus::after(done(ExecutionStatus::ReturnCode(1)));
    match broken.set_output(Stream::Stderr, "error".into()) {
        CompilationStatus::Failed { stdout, stderr, .. } => {
            assert_eq!(stdout, None);
            assert_eq!(stderr.as_deref(), Some("error"));
        }
        other => panic!("unexpected {:?}", other),
    }
    assert!(matches!(
        CompilationStatus::Running.set_output(Stream::Stdout, "lost".into()),
        CompilationStatus::Running
    ));
}

#[test]
fn testcases_follow_the_phases() {
    let mut state = TestcaseGenerationState::new();
    assert_eq!(state.status, TestcaseGenerationStatus::Pending);
    state.record(Phase::Generation, UIExecutionStatus::Started { worker: 1 });
    assert_eq!(state.status, TestcaseGenerationStatus::Generating);
    state.record(Phase::Generation, done(ExecutionStatus::Success));
    assert_eq!(state.status, TestcaseGenerationStatus::Generated);
    assert!(state.generation.is_some());
    state.record(Phase::Validation, UIExecutionStatus::Started { worker: 1 });
    assert_eq!(state.status, TestcaseGenerationStatus::Validating);
    state.record(Phase::Validation, done(ExecutionStatus::ReturnCode(1)));
    assert_eq!(state.status, TestcaseGenerationStatus::Failed);
    assert!(state.validation.is_some());
    // A testcase that failed stays failed when what follows is skipped.
    state.record(Phase::Solution, UIExecutionStatus::Skipped);
    assert_eq!(state.status, TestcaseGenerationStatus::Failed);
    assert!(state.solution.is_none());
    state.record(Phase::Generation, UIExecutionStatus::Skipped);
    assert_eq!(state.status, TestcaseGenerationStatus::Skipped);
    state.record(Phase::Solution, UIExecutionStatus::Started { worker: 1 });
    assert_eq!(state.status, TestcaseGenerationStatus::Solving);
    state.record(Phase::Solution, done(ExecutionStatus::Success));
    assert_eq!(state.status, TestcaseGenerationStatus::Solved);
    state.record(Phase::Validation, UIExecutionStatus::Skipped);
    assert_eq!(state.status, TestcaseGenerationStatus::Skipped);
    state.record(Phase::Validation, UIExecutionStatus::Pending);
    assert_eq!(state.status, TestcaseGenerationStatus::Pending);
}

#[test]
fn evaluations_follow_the_solution_the_checker_and_the_score() {
    let mut state: SolutionTestcaseEvaluationState<f64> = SolutionTestcaseEvaluationState::new();
    state.record_evaluation(UIExecutionStatus::Pending);
    assert!(matches!(state.status, TestcaseEvaluationStatus::Pending));
    state.record_evaluation(UIExecutionStatus::Started { worker: 1 });
    assert!(matches!(state.status, TestcaseEvaluationStatus::Solving));
    state.record_evaluation(done(ExecutionStatus::Success));
    assert!(matches!(state.status, TestcaseEvaluationStatus::Solved));
    assert!(state.result.is_some());
    state.record_checker(UIExecutionStatus::Started { worker: 2 });
    assert!(matches!(state.status, TestcaseEvaluationStatus::Checking));
    state.record_checker(done(ExecutionStatus::Success));
    assert!(state.checker.is_some());
    assert!(matches!(state.status, TestcaseEvaluationStatus::Checking));
    state.record_score(1.0, Verdict::Correct, "Output is correct".into());
    assert_eq!(state.score, Some(1.0));
    assert!(matches!(&state.status, TestcaseEvaluationStatus::Accepted(m) if m == "Output is correct"));
    // A score that comes later changes the score, not the status.
    state.record_score(0.0, Verdict::Wrong, "late".into());
    assert_eq!(state.score, Some(0.0));
    assert!(state.status.is_success());

    let statuses = [
        (ExecutionStatus::ReturnCode(1), "Runtime error"),
        (ExecutionStatus::Signal(11, "SIGSEGV".into()), "Runtime error"),
        (ExecutionStatus::TimeLimitExceeded, "Time limit exceeded"),
        (ExecutionStatus::SysTimeLimitExceeded, "Time limit exceeded"),
        (ExecutionStatus::WallTimeLimitExceeded, "Execution took too long"),
        (ExecutionStatus::MemoryLimitExceeded, "Memory limit exceeded"),
        (ExecutionStatus::InternalError("x".into()), "Execution failed"),
    ];
    for (status, message) in statuses {
        let mut state: SolutionTestcaseEvaluationState<f64> = SolutionTestcaseEvaluationState::new();
        state.record_evaluation(done(status));
        assert_eq!(state.status.message(), message);
        state.record_score(0.5, Verdict::Partial, "ignored".into());
        assert_eq!(state.status.message(), message);
    }
    let mut skipped: SolutionTestcaseEvaluationState<f64> = SolutionTestcaseEvaluationState::new();
    skipped.record_evaluation(UIExecutionStatus::Skipped);
    assert!(matches!(skipped.status, TestcaseEvaluationStatus::Skipped));
    let mut partial: SolutionTestcaseEvaluationState<f64> = SolutionTestcaseEvaluationState::new();
    partial.record_score(0.5, Verdict::Partial, String::new());
    assert!(partial.status.is_partial());
    assert_eq!(partial.status.message(), "Partially correct");
    let mut wrong: SolutionTestcaseEvaluationState<f64> = SolutionTestcaseEvaluationState::new();
    wrong.record_score(0.0, Verdict::Wrong, String::new());
    assert_eq!(wrong.status.message(), "Output is not correct");
}
