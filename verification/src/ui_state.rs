//! What a user interface keeps of the compilations, the generation of
//! the testcases and the evaluation of the solutions, and how the news
//! of an execution changes it.

use crate::dag::WorkerUuid;
use crate::proto::{ExecutionResult, ExecutionStatus, ResultView};
use vstd::prelude::*;
use vstd::string::StringExecFns;

verus! {

/// The news of an execution, as a user interface gets it.
#[derive(Clone, Debug)]
pub enum UIExecutionStatus {
    /// The execution is known, and has not started.
    Pending,
    /// The execution started on a worker.
    Started {
        /// The worker.
        worker: WorkerUuid,
    },
    /// The execution ended.
    Done {
        /// How it ended.
        result: ExecutionResult,
    },
    /// The execution was skipped.
    Skipped,
}

/// The status of the compilation of a file.
#[derive(Clone, Debug)]
pub enum CompilationStatus {
    /// The compilation is known, and has not started.
    Pending,
    /// The compilation runs on a worker.
    Running,
    /// The compilation has completed.
    Done {
        /// The result of the compilation.
        result: ExecutionResult,
        /// What the compiler wrote to its standard output.
        stdout: Option<String>,
        /// What the compiler wrote to its standard error.
        stderr: Option<String>,
    },
    /// The compilation has failed.
    Failed {
        /// The result of the compilation.
        result: ExecutionResult,
        /// What the compiler wrote to its standard output.
        stdout: Option<String>,
        /// What the compiler wrote to its standard error.
        stderr: Option<String>,
    },
    /// The compilation has been skipped.
    Skipped,
}

/// Which of the two streams of a compiler.
#[derive(Clone, Copy, Debug, PartialEq, Eq, Structural)]
pub enum Stream {
    /// The standard output.
    Stdout,
    /// The standard error.
    Stderr,
}

impl CompilationStatus {
    /// Whether `self` is what the news `status` makes of a compilation:
    /// whatever it was, it is pending, running, done where the
    /// execution returned zero, failed where it did not, or skipped,
    /// and nothing is known yet of what the compiler wrote.
    pub open spec fn follows(&self, status: UIExecutionStatus) -> bool {
        match status {
            UIExecutionStatus::Pending => *self is Pending,
            UIExecutionStatus::Started { .. } => *self is Running,
            UIExecutionStatus::Done { result } => if result.succeeded() {
                *self matches CompilationStatus::Done { result: kept, stdout, stderr } && kept
                    == result && stdout is None && stderr is None
            } else {
                *self matches CompilationStatus::Failed { result: kept, stdout, stderr } && kept
                    == result && stdout is None && stderr is None
            },
            UIExecutionStatus::Skipped => *self is Skipped,
        }
    }

    /// What the news `status` makes of a compilation.
    pub fn after(status: UIExecutionStatus) -> (next: CompilationStatus)
        ensures
            next.follows(status),
    {
        match status {
            UIExecutionStatus::Pending => CompilationStatus::Pending,
            UIExecutionStatus::Started { .. } => CompilationStatus::Running,
            UIExecutionStatus::Done { result } => {
                if result.is_success() {
                    CompilationStatus::Done { result, stdout: None, stderr: None }
                } else {
                    CompilationStatus::Failed { result, stdout: None, stderr: None }
                }
            },
            UIExecutionStatus::Skipped => CompilationStatus::Skipped,
        }
    }

    /// Whether `new` is `self` once the compiler is known to have
    /// written `content` to `stream`: a compilation that is done or has
    /// failed keeps the content, in place of what it kept for that
    /// stream; any other stays as it is.
    pub open spec fn wrote(&self, stream: Stream, content: String, new: &CompilationStatus) -> bool {
        match *self {
            CompilationStatus::Done { result, stdout, stderr } => *new
                == match stream {
                Stream::Stdout => CompilationStatus::Done { result, stdout: Some(content), stderr },
                Stream::Stderr => CompilationStatus::Done { result, stdout, stderr: Some(content) },
            },
            CompilationStatus::Failed { result, stdout, stderr } => *new
                == match stream {
                Stream::Stdout => CompilationStatus::Failed {
                    result,
                    stdout: Some(content),
                    stderr,
                },
                Stream::Stderr => CompilationStatus::Failed {
                    result,
                    stdout,
                    stderr: Some(content),
                },
            },
            _ => *new == *self,
        }
    }

    /// Keeps what the compiler wrote to `stream`.
    pub fn set_output(self, stream: Stream, content: String) -> (new: CompilationStatus)
        ensures
            self.wrote(stream, content, &new),
    {
        match self {
            CompilationStatus::Done { result, stdout, stderr } => match stream {
                Stream::Stdout => CompilationStatus::Done { result, stdout: Some(content), stderr },
                Stream::Stderr => CompilationStatus::Done { result, stdout, stderr: Some(content) },
            },
            CompilationStatus::Failed { result, stdout, stderr } => match stream {
                Stream::Stdout => CompilationStatus::Failed {
                    result,
                    stdout: Some(content),
                    stderr,
                },
                Stream::Stderr => CompilationStatus::Failed {
                    result,
                    stdout,
                    stderr: Some(content),
                },
            },
            other => other,
        }
    }
}

/// Status of the generation of the input and the output of a testcase.
#[derive(Clone, Copy, Debug, PartialEq, Eq, Structural)]
pub enum TestcaseGenerationStatus {
    /// The generation has not started yet.
    Pending,
    /// The input file is being generated.
    Generating,
    /// The input file has been generated.
    Generated,
    /// The input file is being validated.
    Validating,
    /// The input file has been validated.
    Validated,
    /// The output file is being generated.
    Solving,
    /// The output file has been generated.
    Solved,
    /// The generation of the testcase has failed.
    Failed,
    /// The generation has been skipped.
    Skipped,
}

/// One of the three executions that make a testcase.
#[derive(Clone, Copy, Debug, PartialEq, Eq, Structural)]
pub enum Phase {
    /// The generation of the input.
    Generation,
    /// The validation of the input.
    Validation,
    /// The generation of the output.
    Solution,
}

impl Phase {
    /// The status of a testcase while the execution of the phase runs.
    pub open spec fn running(self) -> TestcaseGenerationStatus {
        match self {
            Phase::Generation => TestcaseGenerationStatus::Generating,
            Phase::Validation => TestcaseGenerationStatus::Validating,
            Phase::Solution => TestcaseGenerationStatus::Solving,
        }
    }

    /// The status of a testcase once the execution of the phase has
    /// returned zero.
    pub open spec fn completed(self) -> TestcaseGenerationStatus {
        match self {
            Phase::Generation => TestcaseGenerationStatus::Generated,
            Phase::Validation => TestcaseGenerationStatus::Validated,
            Phase::Solution => TestcaseGenerationStatus::Solved,
        }
    }
}

/// State of the generation of a testcase.
#[derive(Clone, Debug)]
pub struct TestcaseGenerationState {
    /// Status of the generation.
    pub status: TestcaseGenerationStatus,
    /// Result of the generation.
    pub generation: Option<ExecutionResult>,
    /// What the generator wrote to its standard error.
    pub generation_stderr: Option<String>,
    /// Result of the validation.
    pub validation: Option<ExecutionResult>,
    /// What the validator wrote to its standard error.
    pub validation_stderr: Option<String>,
    /// Result of the solution.
    pub solution: Option<ExecutionResult>,
}

/// The status that the news `status` of the phase `phase` gives to a
/// testcase whose status was `old`: pending, running, completed where
/// the execution returned zero, failed where it did not; where the
/// execution is skipped, skipped, but a testcase that has failed a
/// phase behind the generation stays failed.
pub open spec fn generation_status(
    old: TestcaseGenerationStatus,
    phase: Phase,
    status: UIExecutionStatus,
) -> TestcaseGenerationStatus {
    match status {
        UIExecutionStatus::Pending => TestcaseGenerationStatus::Pending,
        UIExecutionStatus::Started { .. } => phase.running(),
        UIExecutionStatus::Done { result } => if result.succeeded() {
            phase.completed()
        } else {
            TestcaseGenerationStatus::Failed
        },
        UIExecutionStatus::Skipped => if phase != Phase::Generation && old
            == TestcaseGenerationStatus::Failed {
            TestcaseGenerationStatus::Failed
        } else {
            TestcaseGenerationStatus::Skipped
        },
    }
}

impl TestcaseGenerationState {
    /// A testcase of which nothing is known yet.
    pub fn new() -> (state: TestcaseGenerationState)
        ensures
            state.status == TestcaseGenerationStatus::Pending,
            state.generation is None,
            state.generation_stderr is None,
            state.validation is None,
            state.validation_stderr is None,
            state.solution is None,
    {
        TestcaseGenerationState {
            status: TestcaseGenerationStatus::Pending,
            generation: None,
            generation_stderr: None,
            validation: None,
            validation_stderr: None,
            solution: None,
        }
    }

    /// Whether `new` is `self` after the news `status` of the phase
    /// `phase`: the status follows, the result of an execution that
    /// ended is kept for its phase, and the rest stays.
    pub open spec fn told(&self, phase: Phase, status: UIExecutionStatus, new: &TestcaseGenerationState) -> bool {
        &&& new.status == generation_status(self.status, phase, status)
        &&& new.generation_stderr == self.generation_stderr
        &&& new.validation_stderr == self.validation_stderr
        &&& new.generation == if phase == Phase::Generation && status is Done {
            Some(status->result)
        } else {
            self.generation
        }
        &&& new.validation == if phase == Phase::Validation && status is Done {
            Some(status->result)
        } else {
            self.validation
        }
        &&& new.solution == if phase == Phase::Solution && status is Done {
            Some(status->result)
        } else {
            self.solution
        }
    }

    /// Takes the news `status` of the phase `phase`.
    pub fn record(&mut self, phase: Phase, status: UIExecutionStatus)
        ensures
            old(self).told(phase, status, final(self)),
    {
        match status {
            UIExecutionStatus::Pending => {
                self.status = TestcaseGenerationStatus::Pending;
            },
            UIExecutionStatus::Started { .. } => {
                self.status = match phase {
                    Phase::Generation => TestcaseGenerationStatus::Generating,
                    Phase::Validation => TestcaseGenerationStatus::Validating,
                    Phase::Solution => TestcaseGenerationStatus::Solving,
                };
            },
            UIExecutionStatus::Done { result } => {
                if result.is_success() {
                    self.status = match phase {
                        Phase::Generation => TestcaseGenerationStatus::Generated,
                        Phase::Validation => TestcaseGenerationStatus::Validated,
                        Phase::Solution => TestcaseGenerationStatus::Solved,
                    };
                } else {
                    self.status = TestcaseGenerationStatus::Failed;
                }
                match phase {
                    Phase::Generation => {
                        self.generation = Some(result);
                    },
                    Phase::Validation => {
                        self.validation = Some(result);
                    },
                    Phase::Solution => {
                        self.solution = Some(result);
                    },
                }
            },
            UIExecutionStatus::Skipped => {
                let stays = match (phase, self.status) {
                    (Phase::Generation, _) => false,
                    (_, TestcaseGenerationStatus::Failed) => true,
                    _ => false,
                };
                if !stays {
                    self.status = TestcaseGenerationStatus::Skipped;
                }
            },
        }
    }
}

/// Status of the evaluation of a solution on a testcase.
#[derive(Clone, Debug)]
pub enum TestcaseEvaluationStatus {
    /// The solution has not started yet.
    Pending,
    /// The solution is running.
    Solving,
    /// The solution exited successfully, waiting for the checker.
    Solved,
    /// Checker is running.
    Checking,
    /// The solution scored 100% of the testcase.
    Accepted(String),
    /// The output is wrong.
    WrongAnswer(String),
    /// The solution is partially correct.
    Partial(String),
    /// The solution timed out.
    TimeLimitExceeded,
    /// The solution exceeded the wall time limit.
    WallTimeLimitExceeded,
    /// The solution exceeded the memory limit.
    MemoryLimitExceeded,
    /// The solution crashed.
    RuntimeError,
    /// Something went wrong.
    Failed,
    /// The evaluation has been skipped.
    Skipped,
}

impl TestcaseEvaluationStatus {
    /// Whether the evaluation of the testcase has completed, with
    /// success or without.
    pub open spec fn completed(&self) -> bool {
        !(*self is Pending || *self is Solving || *self is Solved || *self is Checking)
    }

    /// The message of a status that the checker explained with
    /// `explained`: the explanation, or `default` where there is none.
    pub open spec fn explained_or(explained: Seq<char>, default: Seq<char>) -> Seq<char> {
        if explained.len() == 0 {
            default
        } else {
            explained
        }
    }

    /// The message that stands for the status.
    pub open spec fn message_text(&self) -> Seq<char> {
        match *self {
            TestcaseEvaluationStatus::Pending => "Not done"@,
            TestcaseEvaluationStatus::Solving => "Solution running"@,
            TestcaseEvaluationStatus::Solved => "Solution completed"@,
            TestcaseEvaluationStatus::Checking => "Checker running"@,
            TestcaseEvaluationStatus::Accepted(s) => Self::explained_or(s@, "Output is correct"@),
            TestcaseEvaluationStatus::WrongAnswer(s) => Self::explained_or(
                s@,
                "Output is not correct"@,
            ),
            TestcaseEvaluationStatus::Partial(s) => Self::explained_or(s@, "Partially correct"@),
            TestcaseEvaluationStatus::TimeLimitExceeded => "Time limit exceeded"@,
            TestcaseEvaluationStatus::WallTimeLimitExceeded => "Execution took too long"@,
            TestcaseEvaluationStatus::MemoryLimitExceeded => "Memory limit exceeded"@,
            TestcaseEvaluationStatus::RuntimeError => "Runtime error"@,
            TestcaseEvaluationStatus::Failed => "Execution failed"@,
            TestcaseEvaluationStatus::Skipped => "Execution skipped"@,
        }
    }

    /// Whether the testcase evaluation has completed, either
    /// successfully or not.
    #[verifier::when_used_as_spec(completed)]
    pub fn has_completed(&self) -> (yes: bool)
        ensures
            yes == self.completed(),
    {
        match self {
            TestcaseEvaluationStatus::Pending
            | TestcaseEvaluationStatus::Solving
            | TestcaseEvaluationStatus::Solved
            | TestcaseEvaluationStatus::Checking => false,
            _ => true,
        }
    }

    /// Whether the testcase evaluation has completed successfully.
    pub fn is_success(&self) -> (yes: bool)
        ensures
            yes == (*self is Accepted),
    {
        match self {
            TestcaseEvaluationStatus::Accepted(_) => true,
            _ => false,
        }
    }

    /// Whether the testcase evaluation has completed with a partial
    /// score.
    pub fn is_partial(&self) -> (yes: bool)
        ensures
            yes == (*self is Partial),
    {
        match self {
            TestcaseEvaluationStatus::Partial(_) => true,
            _ => false,
        }
    }

    /// The explanation `s`, or `default` where there is none.
    fn explained(s: &String, default: &str) -> (text: String)
        ensures
            text@ == Self::explained_or(s@, default@),
    {
        if s.as_str().unicode_len() == 0 {
            String::from_str(default)
        } else {
            s.clone()
        }
    }

    /// A message representing this status.
    pub fn message(&self) -> (text: String)
        ensures
            text@ == self.message_text(),
    {
        match self {
            TestcaseEvaluationStatus::Pending => String::from_str("Not done"),
            TestcaseEvaluationStatus::Solving => String::from_str("Solution running"),
            TestcaseEvaluationStatus::Solved => String::from_str("Solution completed"),
            TestcaseEvaluationStatus::Checking => String::from_str("Checker running"),
            TestcaseEvaluationStatus::Accepted(s) => Self::explained(s, "Output is correct"),
            TestcaseEvaluationStatus::WrongAnswer(s) => Self::explained(s, "Output is not correct"),
            TestcaseEvaluationStatus::Partial(s) => Self::explained(s, "Partially correct"),
            TestcaseEvaluationStatus::TimeLimitExceeded => String::from_str("Time limit exceeded"),
            TestcaseEvaluationStatus::WallTimeLimitExceeded => String::from_str(
                "Execution took too long",
            ),
            TestcaseEvaluationStatus::MemoryLimitExceeded => String::from_str(
                "Memory limit exceeded",
            ),
            TestcaseEvaluationStatus::RuntimeError => String::from_str("Runtime error"),
            TestcaseEvaluationStatus::Failed => String::from_str("Execution failed"),
            TestcaseEvaluationStatus::Skipped => String::from_str("Execution skipped"),
        }
    }

    /// The status of a testcase whose solution ended as `result` says.
    pub open spec fn of(result: ResultView) -> TestcaseEvaluationStatus {
        match result.status {
            crate::proto::StatusView::Success => TestcaseEvaluationStatus::Solved,
            crate::proto::StatusView::ReturnCode(_) => TestcaseEvaluationStatus::RuntimeError,
            crate::proto::StatusView::Signal(_, _) => TestcaseEvaluationStatus::RuntimeError,
            crate::proto::StatusView::TimeLimitExceeded => TestcaseEvaluationStatus::TimeLimitExceeded,
            crate::proto::StatusView::SysTimeLimitExceeded => TestcaseEvaluationStatus::TimeLimitExceeded,
            crate::proto::StatusView::WallTimeLimitExceeded => TestcaseEvaluationStatus::WallTimeLimitExceeded,
            crate::proto::StatusView::MemoryLimitExceeded => TestcaseEvaluationStatus::MemoryLimitExceeded,
            crate::proto::StatusView::InternalError(_) => TestcaseEvaluationStatus::Failed,
        }
    }
}

/// What a score says of an output.
#[derive(Clone, Copy, Debug, PartialEq, Eq, Structural)]
pub enum Verdict {
    /// The score is zero.
    Wrong,
    /// The score is the whole, or less than a thousandth off.
    Correct,
    /// The score is something between.
    Partial,
}

/// State of the evaluation of a solution on a testcase, with scores of
/// the type `S`.
#[derive(Clone, Debug)]
pub struct SolutionTestcaseEvaluationState<S> {
    /// The score on that testcase.
    pub score: Option<S>,
    /// The status of the execution.
    pub status: TestcaseEvaluationStatus,
    /// The result of the solution.
    pub result: Option<ExecutionResult>,
    /// The result of the checker.
    pub checker: Option<ExecutionResult>,
}

impl<S> SolutionTestcaseEvaluationState<S> {
    /// A testcase on which the solution has not started yet.
    pub fn new() -> (state: Self)
        ensures
            state.score is None,
            state.status is Pending,
            state.result is None,
            state.checker is None,
    {
        SolutionTestcaseEvaluationState {
            score: None,
            status: TestcaseEvaluationStatus::Pending,
            result: None,
            checker: None,
        }
    }

    /// Whether `new` is `self` after the news `status` of the solution:
    /// a pending execution changes nothing; one that started is
    /// running; one that ended gives the status that stands for its
    /// result, and the result is kept; one that was skipped is skipped.
    pub open spec fn evaluated(&self, status: UIExecutionStatus, new: &Self) -> bool {
        &&& new.score == self.score
        &&& new.checker == self.checker
        &&& match status {
            UIExecutionStatus::Pending => new.status == self.status && new.result == self.result,
            UIExecutionStatus::Started { .. } => new.status is Solving && new.result
                == self.result,
            UIExecutionStatus::Done { result } => new.status == TestcaseEvaluationStatus::of(
                result@,
            ) && new.result == Some(result),
            UIExecutionStatus::Skipped => new.status is Skipped && new.result == self.result,
        }
    }

    /// Takes the news `status` of the solution.
    pub fn record_evaluation(&mut self, status: UIExecutionStatus)
        ensures
            old(self).evaluated(status, final(self)),
    {
        match status {
            UIExecutionStatus::Pending => {},
            UIExecutionStatus::Started { .. } => {
                self.status = TestcaseEvaluationStatus::Solving;
            },
            UIExecutionStatus::Done { result } => {
                self.status = match &result.status {
                    ExecutionStatus::Success => TestcaseEvaluationStatus::Solved,
                    ExecutionStatus::ReturnCode(_) => TestcaseEvaluationStatus::RuntimeError,
                    ExecutionStatus::Signal(_, _) => TestcaseEvaluationStatus::RuntimeError,
                    ExecutionStatus::TimeLimitExceeded => TestcaseEvaluationStatus::TimeLimitExceeded,
                    ExecutionStatus::SysTimeLimitExceeded => TestcaseEvaluationStatus::TimeLimitExceeded,
                    ExecutionStatus::WallTimeLimitExceeded => TestcaseEvaluationStatus::WallTimeLimitExceeded,
                    ExecutionStatus::MemoryLimitExceeded => TestcaseEvaluationStatus::MemoryLimitExceeded,
                    ExecutionStatus::InternalError(_) => TestcaseEvaluationStatus::Failed,
                };
                self.result = Some(result);
            },
            UIExecutionStatus::Skipped => {
                self.status = TestcaseEvaluationStatus::Skipped;
            },
        }
    }

    /// Whether `new` is `self` after the news `status` of the checker:
    /// a checker that started makes the status say so, one that ended
    /// leaves its result, and any other news changes nothing.
    pub open spec fn checked(&self, status: UIExecutionStatus, new: &Self) -> bool {
        &&& new.score == self.score
        &&& new.result == self.result
        &&& match status {
            UIExecutionStatus::Started { .. } => new.status is Checking && new.checker
                == self.checker,
            UIExecutionStatus::Done { result } => new.status == self.status && new.checker == Some(
                result,
            ),
            _ => new.status == self.status && new.checker == self.checker,
        }
    }

    /// Takes the news `status` of the checker.
    pub fn record_checker(&mut self, status: UIExecutionStatus)
        ensures
            old(self).checked(status, final(self)),
    {
        match status {
            UIExecutionStatus::Started { .. } => {
                self.status = TestcaseEvaluationStatus::Checking;
            },
            UIExecutionStatus::Done { result } => {
                self.checker = Some(result);
            },
            _ => {},
        }
    }

    /// Whether `new` is `self` after the score `score` came, of which
    /// `verdict` says what it is, with the message `message`: the score
    /// is kept; and an evaluation that had not completed is accepted,
    /// wrong or partly right, as the verdict says, with the message.
    pub open spec fn scored(&self, score: S, verdict: Verdict, message: String, new: &Self) -> bool {
        &&& new.score == Some(score)
        &&& new.result == self.result
        &&& new.checker == self.checker
        &&& new.status == if self.status.completed() {
            self.status
        } else {
            match verdict {
                Verdict::Wrong => TestcaseEvaluationStatus::WrongAnswer(message),
                Verdict::Correct => TestcaseEvaluationStatus::Accepted(message),
                Verdict::Partial => TestcaseEvaluationStatus::Partial(message),
            }
        }
    }

    /// Takes the score of the solution on the testcase.
    pub fn record_score(&mut self, score: S, verdict: Verdict, message: String)
        ensures
            old(self).scored(score, verdict, message, final(self)),
    {
        self.score = Some(score);
        if !self.status.has_completed() {
            self.status = match verdict {
                Verdict::Wrong => TestcaseEvaluationStatus::WrongAnswer(message),
                Verdict::Correct => TestcaseEvaluationStatus::Accepted(message),
                Verdict::Partial => TestcaseEvaluationStatus::Partial(message),
            };
        }
    }
}

} // verus!
