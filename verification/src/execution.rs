//! One non-interactive run of an external command: what is to be run, what
//! came of it, and the logs it left.

use vstd::prelude::*;

verus! {

/// What to run: the program, its arguments, the environment variables to
/// set for it, and the directory to run it in.
#[derive(Debug)]
pub struct CommandSpec {
    pub program: String,
    pub args: Vec<String>,
    pub envs: Vec<(String, String)>,
    pub current_dir: Option<String>,
}

/// How a process ended: with an exit code, by a signal, or in a way that
/// the system reports as neither.
#[derive(Debug, Clone, Copy, PartialEq, Eq, Structural)]
pub struct ExitState {
    pub code: Option<i32>,
    pub signal: Option<i32>,
}

/// Why a run did not succeed.
#[derive(Debug)]
pub enum ExecutionError {
    /// The process could not be started or waited for.
    Io { message: String },
    /// The process ended with an exit code other than zero.
    Failure { exit_code: i32 },
    /// The process was ended by a signal.
    Killed { signal: i32 },
    /// The process ended with neither an exit code nor a signal.
    Unknown,
}

/// What came of starting the process and draining its two streams.
#[derive(Debug)]
pub enum ProcessOutcome {
    /// The process could not be started.
    SpawnFailed { message: String },
    /// Both streams were drained, but waiting for the process failed.
    WaitFailed { stdout: String, stderr: String, message: String },
    /// Both streams were drained and the process has ended.
    Exited { stdout: String, stderr: String, status: ExitState },
}

impl ExitState {
    /// Success is the exit code zero without a signal.
    pub open spec fn is_success(self) -> bool {
        self.code == Some(0i32) && self.signal is None
    }

    /// The error that an end other than success stands for. An exit code
    /// other than zero counts before a signal.
    pub open spec fn failure(self) -> ExecutionError {
        match (self.code, self.signal) {
            (Some(code), None) => ExecutionError::Failure { exit_code: code },
            (Some(code), Some(signal)) => if code != 0 {
                ExecutionError::Failure { exit_code: code }
            } else {
                ExecutionError::Killed { signal }
            },
            (None, Some(signal)) => ExecutionError::Killed { signal },
            (None, None) => ExecutionError::Unknown,
        }
    }

    /// The result of a run that ended in this way.
    pub open spec fn result(self) -> Result<(), ExecutionError> {
        if self.is_success() {
            Ok(())
        } else {
            Err(self.failure())
        }
    }

    /// Whether the process succeeded.
    pub fn success(&self) -> (res: bool)
        ensures
            res == self.is_success(),
    {
        match (self.code, self.signal) {
            (Some(code), None) => code == 0,
            _ => false,
        }
    }

    /// The result of a run that ended in this way: success for the exit
    /// code zero, else a failure that carries the exit code or the signal.
    pub fn into_result(self) -> (res: Result<(), ExecutionError>)
        ensures
            res == self.result(),
    {
        match (self.code, self.signal) {
            (Some(code), None) => {
                if code == 0 {
                    Ok(())
                } else {
                    Err(ExecutionError::Failure { exit_code: code })
                }
            },
            (Some(code), Some(signal)) => {
                if code != 0 {
                    Err(ExecutionError::Failure { exit_code: code })
                } else {
                    Err(ExecutionError::Killed { signal })
                }
            },
            (None, Some(signal)) => Err(ExecutionError::Killed { signal }),
            (None, None) => Err(ExecutionError::Unknown),
        }
    }
}

impl ProcessOutcome {
    /// The two logs that the outcome leaves, standard output first. A
    /// process that never started leaves two empty logs.
    pub open spec fn logs(self) -> (Seq<char>, Seq<char>) {
        match self {
            ProcessOutcome::SpawnFailed { .. } => (Seq::empty(), Seq::empty()),
            ProcessOutcome::WaitFailed { stdout, stderr, .. } => (stdout@, stderr@),
            ProcessOutcome::Exited { stdout, stderr, .. } => (stdout@, stderr@),
        }
    }

    /// The result that the outcome stands for.
    pub open spec fn result(self) -> Result<(), ExecutionError> {
        match self {
            ProcessOutcome::SpawnFailed { message } => Err(ExecutionError::Io { message }),
            ProcessOutcome::WaitFailed { message, .. } => Err(ExecutionError::Io { message }),
            ProcessOutcome::Exited { status, .. } => status.result(),
        }
    }
}

/// Non-interactive execution of one command.
#[derive(Debug)]
pub struct CommandExecution {
    command: CommandSpec,
    logs: Option<(String, String)>,
}

impl CommandExecution {
    /// What is to be run.
    pub closed spec fn spec_command(&self) -> CommandSpec {
        self.command
    }

    /// The logs of the last run, standard output first; none before the
    /// first run.
    pub closed spec fn logs(&self) -> Option<(Seq<char>, Seq<char>)> {
        match self.logs {
            Some((out, err)) => Some((out@, err@)),
            None => None,
        }
    }

    /// An execution of `command` that has not run yet.
    pub fn new(command: CommandSpec) -> (res: CommandExecution)
        ensures
            res.spec_command() == command,
            res.logs() is None,
    {
        CommandExecution { command, logs: None }
    }

    /// What is to be run.
    pub fn command(&self) -> (res: &CommandSpec)
        ensures
            *res == self.spec_command(),
    {
        &self.command
    }

    /// The logs of the last run: standard output, then standard error.
    pub fn get_logs(&self) -> (res: (Option<&String>, Option<&String>))
        ensures
            res.0 is Some <==> res.1 is Some,
            self.logs() == match res {
                (Some(out), Some(err)) => Some((out@, err@)),
                _ => None,
            },
    {
        match &self.logs {
            Some((out, err)) => (Some(out), Some(err)),
            None => (None, None),
        }
    }

    /// Takes in what came of running the command: the logs are kept, whether
    /// the run succeeded or not, and the result is success exactly when the
    /// process ended with the exit code zero.
    pub fn run(&mut self, outcome: ProcessOutcome) -> (res: Result<(), ExecutionError>)
        ensures
            final(self).spec_command() == old(self).spec_command(),
            final(self).logs() == Some(outcome.logs()),
            res == outcome.result(),
    {
        let (stdout, stderr, res) = match outcome {
            ProcessOutcome::SpawnFailed { message } => (
                String::new(),
                String::new(),
                Err(ExecutionError::Io { message }),
            ),
            ProcessOutcome::WaitFailed { stdout, stderr, message } => (
                stdout,
                stderr,
                Err(ExecutionError::Io { message }),
            ),
            ProcessOutcome::Exited { stdout, stderr, status } => (
                stdout,
                stderr,
                status.into_result(),
            ),
        };
        self.logs = Some((stdout, stderr));
        res
    }
}

/// A process that exits with the code zero has run with success, and its
/// two logs are kept as they were captured.
pub proof fn lemma_exit_zero_succeeds(stdout: String, stderr: String)
    ensures
        ({
            let status = ExitState { code: Some(0i32), signal: None };
            let outcome = ProcessOutcome::Exited { stdout, stderr, status };
            outcome.result() is Ok && outcome.logs() == (stdout@, stderr@)
        }),
{
}

/// A process that exits with a code other than zero has failed, the failure
/// carries that code, and the two logs are kept as they were captured.
pub proof fn lemma_exit_nonzero_fails(stdout: String, stderr: String, code: i32)
    requires
        code != 0,
    ensures
        ({
            let status = ExitState { code: Some(code), signal: None };
            let outcome = ProcessOutcome::Exited { stdout, stderr, status };
            outcome.result() == Err::<(), ExecutionError>(
                ExecutionError::Failure { exit_code: code },
            ) && outcome.logs() == (stdout@, stderr@)
        }),
{
}

/// A run succeeds only if the process has ended with the exit code zero and
/// without a signal.
pub proof fn lemma_success_means_exit_zero(outcome: ProcessOutcome)
    ensures
        outcome.result() is Ok <==> (outcome matches ProcessOutcome::Exited { status, .. }
            && status.code == Some(0i32) && status.signal is None),
{
}

} // verus!
