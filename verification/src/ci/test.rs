//! Judging one run of a solution against the expected output.
use vstd::prelude::*;
use crate::ci::exec::{ExecutionOutput, ExitKind};

verus! {

/// The verdict on one test.
#[derive(Debug, PartialEq, Eq, Structural)]
pub enum Verdict {
    Accepted { alternative: bool },
    WrongAnswer,
    RuntimeError,
    TimeLimitExceeded,
    IgnoredNoOut,
}

/// The result of one test.
#[derive(Debug)]
pub struct Outcome {
    pub verdict: Verdict,
    pub out: String,
    pub stderr: String,
    pub time: std::time::Duration,
}

/// `judge` may answer `verdict` when it compares the output `out` with `desired`.
pub open spec fn judges<F: Fn(&str, &str, &str) -> bool>(
    judge: F,
    input: &str,
    desired: &str,
    out: Seq<char>,
    verdict: bool,
) -> bool {
    exists|o: &str| o@ == out && #[trigger] call_ensures(judge, (input, desired, o), verdict)
}

/// The text that names a verdict.
pub open spec fn verdict_label(v: Verdict) -> Seq<char> {
    match v {
        Verdict::Accepted { .. } => "Accept"@,
        Verdict::WrongAnswer => "Wrong Answer"@,
        Verdict::RuntimeError => "Runtime Error"@,
        Verdict::TimeLimitExceeded => "Time Limit Exceeded"@,
        Verdict::IgnoredNoOut => "Ignored (no out)"@,
    }
}

/// The verdicts that a run may get: a run that ran out of time or failed gets
/// that verdict, one with no desired output is not judged, and otherwise the
/// verdict follows what `judge` answers for the desired and then for the
/// alternative output.
pub open spec fn verdict_allowed<F: Fn(&str, &str, &str) -> bool>(
    judge: F,
    exit_kind: ExitKind,
    success: bool,
    input: &str,
    desired: Option<&str>,
    alternative: Option<&str>,
    out: Seq<char>,
    verdict: Verdict,
) -> bool {
    match exit_kind {
        ExitKind::TimeLimitExceeded => verdict == Verdict::TimeLimitExceeded,
        ExitKind::Normal => if !success {
            verdict == Verdict::RuntimeError
        } else {
            match desired {
                None => verdict == Verdict::IgnoredNoOut,
                Some(d) => match verdict {
                    Verdict::Accepted { alternative: false } => judges(judge, input, d, out, true),
                    Verdict::Accepted { alternative: true } => {
                        &&& alternative is Some
                        &&& judges(judge, input, d, out, false)
                        &&& judges(judge, input, alternative->0, out, true)
                    },
                    Verdict::WrongAnswer => {
                        &&& judges(judge, input, d, out, false)
                        &&& alternative is Some ==> judges(judge, input, alternative->0, out, false)
                    },
                    _ => false,
                },
            }
        },
    }
}

/// A test passes only on a run that exited by itself with success, had a
/// desired output to compare with, and whose output the judge accepted; an
/// acceptance by the alternative output needs an alternative output.
pub proof fn lemma_accepted_run<F: Fn(&str, &str, &str) -> bool>(
    judge: F,
    exit_kind: ExitKind,
    success: bool,
    input: &str,
    desired: Option<&str>,
    alternative: Option<&str>,
    out: Seq<char>,
    verdict: Verdict,
)
    requires
        verdict_allowed(judge, exit_kind, success, input, desired, alternative, out, verdict),
        verdict.success_spec(),
    ensures
        exit_kind == ExitKind::Normal,
        success,
        desired is Some,
        verdict->alternative ==> alternative is Some,
        !verdict->alternative ==> judges(judge, input, desired->0, out, true),
        verdict->alternative ==> judges(judge, input, alternative->0, out, true),
{
}

impl Verdict {
    /// Whether the verdict is a pass.
    pub open spec fn success_spec(&self) -> bool {
        self is Accepted
    }

    /// The name of the verdict as it is shown to the user.
    pub fn to_string(&self) -> (label: String)
        ensures
            label@ == verdict_label(*self),
    {
        let text: &str = match self {
            Verdict::Accepted { .. } => "Accept",
            Verdict::WrongAnswer => "Wrong Answer",
            Verdict::RuntimeError => "Runtime Error",
            Verdict::TimeLimitExceeded => "Time Limit Exceeded",
            Verdict::IgnoredNoOut => "Ignored (no out)",
        };
        text.to_owned()
    }

    pub fn success(&self) -> (ok: bool)
        ensures
            ok == self.success_spec(),
    {
        match self {
            Verdict::Accepted { .. } => true,
            _ => false,
        }
    }
}

impl Outcome {
    pub fn success(&self) -> (ok: bool)
        ensures
            ok == self.verdict.success_spec(),
    {
        self.verdict.success()
    }
}

/// Judges the run of a solution on `input`: a run that ran out of time or
/// failed gets that verdict; otherwise its output is compared by `judge`
/// with the `desired` output and, where that fails, with the `alternative`.
pub fn simple_test<F: Fn(&str, &str, &str) -> bool>(
    run: ExecutionOutput,
    input: &str,
    desired: Option<&str>,
    alternative: Option<&str>,
    judge: &F,
) -> (outcome: Outcome)
    requires
        forall|i: &str, d: &str, o: &str| call_requires(*judge, (i, d, o)),
    ensures
        outcome.out == run.stdout,
        outcome.stderr == run.stderr,
        outcome.time == run.time,
        verdict_allowed(*judge, run.exit_kind, run.success, input, desired, alternative, run.stdout@, outcome.verdict),
{
    let verdict = match run.exit_kind {
        ExitKind::Normal => {
            if run.success {
                if let Some(desired) = desired {
                    let out: &str = run.stdout.as_str();
                    if judge(input, desired, out) {
                        Verdict::Accepted { alternative: false }
                    } else if let Some(alternative) = alternative {
                        if judge(input, alternative, out) {
                            Verdict::Accepted { alternative: true }
                        } else {
                            Verdict::WrongAnswer
                        }
                    } else {
                        Verdict::WrongAnswer
                    }
                } else {
                    Verdict::IgnoredNoOut
                }
            } else {
                Verdict::RuntimeError
            }
        },
        ExitKind::TimeLimitExceeded => Verdict::TimeLimitExceeded,
    };
    Outcome { verdict, out: run.stdout, stderr: run.stderr, time: run.time }
}

} // verus!
