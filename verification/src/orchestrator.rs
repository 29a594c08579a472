//! Install/remove orchestration: a single-flight state machine that owns
//! the live operation and streams ordered progress/log events to the one
//! observer.
//!
//! The surrounding application runs the privileged subprocess on a
//! background thread; it feeds every subprocess log line into
//! `handle_log_line` and reports the exit status through `complete`. All
//! state transitions and the event discipline are decided and proved here.

use vstd::prelude::*;

verus! {

/// What the accepted operation does.
#[derive(Debug, Clone)]
pub enum OperationKind {
    ExpressInstall,
    CustomInstall { version: String, use_open_kernel: bool },
    Remove { deep_clean: bool },
}

/// Lifecycle state of the orchestrator.
#[derive(Debug, Clone, Copy, PartialEq, Eq, Structural)]
pub enum OperationStatus {
    Idle,
    Running,
    Succeeded,
    Failed,
}

/// One entry of the ordered event stream delivered to the observer.
#[derive(Debug, Clone, PartialEq)]
pub enum ObserverEvent {
    LogLine(String),
    Progress(i32),
    Terminal(OperationStatus),
}

/// Synthetic progress advance per log event, fixed per operation kind.
pub open spec fn increment_of(k: OperationKind) -> int {
    match k {
        OperationKind::ExpressInstall => 5,
        OperationKind::CustomInstall { .. } => 2,
        OperationKind::Remove { .. } => 10,
    }
}

/// The progress values carried by an event stream, in emission order.
pub open spec fn progress_values(es: Seq<ObserverEvent>) -> Seq<int>
    decreases es.len(),
{
    if es.len() == 0 {
        Seq::empty()
    } else {
        let rest = progress_values(es.drop_last());
        match es.last() {
            ObserverEvent::Progress(v) => rest.push(v as int),
            _ => rest,
        }
    }
}

/// Some event of the stream is terminal.
pub open spec fn has_terminal(es: Seq<ObserverEvent>) -> bool {
    exists|i: int| 0 <= i < es.len() && (es[i] is Terminal)
}

/// The values never decrease along the sequence.
pub open spec fn non_decreasing(s: Seq<int>) -> bool {
    forall|i: int, j: int| 0 <= i <= j < s.len() ==> s[i] <= s[j]
}

/// The first line the log carries when an operation is accepted.
pub open spec fn initial_line_of(k: OperationKind) -> Seq<char> {
    match k {
        OperationKind::ExpressInstall => "Starting express installation..."@,
        OperationKind::CustomInstall { version, use_open_kernel } => "Starting custom installation (v"@
            + version@ + ", OpenKernel: "@ + (if use_open_kernel {
            "true"@
        } else {
            "false"@
        }) + ")..."@,
        OperationKind::Remove { deep_clean } => if deep_clean {
            "Removing drivers with deep clean..."@
        } else {
            "Removing drivers..."@
        },
    }
}

/// The final human-readable outcome line, per kind and exit status.
pub open spec fn outcome_line_of(k: OperationKind, success: bool) -> Seq<char> {
    match k {
        OperationKind::ExpressInstall => if success {
            "Installation completed successfully.\nPlease REBOOT your system."@
        } else {
            "Installation FAILED.\nCheck logs for details."@
        },
        OperationKind::CustomInstall { version, .. } => if success {
            "v"@ + version@ + " installation complete. REBOOT required."@
        } else {
            "Installation failed."@
        },
        OperationKind::Remove { .. } => if success {
            "Removal complete. Reboot to nouveau."@
        } else {
            "Removal failed."@
        },
    }
}

/// The orchestrator: owns the live operation; at most one runs at a time.
#[derive(Debug)]
pub struct InstallOrchestrator {
    pub kind: OperationKind,
    pub status: OperationStatus,
    pub progress: i32,
    pub log: Vec<String>,
    pub events: Vec<ObserverEvent>,
}

impl InstallOrchestrator {
    /// Well-formedness: the progress/event discipline of the current state.
    pub open spec fn wf(self) -> bool {
        let pv = progress_values(self.events@);
        &&& 0 <= self.progress <= 100
        &&& match self.status {
            OperationStatus::Idle => {
                &&& self.progress == 0
                &&& self.events@.len() == 0
                &&& self.log@.len() == 0
            },
            OperationStatus::Running => {
                &&& self.progress <= 90
                &&& self.progress as int % increment_of(self.kind) == 0
                &&& !has_terminal(self.events@)
                &&& non_decreasing(pv)
                &&& forall|i: int| 0 <= i < pv.len() ==> 0 <= #[trigger] pv[i] <= 90
                &&& pv.len() > 0 ==> pv.last() == self.progress
                &&& pv.len() == 0 ==> self.progress == 0
            },
            OperationStatus::Succeeded => {
                &&& self.progress == 100
                &&& pv.len() > 0
                &&& pv.last() == 100
                &&& non_decreasing(pv)
                &&& forall|i: int| 0 <= i < pv.len() - 1 ==> 0 <= #[trigger] pv[i] <= 90
                &&& self.events@.len() > 0
                &&& self.events@.last() == ObserverEvent::Terminal(OperationStatus::Succeeded)
            },
            OperationStatus::Failed => {
                &&& self.progress == 0
                &&& pv.len() > 0
                &&& pv.last() == 0
                &&& non_decreasing(pv.drop_last())
                &&& forall|i: int| 0 <= i < pv.len() - 1 ==> 0 <= #[trigger] pv[i] <= 90
                &&& self.events@.len() > 0
                &&& self.events@.last() == ObserverEvent::Terminal(OperationStatus::Failed)
            },
        }
    }

    /// A fresh orchestrator with no operation.
    pub fn new() -> (s: Self)
        ensures
            s.wf(),
            s.status is Idle,
            s.progress == 0,
            s.log@.len() == 0,
            s.events@.len() == 0,
    {
        InstallOrchestrator {
            kind: OperationKind::ExpressInstall,
            status: OperationStatus::Idle,
            progress: 0,
            log: Vec::new(),
            events: Vec::new(),
        }
    }

    /// What every accepted request establishes: log cleared to the initial
    /// line, progress reset, status `Running`, no events yet.
    pub open spec fn accepted_state(self, k: OperationKind) -> bool {
        &&& self.status is Running
        &&& self.kind == k
        &&& self.progress == 0
        &&& self.log@.len() == 1
        &&& self.log@[0]@ == initial_line_of(k)
        &&& self.events@.len() == 0
    }

    /// Accept an express install unless an operation is already running.
    /// A request while `Running` is a silent no-op.
    pub fn accept_express_install(&mut self) -> (accepted: bool)
        requires
            old(self).wf(),
        ensures
            final(self).wf(),
            old(self).status is Running ==> !accepted && *final(self) == *old(self),
            !(old(self).status is Running) ==> accepted && final(self).accepted_state(
                OperationKind::ExpressInstall,
            ),
    {
        if matches!(self.status, OperationStatus::Running) {
            return false;
        }
        self.start(OperationKind::ExpressInstall, String::from_str("Starting express installation..."));
        true
    }

    /// Accept a custom install of `version`, with the chosen kernel-module
    /// flavor, unless an operation is already running.
    pub fn accept_custom_install(&mut self, version: String, use_open_kernel: bool) -> (accepted:
        bool)
        requires
            old(self).wf(),
        ensures
            final(self).wf(),
            old(self).status is Running ==> !accepted && *final(self) == *old(self),
            !(old(self).status is Running) ==> accepted && final(self).accepted_state(
                OperationKind::CustomInstall { version, use_open_kernel },
            ),
    {
        if matches!(self.status, OperationStatus::Running) {
            return false;
        }
        let mut line = String::from_str("Starting custom installation (v");
        line.append(version.as_str());
        line.append(", OpenKernel: ");
        if use_open_kernel {
            line.append("true");
        } else {
            line.append("false");
        }
        line.append(")...");
        self.start(OperationKind::CustomInstall { version, use_open_kernel }, line);
        true
    }

    /// Accept a driver removal, with or without deep clean, unless an
    /// operation is already running.
    pub fn accept_remove(&mut self, deep_clean: bool) -> (accepted: bool)
        requires
            old(self).wf(),
        ensures
            final(self).wf(),
            old(self).status is Running ==> !accepted && *final(self) == *old(self),
            !(old(self).status is Running) ==> accepted && final(self).accepted_state(
                OperationKind::Remove { deep_clean },
            ),
    {
        if matches!(self.status, OperationStatus::Running) {
            return false;
        }
        let line = if deep_clean {
            String::from_str("Removing drivers with deep clean...")
        } else {
            String::from_str("Removing drivers...")
        };
        self.start(OperationKind::Remove { deep_clean }, line);
        true
    }

    /// Reset state for a newly accepted operation.
    fn start(&mut self, k: OperationKind, line: String)
        requires
            !(old(self).status is Running),
            line@ == initial_line_of(k),
        ensures
            final(self).wf(),
            final(self).accepted_state(k),
    {
        self.kind = k;
        self.status = OperationStatus::Running;
        self.progress = 0;
        self.log = Vec::new();
        self.log.push(line);
        self.events = Vec::new();
        proof {
            assert(progress_values(self.events@) =~= Seq::<int>::empty());
        }
    }

    /// Forward one subprocess log line to the observer: append it to the
    /// log, emit it as an event, and advance the synthetic progress counter
    /// by the kind's increment, capped at 90 until completion. A call
    /// outside `Running` changes nothing.
    pub fn handle_log_line(&mut self, line: String)
        requires
            old(self).wf(),
        ensures
            final(self).wf(),
            !(old(self).status is Running) ==> *final(self) == *old(self),
            old(self).status is Running ==> {
                &&& final(self).status is Running
                &&& final(self).kind == old(self).kind
                &&& final(self).log@ == old(self).log@.push(line)
                &&& if old(self).progress < 90 {
                    &&& final(self).progress == old(self).progress + increment_of(old(self).kind)
                    &&& final(self).events@ == old(self).events@.push(
                        ObserverEvent::LogLine(line),
                    ).push(
                        ObserverEvent::Progress((old(self).progress + increment_of(
                            old(self).kind,
                        )) as i32),
                    )
                } else {
                    &&& final(self).progress == old(self).progress
                    &&& final(self).events@ == old(self).events@.push(ObserverEvent::LogLine(line))
                }
            },
    {
        if !matches!(self.status, OperationStatus::Running) {
            return ;
        }
        let ghost es0 = self.events@;
        let ghost pv0 = progress_values(es0);
        let line_copy = line.clone();
        self.log.push(line);
        proof {
            lemma_progress_values_push_other(es0, ObserverEvent::LogLine(line_copy));
            lemma_push_preserves_no_terminal(es0, ObserverEvent::LogLine(line_copy));
        }
        self.events.push(ObserverEvent::LogLine(line_copy));
        if self.progress < 90 {
            let inc: i32 = match self.kind {
                OperationKind::ExpressInstall => 5,
                OperationKind::CustomInstall { .. } => 2,
                OperationKind::Remove { .. } => 10,
            };
            proof {
                lemma_aligned_below_ceiling(self.progress as int, inc as int);
            }
            self.progress = self.progress + inc;
            proof {
                lemma_progress_values_push_progress(self.events@, self.progress);
                lemma_push_preserves_no_terminal(
                    self.events@,
                    ObserverEvent::Progress(self.progress),
                );
            }
            self.events.push(ObserverEvent::Progress(self.progress));
            proof {
                let pv = progress_values(self.events@);
                assert(pv =~= pv0.push(self.progress as int));
                assert forall|i: int, j: int| 0 <= i <= j < pv.len() implies pv[i] <= pv[j] by {
                    if j < pv.len() - 1 {
                        assert(pv[i] == pv0[i] && pv[j] == pv0[j]);
                    } else if i < pv.len() - 1 {
                        assert(pv[i] == pv0[i]);
                        if pv0.len() > 0 {
                            assert(pv0[i] <= pv0[pv0.len() - 1]);
                        }
                    }
                }
                assert forall|i: int| 0 <= i < pv.len() implies 0 <= #[trigger] pv[i] <= 90 by {
                    if i < pv.len() - 1 {
                        assert(pv[i] == pv0[i]);
                        assert(0 <= pv0[i] <= 90);
                    }
                }
            }
        }
    }

    /// Conclude the running operation from the subprocess exit status:
    /// `Succeeded` with the terminal jump to 100 on success, `Failed` with
    /// the reset to 0 otherwise, the outcome line appended, and the
    /// terminal events emitted. A call outside `Running` changes nothing.
    pub fn complete(&mut self, success: bool)
        requires
            old(self).wf(),
        ensures
            final(self).wf(),
            !(old(self).status is Running) ==> *final(self) == *old(self),
            old(self).status is Running ==> {
                &&& final(self).status == (if success {
                    OperationStatus::Succeeded
                } else {
                    OperationStatus::Failed
                })
                &&& final(self).kind == old(self).kind
                &&& final(self).progress == (if success {
                    100int
                } else {
                    0int
                })
                &&& final(self).log@.len() == old(self).log@.len() + 1
                &&& final(self).log@.last()@ == outcome_line_of(old(self).kind, success)
                &&& final(self).log@.drop_last() == old(self).log@
                &&& final(self).events@ == old(self).events@.push(
                    ObserverEvent::LogLine(final(self).log@.last()),
                ).push(
                    ObserverEvent::Progress(if success {
                        100
                    } else {
                        0
                    }),
                ).push(
                    ObserverEvent::Terminal(
                        if success {
                            OperationStatus::Succeeded
                        } else {
                            OperationStatus::Failed
                        },
                    ),
                )
            },
    {
        if !matches!(self.status, OperationStatus::Running) {
            return ;
        }
        let ghost es0 = self.events@;
        let ghost pv0 = progress_values(es0);
        let outcome = self.outcome_line(success);
        let outcome_copy = outcome.clone();
        self.log.push(outcome);
        proof {
            assert(self.log@.drop_last() =~= old(self).log@);
            lemma_progress_values_push_other(es0, ObserverEvent::LogLine(outcome_copy));
        }
        self.events.push(ObserverEvent::LogLine(outcome_copy));
        let fin: i32 = if success {
            100
        } else {
            0
        };
        proof {
            lemma_progress_values_push_progress(self.events@, fin);
        }
        self.events.push(ObserverEvent::Progress(fin));
        let st = if success {
            OperationStatus::Succeeded
        } else {
            OperationStatus::Failed
        };
        proof {
            lemma_progress_values_push_other(self.events@, ObserverEvent::Terminal(st));
        }
        self.events.push(ObserverEvent::Terminal(st));
        self.status = st;
        self.progress = fin;
        proof {
            let pv = progress_values(self.events@);
            assert(pv =~= pv0.push(fin as int));
            assert(pv.drop_last() =~= pv0);
            if success {
                assert forall|i: int, j: int| 0 <= i <= j < pv.len() implies pv[i] <= pv[j] by {
                    if j < pv.len() - 1 {
                        assert(pv[i] == pv0[i] && pv[j] == pv0[j]);
                    } else if i < pv.len() - 1 {
                        assert(pv[i] == pv0[i] && pv0[i] <= 90);
                    }
                }
            }
        }
    }

    /// Build the outcome line for the current kind.
    fn outcome_line(&self, success: bool) -> (r: String)
        ensures
            r@ == outcome_line_of(self.kind, success),
    {
        match &self.kind {
            OperationKind::ExpressInstall => {
                if success {
                    String::from_str("Installation completed successfully.\nPlease REBOOT your system.")
                } else {
                    String::from_str("Installation FAILED.\nCheck logs for details.")
                }
            },
            OperationKind::CustomInstall { version, .. } => {
                if success {
                    let mut r = String::from_str("v");
                    r.append(version.as_str());
                    r.append(" installation complete. REBOOT required.");
                    r
                } else {
                    String::from_str("Installation failed.")
                }
            },
            OperationKind::Remove { .. } => {
                if success {
                    String::from_str("Removal complete. Reboot to nouveau.")
                } else {
                    String::from_str("Removal failed.")
                }
            },
        }
    }
}

/// Pushing a non-progress event leaves the progress values unchanged.
proof fn lemma_progress_values_push_other(es: Seq<ObserverEvent>, e: ObserverEvent)
    requires
        !(e is Progress),
    ensures
        progress_values(es.push(e)) == progress_values(es),
{
    assert(es.push(e).drop_last() =~= es);
    assert(es.push(e).last() == e);
}

/// Pushing a non-terminal event onto a terminal-free stream keeps it
/// terminal-free.
proof fn lemma_push_preserves_no_terminal(es: Seq<ObserverEvent>, e: ObserverEvent)
    requires
        !has_terminal(es),
        !(e is Terminal),
    ensures
        !has_terminal(es.push(e)),
{
    assert forall|i: int| 0 <= i < es.push(e).len() implies !(es.push(e)[i] is Terminal) by {
        if i < es.len() {
            assert(es.push(e)[i] == es[i]);
            assert(!(es[i] is Terminal));
        } else {
            assert(es.push(e)[i] == e);
        }
    }
}

/// Pushing a progress event appends its value to the progress values.
proof fn lemma_progress_values_push_progress(es: Seq<ObserverEvent>, v: i32)
    ensures
        progress_values(es.push(ObserverEvent::Progress(v))) == progress_values(es).push(v as int),
{
    assert(es.push(ObserverEvent::Progress(v)).drop_last() =~= es);
    assert(es.push(ObserverEvent::Progress(v)).last() == ObserverEvent::Progress(v));
}

/// A multiple of `inc` that divides 90 and lies strictly below 90 is at
/// most `90 - inc`.
proof fn lemma_aligned_below_ceiling(p: int, inc: int)
    requires
        0 <= p < 90,
        p % inc == 0,
        inc == 5 || inc == 2 || inc == 10,
    ensures
        p + inc <= 90,
        (p + inc) % inc == 0,
{
    assert(p + inc <= 90 && (p + inc) % inc == 0) by (nonlinear_arith)
        requires
            0 <= p < 90,
            p % inc == 0,
            inc == 5 || inc == 2 || inc == 10,
    {}
}

/// For every completed operation the emitted progress values are
/// non-decreasing up to the terminal jump, never exceed 90 before it, and
/// end at exactly 100 on success or 0 on failure.
pub proof fn lemma_progress_event_discipline(op: &InstallOrchestrator)
    requires
        op.wf(),
        op.status is Succeeded || op.status is Failed,
    ensures
        progress_values(op.events@).len() > 0,
        forall|i: int|
            0 <= i < progress_values(op.events@).len() - 1 ==> #[trigger] progress_values(
                op.events@,
            )[i] <= 90,
        non_decreasing(progress_values(op.events@).drop_last()),
        op.status is Succeeded ==> non_decreasing(progress_values(op.events@)) && progress_values(
            op.events@,
        ).last() == 100,
        op.status is Failed ==> progress_values(op.events@).last() == 0,
{
    let pv = progress_values(op.events@);
    if op.status is Succeeded {
        assert forall|i: int, j: int|
            0 <= i <= j < pv.drop_last().len() implies pv.drop_last()[i] <= pv.drop_last()[j] by {
            assert(pv.drop_last()[i] == pv[i] && pv.drop_last()[j] == pv[j]);
        }
    }
}

} // verus!
