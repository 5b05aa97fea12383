//! The steps by which a session starts.
//!
//! Each step is work that only the platform can do. Its outcome decides whether
//! the next step follows or the session ends with a message for the user.

use crate::errors::joined;
use vstd::prelude::*;
use vstd::string::StringExecFns;

verus! {

/// Refuse to start a receiver while one is running.
pub fn check_receiver_slot(occupied: bool) -> (r: Result<(), &'static str>)
    ensures
        match r {
            Ok(_) => !occupied,
            Err(status) => occupied && status@ == "already running; press Stop first"@,
        },
{
    if occupied {
        Err("already running; press Stop first")
    } else {
        Ok(())
    }
}

/// Refuse to start a transmitter while one is running.
pub fn check_transmitter_slot(occupied: bool) -> (r: Result<(), &'static str>)
    ensures
        match r {
            Ok(_) => !occupied,
            Err(status) => occupied && status@ == "already transmitting; press Stop first"@,
        },
{
    if occupied {
        Err("already transmitting; press Stop first")
    } else {
        Ok(())
    }
}

/// How a receiver starts.
#[derive(Debug, Clone, Copy, PartialEq, Eq, Structural)]
pub enum ReceiveStep {
    ParseAddress,
    StartRuntime,
    BindSocket,
    /// Receive until stopped.
    Run,
    /// Leave the thread.
    Done,
}

impl ReceiveStep {
    /// The step that follows on success.
    pub open spec fn following(self) -> ReceiveStep {
        match self {
            ReceiveStep::ParseAddress => ReceiveStep::StartRuntime,
            ReceiveStep::StartRuntime => ReceiveStep::BindSocket,
            ReceiveStep::BindSocket => ReceiveStep::Run,
            ReceiveStep::Run => ReceiveStep::Done,
            ReceiveStep::Done => ReceiveStep::Done,
        }
    }

    /// How the message about a failure of this step starts.
    pub open spec fn complaint(self) -> Seq<char> {
        match self {
            ReceiveStep::ParseAddress => "invalid address: "@,
            ReceiveStep::StartRuntime => "failed to start runtime: "@,
            ReceiveStep::BindSocket => "failed to bind: "@,
            ReceiveStep::Run => "error: "@,
            ReceiveStep::Done => ""@,
        }
    }

    /// The number of steps up to this one.
    pub open spec fn rank(self) -> nat {
        match self {
            ReceiveStep::ParseAddress => 0,
            ReceiveStep::StartRuntime => 1,
            ReceiveStep::BindSocket => 2,
            ReceiveStep::Run => 3,
            ReceiveStep::Done => 4,
        }
    }

    /// Go on after this step: the next step, or the end with a message.
    pub fn advance(self, outcome: Result<(), String>) -> (next: (ReceiveStep, Option<String>))
        ensures
            match outcome {
                Ok(_) => next.0 == self.following() && next.1 is None,
                Err(reason) => {
                    &&& next.0 == ReceiveStep::Done
                    &&& next.1 matches Some(status)
                    &&& status@ == self.complaint() + reason@
                },
            },
    {
        match outcome {
            Ok(_) => {
                let step: ReceiveStep = match self {
                    ReceiveStep::ParseAddress => ReceiveStep::StartRuntime,
                    ReceiveStep::StartRuntime => ReceiveStep::BindSocket,
                    ReceiveStep::BindSocket => ReceiveStep::Run,
                    ReceiveStep::Run => ReceiveStep::Done,
                    ReceiveStep::Done => ReceiveStep::Done,
                };
                (step, None)
            },
            Err(reason) => {
                let complaint: &str = match self {
                    ReceiveStep::ParseAddress => "invalid address: ",
                    ReceiveStep::StartRuntime => "failed to start runtime: ",
                    ReceiveStep::BindSocket => "failed to bind: ",
                    ReceiveStep::Run => "error: ",
                    ReceiveStep::Done => "",
                };
                (ReceiveStep::Done, Some(joined(complaint, reason.as_str())))
            },
        }
    }
}

/// How a transmitter starts.
#[derive(Debug, Clone, Copy, PartialEq, Eq, Structural)]
pub enum TransmitStep {
    ParseAddress,
    OpenSocket,
    ConnectSocket,
    OpenMicrophone,
    CreateTransmitter,
    /// Read the microphone and send until stopped.
    Run,
    /// Stop and release the microphone.
    Release,
    /// Leave the thread.
    Done,
}

impl TransmitStep {
    /// The step that follows on success.
    pub open spec fn following(self) -> TransmitStep {
        match self {
            TransmitStep::ParseAddress => TransmitStep::OpenSocket,
            TransmitStep::OpenSocket => TransmitStep::ConnectSocket,
            TransmitStep::ConnectSocket => TransmitStep::OpenMicrophone,
            TransmitStep::OpenMicrophone => TransmitStep::CreateTransmitter,
            TransmitStep::CreateTransmitter => TransmitStep::Run,
            TransmitStep::Run => TransmitStep::Release,
            TransmitStep::Release => TransmitStep::Done,
            TransmitStep::Done => TransmitStep::Done,
        }
    }

    /// The step that follows on failure. Only a failed run goes through the
    /// release of the microphone; a start that fails before ends without it.
    pub open spec fn following_failure(self) -> TransmitStep {
        if self == TransmitStep::Run {
            TransmitStep::Release
        } else {
            TransmitStep::Done
        }
    }

    /// What is said when this step to `address` succeeds.
    pub open spec fn announcement(self, address: Seq<char>) -> Option<Seq<char>> {
        match self {
            TransmitStep::CreateTransmitter => Some(
                "transmitting to "@ + address + " (48 kHz mono, Opus)"@,
            ),
            TransmitStep::Release => Some("transmit stopped"@),
            _ => None,
        }
    }

    /// What is said when this step to `address` fails.
    pub open spec fn complaint(self, address: Seq<char>, reason: Seq<char>) -> Seq<char> {
        match self {
            TransmitStep::ParseAddress => "invalid address: "@ + reason,
            TransmitStep::OpenSocket => "failed to open UDP socket: "@ + reason,
            TransmitStep::ConnectSocket => "failed to connect to "@ + address + ": "@ + reason,
            TransmitStep::OpenMicrophone => "microphone unavailable: "@ + reason,
            TransmitStep::CreateTransmitter => "failed to create transmitter: "@ + reason,
            TransmitStep::Run => "microphone read failed: "@ + reason,
            TransmitStep::Release | TransmitStep::Done => reason,
        }
    }

    /// The number of steps up to this one.
    pub open spec fn rank(self) -> nat {
        match self {
            TransmitStep::ParseAddress => 0,
            TransmitStep::OpenSocket => 1,
            TransmitStep::ConnectSocket => 2,
            TransmitStep::OpenMicrophone => 3,
            TransmitStep::CreateTransmitter => 4,
            TransmitStep::Run => 5,
            TransmitStep::Release => 6,
            TransmitStep::Done => 7,
        }
    }

    /// Go on after this step: the next step, or the end, and what to say.
    pub fn advance(self, outcome: Result<(), String>, address: &str) -> (next: (
        TransmitStep,
        Option<String>,
    ))
        ensures
            match outcome {
                Ok(_) => {
                    &&& next.0 == self.following()
                    &&& match next.1 {
                        Some(status) => self.announcement(address@) == Some(status@),
                        None => self.announcement(address@) is None,
                    }
                },
                Err(reason) => {
                    &&& next.0 == self.following_failure()
                    &&& next.1 matches Some(status)
                    &&& status@ == self.complaint(address@, reason@)
                },
            },
    {
        match outcome {
            Ok(_) => match self {
                TransmitStep::ParseAddress => (TransmitStep::OpenSocket, None),
                TransmitStep::OpenSocket => (TransmitStep::ConnectSocket, None),
                TransmitStep::ConnectSocket => (TransmitStep::OpenMicrophone, None),
                TransmitStep::OpenMicrophone => (TransmitStep::CreateTransmitter, None),
                TransmitStep::CreateTransmitter => {
                    let mut status: String = joined("transmitting to ", address);
                    status.append(" (48 kHz mono, Opus)");
                    (TransmitStep::Run, Some(status))
                },
                TransmitStep::Run => (TransmitStep::Release, None),
                TransmitStep::Release => (
                    TransmitStep::Done,
                    Some(String::from_str("transmit stopped")),
                ),
                TransmitStep::Done => (TransmitStep::Done, None),
            },
            Err(reason) => {
                let reason: &str = reason.as_str();
                let status: String = match self {
                    TransmitStep::ParseAddress => joined("invalid address: ", reason),
                    TransmitStep::OpenSocket => joined("failed to open UDP socket: ", reason),
                    TransmitStep::ConnectSocket => {
                        let mut s: String = joined("failed to connect to ", address);
                        s.append(": ");
                        s.append(reason);
                        s
                    },
                    TransmitStep::OpenMicrophone => joined("microphone unavailable: ", reason),
                    TransmitStep::CreateTransmitter => joined(
                        "failed to create transmitter: ",
                        reason,
                    ),
                    TransmitStep::Run => joined("microphone read failed: ", reason),
                    TransmitStep::Release => String::from_str(reason),
                    TransmitStep::Done => String::from_str(reason),
                };
                let step: TransmitStep = if self == TransmitStep::Run {
                    TransmitStep::Release
                } else {
                    TransmitStep::Done
                };
                (step, Some(status))
            },
        }
    }
}

/// How a browser's audio pipeline is built.
#[derive(Debug, Clone, Copy, PartialEq, Eq, Structural)]
pub enum RebuildStep {
    CreateContext,
    AccessWorklet,
    LoadModule,
    CreateGain,
    CreateNode,
    ConnectGraph,
    /// Install the pipeline and flush what was buffered.
    Install,
    /// Give up on this build.
    Abandoned,
}

impl RebuildStep {
    /// The step that follows on success.
    pub open spec fn following(self) -> RebuildStep {
        match self {
            RebuildStep::CreateContext => RebuildStep::AccessWorklet,
            RebuildStep::AccessWorklet => RebuildStep::LoadModule,
            RebuildStep::LoadModule => RebuildStep::CreateGain,
            RebuildStep::CreateGain => RebuildStep::CreateNode,
            RebuildStep::CreateNode => RebuildStep::ConnectGraph,
            RebuildStep::ConnectGraph => RebuildStep::Install,
            RebuildStep::Install => RebuildStep::Install,
            RebuildStep::Abandoned => RebuildStep::Abandoned,
        }
    }

    /// What is said when this step fails.
    pub open spec fn complaint(self, reason: Seq<char>) -> Seq<char> {
        match self {
            RebuildStep::CreateContext => "failed to create audio context: "@ + reason,
            RebuildStep::AccessWorklet => "failed to access audio worklet: "@ + reason,
            RebuildStep::LoadModule => "failed to load audio worklet: "@ + reason,
            RebuildStep::CreateGain => "failed to create gain node: "@ + reason,
            RebuildStep::CreateNode => "failed to create worklet node: "@ + reason,
            RebuildStep::ConnectGraph => "failed to connect audio graph"@,
            _ => reason,
        }
    }

    /// The number of steps up to this one.
    pub open spec fn rank(self) -> nat {
        match self {
            RebuildStep::CreateContext => 0,
            RebuildStep::AccessWorklet => 1,
            RebuildStep::LoadModule => 2,
            RebuildStep::CreateGain => 3,
            RebuildStep::CreateNode => 4,
            RebuildStep::ConnectGraph => 5,
            RebuildStep::Install => 6,
            RebuildStep::Abandoned => 6,
        }
    }

    /// Go on after this step: the next step, or the end with a message.
    pub fn advance(self, outcome: Result<(), String>) -> (next: (RebuildStep, Option<String>))
        ensures
            match outcome {
                Ok(_) => next.0 == self.following() && next.1 is None,
                Err(reason) => {
                    &&& next.0 == RebuildStep::Abandoned
                    &&& next.1 matches Some(status)
                    &&& status@ == self.complaint(reason@)
                },
            },
    {
        match outcome {
            Ok(_) => {
                let step: RebuildStep = match self {
                    RebuildStep::CreateContext => RebuildStep::AccessWorklet,
                    RebuildStep::AccessWorklet => RebuildStep::LoadModule,
                    RebuildStep::LoadModule => RebuildStep::CreateGain,
                    RebuildStep::CreateGain => RebuildStep::CreateNode,
                    RebuildStep::CreateNode => RebuildStep::ConnectGraph,
                    RebuildStep::ConnectGraph => RebuildStep::Install,
                    RebuildStep::Install => RebuildStep::Install,
                    RebuildStep::Abandoned => RebuildStep::Abandoned,
                };
                (step, None)
            },
            Err(reason) => {
                let reason: &str = reason.as_str();
                let status: String = match self {
                    RebuildStep::CreateContext => joined("failed to create audio context: ", reason),
                    RebuildStep::AccessWorklet => joined("failed to access audio worklet: ", reason),
                    RebuildStep::LoadModule => joined("failed to load audio worklet: ", reason),
                    RebuildStep::CreateGain => joined("failed to create gain node: ", reason),
                    RebuildStep::CreateNode => joined("failed to create worklet node: ", reason),
                    RebuildStep::ConnectGraph => String::from_str("failed to connect audio graph"),
                    _ => String::from_str(reason),
                };
                (RebuildStep::Abandoned, Some(status))
            },
        }
    }
}

/// A start makes progress: each success brings the next step, so the end is
/// reached after at most as many steps as there are, and once the stream runs,
/// the microphone is released whether it ends well or not.
pub proof fn law_steps_make_progress(r: ReceiveStep, t: TransmitStep, b: RebuildStep)
    ensures
        r != ReceiveStep::Done ==> r.following().rank() == r.rank() + 1,
        t != TransmitStep::Done ==> t.following().rank() == t.rank() + 1,
        t == TransmitStep::Run ==> t.following() == TransmitStep::Release && t.following_failure()
            == TransmitStep::Release,
        b.rank() < 6 ==> b.following().rank() == b.rank() + 1,
{
}

/// A receiver parses its address, starts a runtime, binds its socket, runs, and
/// leaves.
pub proof fn law_receiver_steps(step: ReceiveStep)
    ensures
        match step {
            ReceiveStep::ParseAddress => step.following() == ReceiveStep::StartRuntime,
            ReceiveStep::StartRuntime => step.following() == ReceiveStep::BindSocket,
            ReceiveStep::BindSocket => step.following() == ReceiveStep::Run,
            ReceiveStep::Run => step.following() == ReceiveStep::Done,
            ReceiveStep::Done => step.following() == ReceiveStep::Done,
        },
{
}

/// A transmitter parses its address, opens and connects its socket, opens the
/// microphone, creates the pipeline, runs, releases the microphone, and leaves. A
/// failure before it runs ends it, a failure of the run releases the microphone
/// first. It speaks up on success only when it starts to send and when it has
/// stopped.
pub proof fn law_transmitter_steps(step: TransmitStep, address: Seq<char>)
    ensures
        match step {
            TransmitStep::ParseAddress => step.following() == TransmitStep::OpenSocket,
            TransmitStep::OpenSocket => step.following() == TransmitStep::ConnectSocket,
            TransmitStep::ConnectSocket => step.following() == TransmitStep::OpenMicrophone,
            TransmitStep::OpenMicrophone => step.following() == TransmitStep::CreateTransmitter,
            TransmitStep::CreateTransmitter => step.following() == TransmitStep::Run,
            TransmitStep::Run => step.following() == TransmitStep::Release,
            TransmitStep::Release => step.following() == TransmitStep::Done,
            TransmitStep::Done => step.following() == TransmitStep::Done,
        },
        step.following_failure() == TransmitStep::Release <==> step == TransmitStep::Run,
        step.following_failure() == TransmitStep::Done <==> step != TransmitStep::Run,
        step.announcement(address) is Some <==> step == TransmitStep::CreateTransmitter || step
            == TransmitStep::Release,
{
}

/// A browser creates its context, gets at the worklet, loads the module, creates
/// the gain and the node, connects them, and installs the pipeline.
pub proof fn law_rebuild_steps(step: RebuildStep)
    ensures
        match step {
            RebuildStep::CreateContext => step.following() == RebuildStep::AccessWorklet,
            RebuildStep::AccessWorklet => step.following() == RebuildStep::LoadModule,
            RebuildStep::LoadModule => step.following() == RebuildStep::CreateGain,
            RebuildStep::CreateGain => step.following() == RebuildStep::CreateNode,
            RebuildStep::CreateNode => step.following() == RebuildStep::ConnectGraph,
            RebuildStep::ConnectGraph => step.following() == RebuildStep::Install,
            RebuildStep::Install => step.following() == RebuildStep::Install,
            RebuildStep::Abandoned => step.following() == RebuildStep::Abandoned,
        },
{
}

/// Whatever fails, the message ends with the reason; only a browser that cannot
/// connect its graph has none to give.
pub proof fn law_messages_end_with_the_reason(
    r: ReceiveStep,
    t: TransmitStep,
    b: RebuildStep,
    address: Seq<char>,
    reason: Seq<char>,
)
    ensures
        ends_with(r.complaint() + reason, reason),
        ends_with(t.complaint(address, reason), reason),
        b != RebuildStep::ConnectGraph ==> ends_with(b.complaint(reason), reason),
{
    let s = r.complaint() + reason;
    assert(s.skip(s.len() - reason.len()) =~= reason);
    let s = t.complaint(address, reason);
    assert(s.skip(s.len() - reason.len()) =~= reason);
    let s = b.complaint(reason);
    if b != RebuildStep::ConnectGraph {
        assert(s.skip(s.len() - reason.len()) =~= reason);
    }
}

/// `text` ends with `end`.
pub open spec fn ends_with(text: Seq<char>, end: Seq<char>) -> bool {
    end.len() <= text.len() && text.skip(text.len() - end.len()) == end
}

/// Every failure is named after the step that failed.
pub proof fn law_messages_name_the_step(
    r: ReceiveStep,
    t: TransmitStep,
    b: RebuildStep,
    address: Seq<char>,
    reason: Seq<char>,
)
    ensures
        match r {
            ReceiveStep::ParseAddress => r.complaint() == "invalid address: "@,
            ReceiveStep::StartRuntime => r.complaint() == "failed to start runtime: "@,
            ReceiveStep::BindSocket => r.complaint() == "failed to bind: "@,
            ReceiveStep::Run => r.complaint() == "error: "@,
            ReceiveStep::Done => r.complaint() == ""@,
        },
        match t {
            TransmitStep::ParseAddress => t.complaint(address, reason) == "invalid address: "@
                + reason,
            TransmitStep::OpenSocket => t.complaint(address, reason)
                == "failed to open UDP socket: "@ + reason,
            TransmitStep::ConnectSocket => t.complaint(address, reason) == "failed to connect to "@
                + address + ": "@ + reason,
            TransmitStep::OpenMicrophone => t.complaint(address, reason)
                == "microphone unavailable: "@ + reason,
            TransmitStep::CreateTransmitter => t.complaint(address, reason)
                == "failed to create transmitter: "@ + reason,
            TransmitStep::Run => t.complaint(address, reason) == "microphone read failed: "@
                + reason,
            _ => t.complaint(address, reason) == reason,
        },
        t == TransmitStep::CreateTransmitter ==> t.announcement(address) == Some(
            "transmitting to "@ + address + " (48 kHz mono, Opus)"@,
        ),
        t == TransmitStep::Release ==> t.announcement(address) == Some("transmit stopped"@),
        match b {
            RebuildStep::CreateContext => b.complaint(reason)
                == "failed to create audio context: "@ + reason,
            RebuildStep::AccessWorklet => b.complaint(reason)
                == "failed to access audio worklet: "@ + reason,
            RebuildStep::LoadModule => b.complaint(reason) == "failed to load audio worklet: "@
                + reason,
            RebuildStep::CreateGain => b.complaint(reason) == "failed to create gain node: "@
                + reason,
            RebuildStep::CreateNode => b.complaint(reason) == "failed to create worklet node: "@
                + reason,
            RebuildStep::ConnectGraph => b.complaint(reason) == "failed to connect audio graph"@,
            _ => b.complaint(reason) == reason,
        },
{
}

} // verus!
