//! Errors of the audio pipeline and of the network.

use vstd::prelude::*;
use vstd::string::StringExecFns;

verus! {

#[derive(Debug)]
pub enum AudioError {
    SourceError(String),
    ProcessingError(String),
    OutputError(String),
}

impl AudioError {
    /// What the error says to a user.
    pub open spec fn text(self) -> Seq<char> {
        match self {
            AudioError::SourceError(reason) => "Audio source error: "@ + reason@,
            AudioError::ProcessingError(reason) => "Audio processing error: "@ + reason@,
            AudioError::OutputError(reason) => "Audio output error: "@ + reason@,
        }
    }

    pub fn message(&self) -> (s: String)
        ensures
            s@ == self.text(),
    {
        match self {
            AudioError::SourceError(reason) => joined("Audio source error: ", reason.as_str()),
            AudioError::ProcessingError(reason) => joined(
                "Audio processing error: ",
                reason.as_str(),
            ),
            AudioError::OutputError(reason) => joined("Audio output error: ", reason.as_str()),
        }
    }
}

#[derive(Debug)]
pub enum NetworkError {
    SendError(String),
    ReceiveError(String),
    StatsError(String),
}

impl NetworkError {
    /// What the error says to a user.
    pub open spec fn text(self) -> Seq<char> {
        match self {
            NetworkError::SendError(reason) => "Network send error: "@ + reason@,
            NetworkError::ReceiveError(reason) => "Network receive error: "@ + reason@,
            NetworkError::StatsError(reason) => "Network stats error: "@ + reason@,
        }
    }

    pub fn message(&self) -> (s: String)
        ensures
            s@ == self.text(),
    {
        match self {
            NetworkError::SendError(reason) => joined("Network send error: ", reason.as_str()),
            NetworkError::ReceiveError(reason) => joined(
                "Network receive error: ",
                reason.as_str(),
            ),
            NetworkError::StatsError(reason) => joined("Network stats error: ", reason.as_str()),
        }
    }
}

/// `prefix` followed by `rest`.
pub(crate) fn joined(prefix: &str, rest: &str) -> (s: String)
    ensures
        s@ == prefix@ + rest@,
{
    let mut s: String = String::from_str(prefix);
    s.append(rest);
    s
}

/// Every error says where it comes from and why.
pub proof fn law_texts(audio: AudioError, network: NetworkError)
    ensures
        match audio {
            AudioError::SourceError(reason) => audio.text() == "Audio source error: "@ + reason@,
            AudioError::ProcessingError(reason) => audio.text() == "Audio processing error: "@
                + reason@,
            AudioError::OutputError(reason) => audio.text() == "Audio output error: "@ + reason@,
        },
        match network {
            NetworkError::SendError(reason) => network.text() == "Network send error: "@ + reason@,
            NetworkError::ReceiveError(reason) => network.text() == "Network receive error: "@
                + reason@,
            NetworkError::StatsError(reason) => network.text() == "Network stats error: "@
                + reason@,
        },
{
}

} // verus!
