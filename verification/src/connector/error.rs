//! Why a step of the connection sequence was not taken.

use vstd::prelude::*;
use vstd::string::*;

use crate::DecodeError;

verus! {

#[derive(Debug, Clone, Copy, PartialEq, Eq)]
pub enum ConnectorError {
    /// The input is not the message that is due.
    Decode(DecodeError),
    /// The sequence is over.
    AlreadyFinished,
    /// This is not the time for it.
    NotReady,
}

impl ConnectorError {
    pub open spec fn text(self) -> Seq<char> {
        match self {
            ConnectorError::Decode(e) => "PDU decode error: "@ + e.text(),
            ConnectorError::AlreadyFinished =>
                "Acceptor::step called after the connection sequence finished"@,
            ConnectorError::NotReady => "Acceptor is not ready for this operation"@,
        }
    }

    /// What is wrong, in words.
    pub fn message(&self) -> (s: String)
        ensures
            s@ == self.text(),
    {
        match self {
            ConnectorError::Decode(e) => {
                let mut s: String = "PDU decode error: ".to_owned();
                s.append(e.message().as_str());
                s
            },
            ConnectorError::AlreadyFinished =>
                "Acceptor::step called after the connection sequence finished".to_owned(),
            ConnectorError::NotReady => "Acceptor is not ready for this operation".to_owned(),
        }
    }
}

impl From<DecodeError> for ConnectorError {
    fn from(e: DecodeError) -> (r: Self) {
        ConnectorError::Decode(e)
    }
}

impl vstd::std_specs::convert::FromSpecImpl<DecodeError> for ConnectorError {
    open spec fn obeys_from_spec() -> bool {
        true
    }

    open spec fn from_spec(e: DecodeError) -> Self {
        ConnectorError::Decode(e)
    }
}

/// An error says whether a message could not be read, the sequence is over, or the time
/// has not come.
pub proof fn law_message(e: &ConnectorError, s: String)
    requires
        call_ensures(ConnectorError::message, (e,), s),
    ensures
        *e matches ConnectorError::Decode(why) ==> s@ == "PDU decode error: "@ + why.text(),
        e is AlreadyFinished ==> s@
            == "Acceptor::step called after the connection sequence finished"@,
        e is NotReady ==> s@ == "Acceptor is not ready for this operation"@,
{
}

} // verus!
