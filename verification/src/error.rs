use vstd::prelude::*;

verus! {

/// Classification of everything that can go wrong between receiving a
/// request and producing a response. The first failure encountered wins:
/// nothing downstream of it runs, and it becomes the terminal outcome of
/// the call.
#[derive(Clone, Copy, Debug, PartialEq, Eq, Structural)]
pub enum Error {
    /// Malformed or missing client input: query string, path segment,
    /// JSON body or form body. Reported as a client error.
    ClientInput,
    /// A required extension value was never registered by the host:
    /// a wiring defect, not the client's fault.
    ServerConfiguration,
    /// The body could not be read or decoded at the transport level.
    Transport,
    /// A handler's return value failed to convert into a response.
    Conversion,
}

impl Error {
    /// The wire status a failure of this class is reported with:
    /// client input problems are a 400, everything else a 500.
    pub open spec fn spec_status(self) -> u16 {
        match self {
            Error::ClientInput => 400,
            Error::ServerConfiguration => 500,
            Error::Transport => 500,
            Error::Conversion => 500,
        }
    }

    pub fn status(self) -> (s: u16)
        ensures
            s == self.spec_status(),
    {
        match self {
            Error::ClientInput => 400,
            Error::ServerConfiguration => 500,
            Error::Transport => 500,
            Error::Conversion => 500,
        }
    }

    /// A short human-readable description of the failure class.
    pub fn describe(self) -> (s: String)
        ensures
            self == Error::ClientInput ==> s@ == "malformed or missing client input"@,
            self == Error::ServerConfiguration ==> s@ == "missing extension"@,
            self == Error::Transport ==> s@ == "body read failed"@,
            self == Error::Conversion ==> s@ == "response conversion failed"@,
    {
        match self {
            Error::ClientInput => "malformed or missing client input".to_owned(),
            Error::ServerConfiguration => "missing extension".to_owned(),
            Error::Transport => "body read failed".to_owned(),
            Error::Conversion => "response conversion failed".to_owned(),
        }
    }
}

} // verus!
