//! A tunnel session: the role, the options and the FEC ratio they name.

use crate::config::{fec_ratio_from_bytes, FecParseError, FecRatio, RunArgs};
use vstd::prelude::*;

verus! {

/// Settings of one tunnel session.
pub struct Session {
    args: RunArgs,
    is_server: bool,
    fec: FecRatio,
}

impl Session {
    /// The options the session runs with.
    pub closed spec fn spec_args(&self) -> RunArgs {
        self.args
    }

    /// Whether the session runs as the server.
    pub closed spec fn spec_is_server(&self) -> bool {
        self.is_server
    }

    /// The FEC ratio of the session.
    pub closed spec fn spec_fec(&self) -> (usize, usize) {
        (self.fec.data, self.fec.parity)
    }

    /// Sets up a session; fails exactly when the `fec` option is not a
    /// valid `data:parity` ratio.
    pub fn new(args: RunArgs, is_server: bool) -> (r: Result<Session, FecParseError>)
        ensures
            match fec_ratio_from_bytes(vstd::utf8::encode_utf8(args.fec@)) {
                Ok(ratio) => (r matches Ok(s) && s.spec_args() == args && s.spec_is_server() == is_server
                    && s.spec_fec() == ratio),
                Err(e) => r == Err::<Session, FecParseError>(e),
            },
    {
        let fec = match FecRatio::parse(args.fec.as_str()) {
            Ok(f) => f,
            Err(e) => {
                return Err(e);
            },
        };
        Ok(Session { args, is_server, fec })
    }

    /// The options the session runs with.
    pub fn args(&self) -> (r: &RunArgs)
        ensures
            *r == self.spec_args(),
    {
        &self.args
    }

    /// Whether the session runs as the server.
    pub fn is_server(&self) -> (r: bool)
        ensures
            r == self.spec_is_server(),
    {
        self.is_server
    }

    /// The FEC ratio of the session.
    pub fn fec(&self) -> (r: FecRatio)
        ensures
            (r.data, r.parity) == self.spec_fec(),
    {
        self.fec
    }
}

} // verus!
