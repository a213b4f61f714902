//! Errors of the group API and the result of a successful proposal.

use vstd::prelude::*;

use crate::text::debug_opt_u64;
use crate::text::decimal;

verus! {

/// Errors returned by proposals and group management.
#[derive(Debug)]
pub enum MultiRaftError {
    /// This node does not lead the group; `hint` names the leader it knows of.
    NotLeader { hint: Option<u64> },
    /// No such group on this node.
    UnknownGroup(u64),
    /// Any other failure, with its description.
    Other(String),
}

/// The text of an error, as its `Display` renders it.
pub open spec fn multiraft_error_text(e: MultiRaftError) -> Seq<char> {
    match e {
        MultiRaftError::NotLeader { hint } => "not leader; hint="@ + debug_opt_u64(hint),
        MultiRaftError::UnknownGroup(g) => "unknown group "@ + decimal(g as nat),
        MultiRaftError::Other(m) => m@,
    }
}

impl MultiRaftError {
    /// The error's text.
    pub fn message(&self) -> (s: String)
        ensures
            s@ == multiraft_error_text(*self),
    {
        match self {
            MultiRaftError::NotLeader { hint } => {
                let mut s = String::from_str("not leader; hint=");
                let h = crate::text::opt_u64_debug(*hint);
                s.append(h.as_str());
                s
            },
            MultiRaftError::UnknownGroup(g) => {
                let mut s = String::from_str("unknown group ");
                crate::text::push_decimal(&mut s, *g);
                s
            },
            MultiRaftError::Other(m) => m.clone(),
        }
    }
}

/// A committed and applied proposal: its log index and term.
#[derive(PartialEq, Eq, Structural, Clone, Copy, Debug)]
pub struct ProposeOk {
    pub index: u64,
    pub term: u64,
}

} // verus!
