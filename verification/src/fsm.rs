//! The pluggable state machine applied by every Raft group.

use vstd::prelude::*;

verus! {

/// Output of applying one command: opaque effect bytes handed back to the
/// proposer.
#[derive(Debug)]
pub struct ApplyOut {
    pub effects: Vec<u8>,
}

impl ApplyOut {
    /// An output with no effects.
    pub fn empty() -> (r: ApplyOut)
        ensures
            r.effects@ == Seq::<u8>::empty(),
    {
        ApplyOut { effects: Vec::new() }
    }
}

/// A deterministic state machine holding the state of many groups.
///
/// Implementations describe their behaviour on their abstract view through
/// the spec functions below; the exec methods are held to them.
pub trait StateMachine: Sized + View {
    type Error;

    /// Whether applying `data` to `group` from state `s` is free of
    /// arithmetic faults.
    spec fn spec_apply_defined(s: Self::V, group: u64, index: u64, data: Seq<u8>) -> bool;

    /// The state after applying `data` to `group`, and the effect bytes or the
    /// text of the error.
    spec fn spec_apply(s: Self::V, group: u64, index: u64, data: Seq<u8>) -> (Self::V, Result<
        Seq<u8>,
        Seq<char>,
    >);

    /// Whether `r` is an acceptable snapshot of `group` taken in state `s`.
    spec fn spec_snapshot_ok(s: Self::V, group: u64, r: Result<Seq<u8>, Seq<char>>) -> bool;

    /// The state after restoring `group` from `snapshot`, and the error text
    /// on failure.
    spec fn spec_restore(s: Self::V, group: u64, snapshot: Seq<u8>) -> (Self::V, Result<
        (),
        Seq<char>,
    >);

    /// The text that describes an error value.
    spec fn spec_error_text(e: Self::Error) -> Seq<char>;

    /// Whether applying `data` to `group` now stays free of arithmetic
    /// faults, so that `apply` may be called.
    fn apply_defined(&self, group: u64, index: u64, data: &[u8]) -> (r: bool)
        ensures
            r == Self::spec_apply_defined(self@, group, index, data@),
    ;

    fn apply(&mut self, group: u64, index: u64, data: &[u8]) -> (r: Result<ApplyOut, Self::Error>)
        requires
            Self::spec_apply_defined(old(self)@, group, index, data@),
        ensures
            final(self)@ == Self::spec_apply(old(self)@, group, index, data@).0,
            match r {
                Ok(out) => Self::spec_apply(old(self)@, group, index, data@).1 == Ok::<
                    Seq<u8>,
                    Seq<char>,
                >(out.effects@),
                Err(e) => Self::spec_apply(old(self)@, group, index, data@).1 == Err::<
                    Seq<u8>,
                    Seq<char>,
                >(Self::spec_error_text(e)),
            },
    ;

    fn snapshot(&self, group: u64) -> (r: Result<Vec<u8>, Self::Error>)
        ensures
            Self::spec_snapshot_ok(
                self@,
                group,
                match r {
                    Ok(b) => Ok(b@),
                    Err(e) => Err(Self::spec_error_text(e)),
                },
            ),
    ;

    fn restore(&mut self, group: u64, snapshot: &[u8]) -> (r: Result<(), Self::Error>)
        ensures
            final(self)@ == Self::spec_restore(old(self)@, group, snapshot@).0,
            match r {
                Ok(()) => Self::spec_restore(old(self)@, group, snapshot@).1 is Ok,
                Err(e) => Self::spec_restore(old(self)@, group, snapshot@).1 == Err::<(), Seq<char>>(
                    Self::spec_error_text(e),
                ),
            },
    ;

    /// The human-readable text of an error.
    fn error_text(e: &Self::Error) -> (s: String)
        ensures
            s@ == Self::spec_error_text(*e),
    ;
}

} // verus!
