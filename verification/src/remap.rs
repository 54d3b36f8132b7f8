//! Fail-fast remapping of every listed device to the next output.
//!
//! The mapping command itself is run by the surrounding program, one device
//! at a time; this module decides which command to run next and what the
//! whole action returns. A session walks the records in their listing order
//! and stops at the first device whose command failed: the devices after it
//! are never asked for, and the devices before it keep their new mapping.

use vstd::prelude::*;

use crate::parser::copy_range;
use crate::parser::records_view;
use crate::parser::DeviceRecord;

verus! {

/// Why a remap action returned no success.
#[derive(Clone, Debug, PartialEq, Eq)]
pub enum RemapError {
    /// The action was asked for with no device records at all; no command was
    /// run.
    NoDevices,
    /// The named device's mapping command could not be started or exited with
    /// a failure status; the devices after it were not attempted.
    DeviceFailed(Vec<u8>),
}

/// One fail-fast remap session over a fixed sequence of device records.
pub struct RemapRun {
    records: Vec<DeviceRecord>,
    next: usize,
    outcome: Option<Result<(), RemapError>>,
}

impl RemapRun {
    /// The identifiers the session was started with, in listing order.
    pub closed spec fn ids(self) -> Seq<Seq<u8>> {
        records_view(self.records@)
    }

    /// Whether the session still waits for a command outcome.
    pub closed spec fn running(self) -> bool {
        self.outcome is None
    }

    /// The index of the record whose command is to be run next.
    pub closed spec fn pos(self) -> int {
        self.next as int
    }

    /// The session's result so far: `None` while it is running.
    pub closed spec fn outcome_spec(self) -> Option<Result<(), RemapError>> {
        self.outcome
    }

    #[verifier::type_invariant]
    spec fn wf(self) -> bool {
        &&& self.next <= self.records.len()
        &&& (self.outcome is None ==> self.next < self.records.len())
    }

    /// A session over the given records. With no records at all it finishes
    /// at once with the `NoDevices` error and asks for no command; otherwise
    /// it starts by asking for the first record's command.
    pub fn new(records: Vec<DeviceRecord>) -> (run: Self)
        ensures
            run.ids() == records_view(records@),
            records@.len() == 0 ==> !run.running() && run.outcome_spec() == Some(
                Err::<(), RemapError>(RemapError::NoDevices),
            ),
            records@.len() > 0 ==> run.running() && run.pos() == 0,
    {
        if records.len() == 0 {
            RemapRun { records, next: 0, outcome: Some(Err(RemapError::NoDevices)) }
        } else {
            RemapRun { records, next: 0, outcome: None }
        }
    }

    /// The record whose mapping command must be run next, or nothing when the
    /// session is finished. A finished session never asks for another
    /// command.
    pub fn pending(&self) -> (r: Option<&DeviceRecord>)
        ensures
            match r {
                Some(d) => self.running() && 0 <= self.pos() < self.ids().len() && d@
                    == self.ids()[self.pos()],
                None => !self.running(),
            },
    {
        proof {
            use_type_invariant(&*self);
        }
        if self.outcome.is_none() {
            let d = &self.records[self.next];
            proof {
                assert(self.ids()[self.pos()] == self.records@[self.next as int]@);
            }
            Some(d)
        } else {
            None
        }
    }

    /// One command outcome for the pending record. On success the session
    /// moves to the next record, finishing with success after the last one;
    /// on failure it finishes at once with `DeviceFailed` naming the pending
    /// record's identifier, and the records after it are never asked for.
    pub fn step(&mut self, command_succeeded: bool)
        requires
            old(self).running(),
        ensures
            final(self).ids() == old(self).ids(),
            final(self).running() <==> (command_succeeded && old(self).pos() + 1 < old(self).ids().len()),
            final(self).running() ==> final(self).pos() == old(self).pos() + 1,
            command_succeeded && old(self).pos() + 1 == old(self).ids().len()
                ==> final(self).outcome_spec() == Some(Ok::<(), RemapError>(())),
            !command_succeeded ==> (final(self).outcome_spec() matches Some(
                Err(RemapError::DeviceFailed(id)),
            ) && id@ == old(self).ids()[old(self).pos()]),
    {
        proof {
            use_type_invariant(&*self);
        }
        if !command_succeeded {
            let d = &self.records[self.next];
            let id = copy_range(d.identifier.as_slice(), 0, d.identifier.len());
            proof {
                assert(id@ =~= self.records@[self.next as int].identifier@);
                assert(old(self).ids()[old(self).pos()] == self.records@[self.next as int]@);
            }
            self.outcome = Some(Err(RemapError::DeviceFailed(id)));
        } else if self.next + 1 == self.records.len() {
            self.outcome = Some(Ok(()));
        } else {
            self.next = self.next + 1;
        }
    }

    /// The session's result: nothing while a command outcome is still
    /// awaited; success once every record's command succeeded; `NoDevices`
    /// when there was no record at all; `DeviceFailed` with the identifier of
    /// the first record whose command failed.
    pub fn outcome(&self) -> (r: &Option<Result<(), RemapError>>)
        ensures
            *r == self.outcome_spec(),
            (*r) is None <==> self.running(),
    {
        &self.outcome
    }
}

} // verus!
