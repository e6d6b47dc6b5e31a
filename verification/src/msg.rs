//! Snapshot identities, direction markers, and the control message that
//! announces a snapshot transfer.

use vstd::prelude::*;

verus! {

/// Identity of one snapshot instance: the replicated-group id plus the log
/// term and index at which the snapshot was taken.  Two transfers with the
/// same identity refer to the same logical data.
#[derive(Clone, Copy, PartialEq, Eq, Structural, Debug)]
pub struct SnapKey {
    pub region_id: u64,
    pub term: u64,
    pub idx: u64,
}

/// Direction marker registered against a snapshot identity while a transfer
/// is in flight.
#[derive(Clone, Copy, PartialEq, Eq, Structural, Debug)]
pub enum SnapEntry {
    Sending,
    Receiving,
}

/// The snapshot descriptor embedded in a control message: the fields from
/// which a snapshot identity is derived.
#[derive(Clone, Copy, PartialEq, Eq, Structural, Debug)]
pub struct SnapDescriptor {
    pub region_id: u64,
    pub term: u64,
    pub idx: u64,
}

/// Control message announcing a snapshot transfer.  `descriptor` is `None`
/// when the embedded descriptor cannot be decoded into an identity (a
/// malformed message); `meta` carries the snapshot metadata bytes handed to
/// the file layer when a receive begins.
#[derive(Clone, Debug, PartialEq)]
pub struct RaftMsg {
    pub descriptor: Option<SnapDescriptor>,
    pub meta: Vec<u8>,
}

/// Mathematical value of a control message.
pub struct RaftMsgView {
    pub descriptor: Option<SnapDescriptor>,
    pub meta: Seq<u8>,
}

impl View for RaftMsg {
    type V = RaftMsgView;

    open spec fn view(&self) -> RaftMsgView {
        RaftMsgView { descriptor: self.descriptor, meta: self.meta@ }
    }
}

/// The identity a well-formed descriptor yields.
pub open spec fn key_of(d: SnapDescriptor) -> SnapKey {
    SnapKey { region_id: d.region_id, term: d.term, idx: d.idx }
}

/// The identity a control message yields: `None` iff the descriptor is
/// malformed.
pub open spec fn spec_snap_key(m: RaftMsgView) -> Option<SnapKey> {
    match m.descriptor {
        Option::Some(d) => Option::Some(key_of(d)),
        Option::None => Option::None,
    }
}

/// Derives the snapshot identity from a control message; returns `None` iff
/// the embedded descriptor is malformed.
pub fn derive_key(m: &RaftMsg) -> (r: Option<SnapKey>)
    ensures
        r == spec_snap_key(m@),
{
    match m.descriptor {
        Some(d) => Some(SnapKey { region_id: d.region_id, term: d.term, idx: d.idx }),
        None => None,
    }
}

} // verus!
