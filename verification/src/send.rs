//! Outbound send pipeline, run per `SendTo` task on a sender-pool worker:
//! derive the identity, register `Sending`, stream the announcement followed
//! by every file chunk on one network call, delete the local file only on a
//! confirmed success, and release the registration on every return path.
//!
//! The network call itself belongs to the surrounding process; its verdict
//! is an input here, so the pipeline is verified for both outcomes.

use vstd::prelude::*;

use crate::chunk::{chunk_file, chunks_of, ByteSource, SNAP_CHUNK_LEN};
use crate::msg::{derive_key, spec_snap_key, RaftMsg, RaftMsgView, SnapEntry, SnapKey};
use crate::registry::{RegEvent, Registry};
use crate::store::SnapStore;

verus! {

/// Why an outbound transfer failed.
#[derive(Clone, Copy, PartialEq, Eq, Structural, Debug)]
pub enum SendError {
    /// The control message's descriptor yields no identity.
    MalformedIdentity,
    /// No complete local file exists for the identity.
    MissingFile,
    /// The network call failed or the peer did not acknowledge.
    NetworkFailed,
}

/// One message streamed on the outbound call: the control message first,
/// then each file chunk as opaque bytes.
#[derive(Debug, PartialEq)]
pub enum ChunkMsg {
    Meta(RaftMsg),
    Data(Vec<u8>),
}

/// Mathematical value of a streamed message.
pub enum ChunkMsgView {
    Meta(RaftMsgView),
    Data(Seq<u8>),
}

impl View for ChunkMsg {
    type V = ChunkMsgView;

    open spec fn view(&self) -> ChunkMsgView {
        match self {
            ChunkMsg::Meta(m) => ChunkMsgView::Meta(m@),
            ChunkMsg::Data(d) => ChunkMsgView::Data(d@),
        }
    }
}

/// The message sequence streamed for file bytes `data` announced by `m`:
/// the control message, then the chunk decomposition of the file.
pub open spec fn wire_msgs(m: RaftMsgView, data: Seq<u8>) -> Seq<ChunkMsgView> {
    seq![ChunkMsgView::Meta(m)].add(
        chunks_of(data, SNAP_CHUNK_LEN as int).map_values(|c: Seq<u8>| ChunkMsgView::Data(c)),
    )
}

/// Registry events of one whole pipeline invocation: nothing for a
/// malformed identity; otherwise exactly one registration of `Sending`
/// followed by exactly one deregistration, whatever else happened.
pub open spec fn send_events(m: RaftMsgView) -> Seq<RegEvent> {
    match spec_snap_key(m) {
        Option::None => Seq::empty(),
        Option::Some(k) => seq![
            RegEvent::Registered(k, SnapEntry::Sending),
            RegEvent::Deregistered(k, SnapEntry::Sending),
        ],
    }
}

/// Registry contents after one whole pipeline invocation.
pub open spec fn send_reg(reg: Set<(SnapKey, SnapEntry)>, m: RaftMsgView) -> Set<
    (SnapKey, SnapEntry),
> {
    match spec_snap_key(m) {
        Option::None => reg,
        Option::Some(k) => reg.insert((k, SnapEntry::Sending)).remove((k, SnapEntry::Sending)),
    }
}

/// The committed files after one whole pipeline invocation: the local file
/// is deleted only on a confirmed success.
pub open spec fn send_store(store: Map<SnapKey, Seq<u8>>, m: RaftMsgView, net_ok: bool) -> Map<
    SnapKey,
    Seq<u8>,
> {
    match spec_snap_key(m) {
        Option::None => store,
        Option::Some(k) => if store.contains_key(k) && net_ok {
            store.remove(k)
        } else {
            store
        },
    }
}

/// The result a pipeline invocation reports to its completion callback.
pub open spec fn send_result(store: Map<SnapKey, Seq<u8>>, m: RaftMsgView, net_ok: bool) -> Result<
    (),
    SendError,
> {
    match spec_snap_key(m) {
        Option::None => Result::Err(SendError::MalformedIdentity),
        Option::Some(k) => if !store.contains_key(k) {
            Result::Err(SendError::MissingFile)
        } else if net_ok {
            Result::Ok(())
        } else {
            Result::Err(SendError::NetworkFailed)
        },
    }
}

/// The messages handed to the network call: empty when the call was never
/// opened (malformed identity or missing file).
pub open spec fn send_msgs(store: Map<SnapKey, Seq<u8>>, m: RaftMsgView) -> Seq<ChunkMsgView> {
    match spec_snap_key(m) {
        Option::None => Seq::empty(),
        Option::Some(k) => if store.contains_key(k) {
            wire_msgs(m, store[k])
        } else {
            Seq::empty()
        },
    }
}

/// First half of the pipeline: derives the identity, registers `Sending`,
/// and builds the message sequence to stream.  On a missing file the
/// registration is released before returning; on success it stays held
/// until [`conclude_send`] runs.
pub fn prepare_send(reg: &mut Registry, store: &SnapStore, msg: RaftMsg) -> (r: Result<
    (SnapKey, Vec<ChunkMsg>),
    SendError,
>)
    requires
        old(reg).wf(),
        store.wf(),
    ensures
        final(reg).wf(),
        ({
            match spec_snap_key(msg@) {
                Option::None => {
                    &&& r matches Result::Err(SendError::MalformedIdentity)
                    &&& final(reg)@ == old(reg)@
                    &&& final(reg).history() == old(reg).history()
                },
                Option::Some(k) => {
                    if store@.contains_key(k) {
                        &&& r matches Result::Ok(p) && p.0 == k && p.1@.map_values(
                            |c: ChunkMsg| c@,
                        ) == wire_msgs(msg@, store@[k])
                        &&& final(reg)@ == old(reg)@.insert((k, SnapEntry::Sending))
                        &&& final(reg).history() == old(reg).history().push(
                            RegEvent::Registered(k, SnapEntry::Sending),
                        )
                    } else {
                        &&& r matches Result::Err(SendError::MissingFile)
                        &&& final(reg)@ == old(reg)@.insert((k, SnapEntry::Sending)).remove(
                            (k, SnapEntry::Sending),
                        )
                        &&& final(reg).history() == old(reg).history().push(
                            RegEvent::Registered(k, SnapEntry::Sending),
                        ).push(RegEvent::Deregistered(k, SnapEntry::Sending))
                    }
                },
            }
        }),
{
    let ghost mv = msg@;
    let k = match derive_key(&msg) {
        None => {
            return Err(SendError::MalformedIdentity);
        },
        Some(k) => k,
    };
    reg.register(k, SnapEntry::Sending);
    let data = match store.read(k) {
        None => {
            reg.deregister(k, SnapEntry::Sending);
            return Err(SendError::MissingFile);
        },
        Some(d) => d,
    };
    let ghost dv = data@;
    let mut msgs: Vec<ChunkMsg> = Vec::new();
    msgs.push(ChunkMsg::Meta(msg));
    proof {
        assert(msgs@.map_values(|c: ChunkMsg| c@) =~= seq![ChunkMsgView::Meta(mv)]);
    }
    let mut src = ByteSource::new(data, SNAP_CHUNK_LEN);
    let mut chunks = chunk_file(&mut src, SNAP_CHUNK_LEN);
    let ghost total = chunks_of(dv, SNAP_CHUNK_LEN as int);
    while chunks.len() > 0
        invariant
            chunks@.len() <= total.len(),
            chunks@.map_values(|c: Vec<u8>| c@) == total.skip(total.len() - chunks@.len()),
            msgs@.map_values(|c: ChunkMsg| c@) == seq![ChunkMsgView::Meta(mv)].add(
                total.take(total.len() - chunks@.len()).map_values(
                    |c: Seq<u8>| ChunkMsgView::Data(c),
                ),
            ),
        decreases chunks@.len(),
    {
        let ghost done = total.len() - chunks@.len();
        let ghost pre = msgs@.map_values(|c: ChunkMsg| c@);
        let ghost pc = chunks@;
        let c = chunks.remove(0);
        proof {
            assert(pc.map_values(|x: Vec<u8>| x@)[0] == total.skip(done)[0]);
            assert(total.skip(done)[0] == total[done]);
            assert(c@ == total[done]);
            assert forall|j: int| 0 <= j < chunks@.len() implies (#[trigger] chunks@[j])@ == total[
                done + 1 + j
            ] by {
                assert(chunks@[j] == pc[j + 1]);
                assert(pc.map_values(|x: Vec<u8>| x@)[j + 1] == total.skip(done)[j + 1]);
            }
            assert(chunks@.map_values(|x: Vec<u8>| x@) =~= total.skip(done + 1));
            assert(total.take(done + 1) =~= total.take(done).push(total[done]));
            assert(total.take(done + 1).map_values(|x: Seq<u8>| ChunkMsgView::Data(x))
                =~= total.take(done).map_values(|x: Seq<u8>| ChunkMsgView::Data(x)).push(
                ChunkMsgView::Data(c@),
            ));
        }
        msgs.push(ChunkMsg::Data(c));
        proof {
            assert(msgs@.map_values(|x: ChunkMsg| x@) =~= pre.push(ChunkMsgView::Data(c@)));
            assert(seq![ChunkMsgView::Meta(mv)].add(
                total.take(done).map_values(|x: Seq<u8>| ChunkMsgView::Data(x)),
            ).push(ChunkMsgView::Data(c@)) =~= seq![ChunkMsgView::Meta(mv)].add(
                total.take(done + 1).map_values(|x: Seq<u8>| ChunkMsgView::Data(x)),
            ));
        }
    }
    proof {
        assert(total.take(total.len() as int) =~= total);
        assert(msgs@.map_values(|c: ChunkMsg| c@) == wire_msgs(mv, dv));
    }
    Ok((k, msgs))
}

/// Second half of the pipeline, after the network call's verdict is known:
/// on a confirmed success the local file is deleted; the `Sending`
/// registration is released either way, exactly once.
pub fn conclude_send(reg: &mut Registry, store: &mut SnapStore, key: SnapKey, net_ok: bool) -> (r:
    Result<(), SendError>)
    requires
        old(reg).wf(),
        old(store).wf(),
    ensures
        final(reg).wf(),
        final(store).wf(),
        final(reg)@ == old(reg)@.remove((key, SnapEntry::Sending)),
        final(reg).history() == old(reg).history().push(
            RegEvent::Deregistered(key, SnapEntry::Sending),
        ),
        net_ok ==> (r == Result::<(), SendError>::Ok(()) && final(store)@ == old(store)@.remove(
            key,
        )),
        !net_ok ==> (r == Result::<(), SendError>::Err(SendError::NetworkFailed) && final(store)@
            == old(store)@),
{
    let res: Result<(), SendError> = if net_ok {
        store.delete(key);
        Ok(())
    } else {
        Err(SendError::NetworkFailed)
    };
    reg.deregister(key, SnapEntry::Sending);
    res
}

/// One whole pipeline invocation with the transport verdict `net_ok`:
/// returns the completion result and the messages that were streamed.
pub fn send_snap(reg: &mut Registry, store: &mut SnapStore, msg: RaftMsg, net_ok: bool) -> (r: (
    Result<(), SendError>,
    Vec<ChunkMsg>,
))
    requires
        old(reg).wf(),
        old(store).wf(),
    ensures
        final(reg).wf(),
        final(store).wf(),
        r.0 == send_result(old(store)@, msg@, net_ok),
        r.1@.map_values(|c: ChunkMsg| c@) == send_msgs(old(store)@, msg@),
        final(reg)@ == send_reg(old(reg)@, msg@),
        final(store)@ == send_store(old(store)@, msg@, net_ok),
        final(reg).history() == old(reg).history() + send_events(msg@),
{
    let ghost mv = msg@;
    match prepare_send(reg, store, msg) {
        Err(e) => {
            proof {
                assert(reg.history() =~= old(reg).history() + send_events(mv));
            }
            let out: Vec<ChunkMsg> = Vec::new();
            proof {
                assert(out@.map_values(|c: ChunkMsg| c@) =~= send_msgs(old(store)@, mv));
            }
            (Err(e), out)
        },
        Ok((key, msgs)) => {
            let res = conclude_send(reg, store, key, net_ok);
            proof {
                assert(reg.history() =~= old(reg).history() + send_events(mv));
            }
            (res, msgs)
        },
    }
}

} // verus!
