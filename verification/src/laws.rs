//! The guarantees the subsystem states for itself, proved once and for all
//! over the transition specifications that the executable code implements.

use vstd::prelude::*;

use crate::msg::{spec_snap_key, RaftMsgView, SnapEntry, SnapKey};
use crate::registry::RegEvent;
use crate::runner::{
    step, step_close, step_register, step_write, ActionView, IoVerdict, RecvEntryView, StateView,
    TaskView,
};
use crate::send::{send_events, send_msgs, send_reg, send_result, send_store, SendError};

verus! {

/// Cross-component invariant of the receive side: every open receive holds
/// a `Receiving` registration for its identity, and no two open receives
/// share an identity.
pub open spec fn recv_inv(s: StateView) -> bool {
    &&& forall|t: u64|
        s.table.contains_key(t) ==> s.reg.contains(
            ((#[trigger] s.table[t]).key, SnapEntry::Receiving),
        )
    &&& forall|t1: u64, t2: u64|
        s.table.contains_key(t1) && s.table.contains_key(t2) && t1 != t2 ==> (
        #[trigger] s.table[t1]).key != (#[trigger] s.table[t2]).key
}

/// Every task preserves the receive-side invariant, under success and under
/// every injected failure.
pub proof fn law_step_preserves_inv(s: StateView, t: TaskView, io: IoVerdict)
    requires
        recv_inv(s),
    ensures
        recv_inv(step(s, t, io).state),
{
    let s2 = step(s, t, io).state;
    match t {
        TaskView::Register(token, m) => {
            if let Option::Some(k) = spec_snap_key(m) {
                if io.acquire_ok && !s.store.contains_key(k) && !s.table.contains_key(token)
                    && !s.reg.contains((k, SnapEntry::Receiving)) {
                    assert forall|t1: u64, t2: u64|
                        s2.table.contains_key(t1) && s2.table.contains_key(t2) && t1
                            != t2 implies (#[trigger] s2.table[t1]).key != (
                        #[trigger] s2.table[t2]).key by {
                        if t1 == token {
                            assert(s.reg.contains((s.table[t2].key, SnapEntry::Receiving)));
                        } else if t2 == token {
                            assert(s.reg.contains((s.table[t1].key, SnapEntry::Receiving)));
                        }
                    }
                }
            }
        },
        TaskView::Write(token, _) => {
            if s.table.contains_key(token) && !io.write_ok {
                let k = s.table[token].key;
                assert forall|t1: u64| s2.table.contains_key(t1) implies s2.reg.contains(
                    ((#[trigger] s2.table[t1]).key, SnapEntry::Receiving),
                ) by {
                    assert(s.table[t1].key != k);
                }
            }
        },
        TaskView::Close(token) => {
            if s.table.contains_key(token) {
                let k = s.table[token].key;
                assert forall|t1: u64| s2.table.contains_key(t1) implies s2.reg.contains(
                    ((#[trigger] s2.table[t1]).key, SnapEntry::Receiving),
                ) by {
                    assert(s.table[t1].key != k);
                }
            }
        },
        TaskView::Discard(token) => {
            if s.table.contains_key(token) {
                let k = s.table[token].key;
                assert forall|t1: u64| s2.table.contains_key(t1) implies s2.reg.contains(
                    ((#[trigger] s2.table[t1]).key, SnapEntry::Receiving),
                ) by {
                    assert(s.table[t1].key != k);
                }
            }
        },
        TaskView::SendTo { .. } => {},
    }
}

/// The state after the runner has consumed a whole sequence of tasks, one
/// at a time, with the storage verdict each one saw.
pub open spec fn apply_tasks(s: StateView, ts: Seq<(TaskView, IoVerdict)>) -> StateView
    decreases ts.len(),
{
    if ts.len() == 0 {
        s
    } else {
        apply_tasks(step(s, ts[0].0, ts[0].1).state, ts.skip(1))
    }
}

/// Any sequence of tasks — in any order, under any mix of successes and
/// injected failures — keeps the receive side consistent: open receives
/// stay registered and no identity is received twice at once.
pub proof fn law_any_run_preserves_inv(s: StateView, ts: Seq<(TaskView, IoVerdict)>)
    requires
        recv_inv(s),
    ensures
        recv_inv(apply_tasks(s, ts)),
    decreases ts.len(),
{
    if ts.len() > 0 {
        law_step_preserves_inv(s, ts[0].0, ts[0].1);
        law_any_run_preserves_inv(step(s, ts[0].0, ts[0].1).state, ts.skip(1));
    }
}

/// A successful registration records exactly one `Receiving` registration
/// for the derived identity and opens exactly one table entry with an empty
/// buffer — and that is the only kind of task that registers anything.
pub proof fn law_register_records_once(
    s: StateView,
    token: u64,
    m: RaftMsgView,
    io: IoVerdict,
    k: SnapKey,
)
    requires
        spec_snap_key(m) == Option::Some(k),
        io.acquire_ok,
        !s.store.contains_key(k),
        !s.table.contains_key(token),
        !s.reg.contains((k, SnapEntry::Receiving)),
    ensures
        ({
            let r = step_register(s, token, m, io);
            &&& r.events == seq![RegEvent::Registered(k, SnapEntry::Receiving)]
            &&& r.state.reg == s.reg.insert((k, SnapEntry::Receiving))
            &&& r.state.table == s.table.insert(
                token,
                RecvEntryView { key: k, msg: m, buf: Seq::empty() },
            )
            &&& r.state.store == s.store
            &&& r.actions == Seq::<ActionView>::empty()
        }),
{
}

/// The guaranteed-release discipline on the receive side: whichever task
/// ends an open receive — Discard, Close with either save outcome, or a
/// failed Write — releases its `Receiving` registration exactly once;
/// afterwards neither the table entry nor the registration remains.
pub proof fn law_receive_release(s: StateView, token: u64, t: TaskView, io: IoVerdict)
    requires
        recv_inv(s),
        s.table.contains_key(token),
        t == TaskView::Discard(token) || t == TaskView::Close(token) || (t matches TaskView::Write(
            tk,
            _,
        ) && tk == token && !io.write_ok),
    ensures
        ({
            let k = s.table[token].key;
            let r = step(s, t, io);
            &&& r.events == seq![RegEvent::Deregistered(k, SnapEntry::Receiving)]
            &&& !r.state.table.contains_key(token)
            &&& !r.state.reg.contains((k, SnapEntry::Receiving))
        }),
{
}

/// A Write, Close or Discard for a token with no open receive changes
/// nothing at all: no table entry, no registry change, no file, no event,
/// no instruction — a caller error is ignored, never fatal.
pub proof fn law_unknown_token_ignored(s: StateView, token: u64, t: TaskView, io: IoVerdict)
    requires
        !s.table.contains_key(token),
        t == TaskView::Close(token) || t == TaskView::Discard(token) || (t matches TaskView::Write(
            tk,
            _,
        ) && tk == token),
    ensures
        step(s, t, io).state == s,
        step(s, t, io).actions == Seq::<ActionView>::empty(),
        step(s, t, io).events == Seq::<RegEvent>::empty(),
{
}

/// A Register for an identity whose complete file already exists forwards
/// the announcement exactly once, closes the connection, and neither
/// registers `Receiving` nor opens a table entry.
pub proof fn law_register_existing_file(
    s: StateView,
    token: u64,
    m: RaftMsgView,
    io: IoVerdict,
    k: SnapKey,
)
    requires
        spec_snap_key(m) == Option::Some(k),
        io.acquire_ok,
        s.store.contains_key(k),
    ensures
        ({
            let r = step_register(s, token, m, io);
            &&& r.state == s
            &&& r.events == Seq::<RegEvent>::empty()
            &&& r.actions == seq![ActionView::Forward(m), ActionView::CloseConn(token)]
        }),
{
}

/// The states along a run of Write tasks for one token.
pub open spec fn apply_writes(
    s: StateView,
    token: u64,
    ws: Seq<Seq<u8>>,
    io: IoVerdict,
) -> StateView
    decreases ws.len(),
{
    if ws.len() == 0 {
        s
    } else {
        apply_writes(step_write(s, token, ws[0], io).state, token, ws.skip(1), io)
    }
}

/// Successful writes only grow the open buffer: after appending every block
/// of `ws`, the entry holds its old bytes followed by their concatenation,
/// and nothing else in the state moves.
pub proof fn lemma_apply_writes(s: StateView, token: u64, ws: Seq<Seq<u8>>, io: IoVerdict)
    requires
        io.write_ok,
        s.table.contains_key(token),
    ensures
        ({
            let e = s.table[token];
            let s2 = apply_writes(s, token, ws, io);
            &&& s2.table == s.table.insert(
                token,
                RecvEntryView { key: e.key, msg: e.msg, buf: e.buf + ws.flatten() },
            )
            &&& s2.reg == s.reg
            &&& s2.store == s.store
        }),
    decreases ws.len(),
{
    let e = s.table[token];
    if ws.len() == 0 {
        assert(ws.flatten() =~= Seq::<u8>::empty());
        assert(e.buf + ws.flatten() =~= e.buf);
        assert(RecvEntryView { key: e.key, msg: e.msg, buf: e.buf + ws.flatten() } == e);
        assert(s.table.insert(token, e) =~= s.table);
    } else {
        let s1 = step_write(s, token, ws[0], io).state;
        assert(s1.table == s.table.insert(
            token,
            RecvEntryView { key: e.key, msg: e.msg, buf: e.buf + ws[0] },
        ));
        lemma_apply_writes(s1, token, ws.skip(1), io);
        let e1 = s1.table[token];
        assert(e1.key == e.key && e1.msg == e.msg && e1.buf == e.buf + ws[0]);
        assert(ws.skip(1) =~= ws.drop_first());
        assert(ws.flatten() == ws.first().add(ws.drop_first().flatten()));
        assert((e.buf + ws[0]) + ws.drop_first().flatten() =~= e.buf + ws.flatten());
        assert(s1.table.insert(
            token,
            RecvEntryView { key: e.key, msg: e.msg, buf: e1.buf + ws.skip(1).flatten() },
        ) =~= s.table.insert(
            token,
            RecvEntryView { key: e.key, msg: e.msg, buf: e.buf + ws.flatten() },
        ));
    }
}

/// Round trip of a whole receive: however the inbound bytes were cut into
/// Write blocks, Register followed by those Writes and a Close commits a
/// file holding exactly their concatenation, forwards the announcement
/// exactly once, and releases the registration.
pub proof fn law_receive_round_trip(
    s: StateView,
    token: u64,
    m: RaftMsgView,
    ws: Seq<Seq<u8>>,
    io: IoVerdict,
    k: SnapKey,
)
    requires
        spec_snap_key(m) == Option::Some(k),
        io.acquire_ok,
        io.write_ok,
        io.save_ok,
        !s.store.contains_key(k),
        !s.table.contains_key(token),
        !s.reg.contains((k, SnapEntry::Receiving)),
    ensures
        ({
            let s1 = step_register(s, token, m, io).state;
            let s2 = apply_writes(s1, token, ws, io);
            let r3 = step_close(s2, token, io);
            &&& r3.state.store == s.store.insert(k, ws.flatten())
            &&& r3.actions == seq![ActionView::Forward(m), ActionView::CloseConn(token)]
            &&& !r3.state.reg.contains((k, SnapEntry::Receiving))
            &&& !r3.state.table.contains_key(token)
        }),
{
    let s1 = step_register(s, token, m, io).state;
    assert(s1.table[token] == RecvEntryView { key: k, msg: m, buf: Seq::<u8>::empty() });
    lemma_apply_writes(s1, token, ws, io);
    let s2 = apply_writes(s1, token, ws, io);
    assert(Seq::<u8>::empty() + ws.flatten() =~= ws.flatten());
    assert(s2.table[token] == RecvEntryView { key: k, msg: m, buf: ws.flatten() });
    let r3 = step_close(s2, token, io);
    assert(r3.state.store == s.store.insert(k, ws.flatten()));
}

/// The guaranteed-release discipline on the send side: a pipeline
/// invocation whose control message yields an identity registers `Sending`
/// exactly once and releases it exactly once, in that order — whatever the
/// file and transport outcomes — and afterwards the marker is gone.
pub proof fn law_send_release(reg: Set<(SnapKey, SnapEntry)>, m: RaftMsgView, k: SnapKey)
    requires
        spec_snap_key(m) == Option::Some(k),
    ensures
        send_events(m) == seq![
            RegEvent::Registered(k, SnapEntry::Sending),
            RegEvent::Deregistered(k, SnapEntry::Sending),
        ],
        !send_reg(reg, m).contains((k, SnapEntry::Sending)),
{
}

/// A malformed control message registers nothing, releases nothing, streams
/// nothing and fails with the identity error, leaving every state as it
/// was.
pub proof fn law_send_malformed(
    reg: Set<(SnapKey, SnapEntry)>,
    store: Map<SnapKey, Seq<u8>>,
    m: RaftMsgView,
    net_ok: bool,
)
    requires
        spec_snap_key(m) is None,
    ensures
        send_events(m) == Seq::<RegEvent>::empty(),
        send_reg(reg, m) == reg,
        send_store(store, m, net_ok) == store,
        send_result(store, m, net_ok) == Result::<(), SendError>::Err(SendError::MalformedIdentity),
        send_msgs(store, m) == Seq::<crate::send::ChunkMsgView>::empty(),
{
}

/// A send for an identity with no complete local file reports the missing
/// file through the callback, opens no network call, deletes nothing, and
/// leaves no `Sending` marker registered afterwards.
pub proof fn law_send_missing_file(
    reg: Set<(SnapKey, SnapEntry)>,
    store: Map<SnapKey, Seq<u8>>,
    m: RaftMsgView,
    k: SnapKey,
    net_ok: bool,
)
    requires
        spec_snap_key(m) == Option::Some(k),
        !store.contains_key(k),
    ensures
        send_result(store, m, net_ok) == Result::<(), SendError>::Err(SendError::MissingFile),
        !send_reg(reg, m).contains((k, SnapEntry::Sending)),
        send_store(store, m, net_ok) == store,
        send_msgs(store, m) == Seq::<crate::send::ChunkMsgView>::empty(),
{
}

} // verus!
