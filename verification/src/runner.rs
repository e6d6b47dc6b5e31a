//! The transfer task runner: a single logical consumer that executes
//! lifecycle tasks one at a time against the open receive table, the
//! registry and the file store, and hands the resulting connection and
//! routing instructions back to the surrounding network layer.
//!
//! Every task's effect is defined by the spec-level transition [`step`]; the
//! executable [`Runner::run`] is proved to implement it exactly, for every
//! injected storage verdict.

use vstd::prelude::*;

use crate::msg::{derive_key, spec_snap_key, RaftMsg, RaftMsgView, SnapEntry, SnapKey};
use crate::registry::{RegEvent, Registry};
use crate::store::SnapStore;

verus! {

/// Verdicts of the surrounding storage layer for the fallible file
/// operations a task performs: whether a receive handle could be acquired,
/// whether appending to the open file succeeded, and whether committing it
/// succeeded.  They are inputs so that every failure path is verified.
#[derive(Clone, Copy, PartialEq, Eq, Structural, Debug)]
pub struct IoVerdict {
    pub acquire_ok: bool,
    pub write_ok: bool,
    pub save_ok: bool,
}

/// A lifecycle task the runner can handle.
///
/// `Register` opens a pending snapshot file under a connection token;
/// `Write` appends inbound bytes to it; `Close` commits it and forwards the
/// announcement; `Discard` drops the unsaved bytes; `SendTo` queues an
/// outbound transfer for the sender pool.
pub enum Task {
    Register(u64, RaftMsg),
    Write(u64, Vec<u8>),
    Close(u64),
    Discard(u64),
    SendTo { addr: String, msg: RaftMsg },
}

/// Mathematical value of a task.
pub enum TaskView {
    Register(u64, RaftMsgView),
    Write(u64, Seq<u8>),
    Close(u64),
    Discard(u64),
    SendTo { addr: Seq<char>, msg: RaftMsgView },
}

impl View for Task {
    type V = TaskView;

    open spec fn view(&self) -> TaskView {
        match self {
            Task::Register(t, m) => TaskView::Register(*t, m@),
            Task::Write(t, d) => TaskView::Write(*t, d@),
            Task::Close(t) => TaskView::Close(*t),
            Task::Discard(t) => TaskView::Discard(*t),
            Task::SendTo { addr, msg } => TaskView::SendTo { addr: addr@, msg: msg@ },
        }
    }
}

impl Task {
    /// Short name of the task variant, for logs and metrics.
    pub fn kind_name(&self) -> &'static str {
        match self {
            Task::Register(..) => "register",
            Task::Write(..) => "write",
            Task::Close(..) => "close",
            Task::Discard(..) => "discard",
            Task::SendTo { .. } => "send",
        }
    }
}

/// An instruction handed back to the surrounding layers: close a
/// connection, forward a complete announcement to the consensus router, or
/// dispatch an outbound transfer to the sender pool.
#[derive(Debug, PartialEq)]
pub enum Action {
    CloseConn(u64),
    Forward(RaftMsg),
    Dispatch { addr: String, msg: RaftMsg },
}

/// Mathematical value of an action.
pub enum ActionView {
    CloseConn(u64),
    Forward(RaftMsgView),
    Dispatch { addr: Seq<char>, msg: RaftMsgView },
}

impl View for Action {
    type V = ActionView;

    open spec fn view(&self) -> ActionView {
        match self {
            Action::CloseConn(t) => ActionView::CloseConn(*t),
            Action::Forward(m) => ActionView::Forward(m@),
            Action::Dispatch { addr, msg } => ActionView::Dispatch { addr: addr@, msg: msg@ },
        }
    }
}

/// One open receive: the identity it was registered under, the control
/// message that announced it, and the bytes appended so far.
pub struct RecvEntry {
    pub key: SnapKey,
    pub msg: RaftMsg,
    pub buf: Vec<u8>,
}

/// Mathematical value of an open receive.
pub struct RecvEntryView {
    pub key: SnapKey,
    pub msg: RaftMsgView,
    pub buf: Seq<u8>,
}

impl View for RecvEntry {
    type V = RecvEntryView;

    open spec fn view(&self) -> RecvEntryView {
        RecvEntryView { key: self.key, msg: self.msg@, buf: self.buf@ }
    }
}

/// The parts of the subsystem one task can touch: the open receive table,
/// the registry contents, and the committed files.
pub ghost struct StateView {
    pub table: Map<u64, RecvEntryView>,
    pub reg: Set<(SnapKey, SnapEntry)>,
    pub store: Map<SnapKey, Seq<u8>>,
}

/// What one task does: the state afterwards, the instructions handed back,
/// and the registry events it caused, in order.
pub ghost struct StepView {
    pub state: StateView,
    pub actions: Seq<ActionView>,
    pub events: Seq<RegEvent>,
}

/// A step that changes nothing and hands back only `actions`.
pub open spec fn step_noop(s: StateView, actions: Seq<ActionView>) -> StepView {
    StepView { state: s, actions, events: Seq::empty() }
}

/// Effect of `Register(token, m)`: derive the identity (close the
/// connection if that fails or no receive handle could be acquired); if a
/// complete file already exists, forward the announcement and close without
/// registering; reject a token or identity already receiving; otherwise
/// register `Receiving` and open a table entry with an empty buffer.
pub open spec fn step_register(s: StateView, token: u64, m: RaftMsgView, io: IoVerdict) -> StepView {
    match spec_snap_key(m) {
        Option::None => step_noop(s, seq![ActionView::CloseConn(token)]),
        Option::Some(k) => {
            if !io.acquire_ok {
                step_noop(s, seq![ActionView::CloseConn(token)])
            } else if s.store.contains_key(k) {
                step_noop(s, seq![ActionView::Forward(m), ActionView::CloseConn(token)])
            } else if s.table.contains_key(token) || s.reg.contains((k, SnapEntry::Receiving)) {
                step_noop(s, seq![ActionView::CloseConn(token)])
            } else {
                StepView {
                    state: StateView {
                        table: s.table.insert(
                            token,
                            RecvEntryView { key: k, msg: m, buf: Seq::empty() },
                        ),
                        reg: s.reg.insert((k, SnapEntry::Receiving)),
                        store: s.store,
                    },
                    actions: Seq::empty(),
                    events: seq![RegEvent::Registered(k, SnapEntry::Receiving)],
                }
            }
        },
    }
}

/// Effect of `Write(token, data)`: append to the open file; an unknown
/// token is a caller error and is ignored; a failed append abandons the
/// receive, releases its registration and closes the connection.
pub open spec fn step_write(s: StateView, token: u64, data: Seq<u8>, io: IoVerdict) -> StepView {
    if !s.table.contains_key(token) {
        step_noop(s, Seq::empty())
    } else {
        let e = s.table[token];
        if io.write_ok {
            StepView {
                state: StateView {
                    table: s.table.insert(
                        token,
                        RecvEntryView { key: e.key, msg: e.msg, buf: e.buf + data },
                    ),
                    reg: s.reg,
                    store: s.store,
                },
                actions: Seq::empty(),
                events: Seq::empty(),
            }
        } else {
            StepView {
                state: StateView {
                    table: s.table.remove(token),
                    reg: s.reg.remove((e.key, SnapEntry::Receiving)),
                    store: s.store,
                },
                actions: seq![ActionView::CloseConn(token)],
                events: seq![RegEvent::Deregistered(e.key, SnapEntry::Receiving)],
            }
        }
    }
}

/// Effect of `Close(token)`: commit the received bytes and forward the
/// announcement; on a failed commit nothing is forwarded.  On either path
/// the registration is released exactly once and the connection closed.
pub open spec fn step_close(s: StateView, token: u64, io: IoVerdict) -> StepView {
    if !s.table.contains_key(token) {
        step_noop(s, Seq::empty())
    } else {
        let e = s.table[token];
        if io.save_ok {
            StepView {
                state: StateView {
                    table: s.table.remove(token),
                    reg: s.reg.remove((e.key, SnapEntry::Receiving)),
                    store: s.store.insert(e.key, e.buf),
                },
                actions: seq![ActionView::Forward(e.msg), ActionView::CloseConn(token)],
                events: seq![RegEvent::Deregistered(e.key, SnapEntry::Receiving)],
            }
        } else {
            StepView {
                state: StateView {
                    table: s.table.remove(token),
                    reg: s.reg.remove((e.key, SnapEntry::Receiving)),
                    store: s.store,
                },
                actions: seq![ActionView::CloseConn(token)],
                events: seq![RegEvent::Deregistered(e.key, SnapEntry::Receiving)],
            }
        }
    }
}

/// Effect of `Discard(token)`: drop the unsaved bytes and release the
/// registration; nothing is committed or forwarded.
pub open spec fn step_discard(s: StateView, token: u64) -> StepView {
    if !s.table.contains_key(token) {
        step_noop(s, Seq::empty())
    } else {
        let e = s.table[token];
        StepView {
            state: StateView {
                table: s.table.remove(token),
                reg: s.reg.remove((e.key, SnapEntry::Receiving)),
                store: s.store,
            },
            actions: Seq::empty(),
            events: seq![RegEvent::Deregistered(e.key, SnapEntry::Receiving)],
        }
    }
}

/// Effect of one task on the subsystem state.
pub open spec fn step(s: StateView, t: TaskView, io: IoVerdict) -> StepView {
    match t {
        TaskView::Register(token, m) => step_register(s, token, m, io),
        TaskView::Write(token, data) => step_write(s, token, data, io),
        TaskView::Close(token) => step_close(s, token, io),
        TaskView::Discard(token) => step_discard(s, token),
        TaskView::SendTo { addr, msg } => step_noop(
            s,
            seq![ActionView::Dispatch { addr, msg }],
        ),
    }
}

/// Whether some entry of `s` holds `t`.
spec fn has_tok(s: Seq<(u64, RecvEntry)>, t: u64) -> bool {
    exists|i: int| 0 <= i < s.len() && s[i].0 == t
}

/// The open receive stored under `t` (meaningful only when `has_tok`).
spec fn tok_val(s: Seq<(u64, RecvEntry)>, t: u64) -> RecvEntryView {
    s[choose|i: int| 0 <= i < s.len() && s[i].0 == t].1@
}

/// The map an entry sequence denotes.
spec fn table_map(s: Seq<(u64, RecvEntry)>) -> Map<u64, RecvEntryView> {
    Map::new(|t: u64| has_tok(s, t), |t: u64| tok_val(s, t))
}

/// Each token appears at most once.
spec fn distinct_toks(s: Seq<(u64, RecvEntry)>) -> bool {
    forall|i: int, j: int| 0 <= i < j < s.len() ==> (#[trigger] s[i]).0 != (#[trigger] s[j]).0
}

proof fn lemma_table_at(s: Seq<(u64, RecvEntry)>, i: int)
    requires
        distinct_toks(s),
        0 <= i < s.len(),
    ensures
        has_tok(s, s[i].0),
        table_map(s)[s[i].0] == s[i].1@,
{
    let t = s[i].0;
    assert(has_tok(s, t));
    let j = choose|j: int| 0 <= j < s.len() && s[j].0 == t;
    assert(j == i);
}

proof fn lemma_table_push(s: Seq<(u64, RecvEntry)>, t: u64, e: RecvEntry)
    requires
        distinct_toks(s),
        !has_tok(s, t),
    ensures
        distinct_toks(s.push((t, e))),
        table_map(s.push((t, e))) == table_map(s).insert(t, e@),
{
    let u = s.push((t, e));
    assert forall|i: int, j: int| 0 <= i < j < u.len() implies (#[trigger] u[i]).0
        != (#[trigger] u[j]).0 by {
        if j == u.len() - 1 {
            assert(has_tok(s, s[i].0));
        } else {
            assert(s[i] == u[i] && s[j] == u[j]);
        }
    }
    assert forall|k: u64| #[trigger] has_tok(u, k) implies has_tok(s, k) || k == t by {
        let i = choose|i: int| 0 <= i < u.len() && u[i].0 == k;
        if i < s.len() {
            assert(s[i].0 == k);
        }
    }
    assert forall|k: u64| has_tok(s, k) implies #[trigger] has_tok(u, k) by {
        let i = choose|i: int| 0 <= i < s.len() && s[i].0 == k;
        assert(u[i].0 == k);
    }
    assert(u[u.len() - 1].0 == t);
    assert(has_tok(u, t));
    assert forall|k: u64| has_tok(u, k) implies table_map(u)[k] == table_map(s).insert(t, e@)[k] by {
        let i = choose|i: int| 0 <= i < u.len() && u[i].0 == k;
        lemma_table_at(u, i);
        if k == t {
            assert(i == u.len() - 1);
        } else {
            assert(i < s.len());
            lemma_table_at(s, i);
        }
    }
    assert(table_map(u) =~= table_map(s).insert(t, e@));
}

proof fn lemma_table_remove_at(s: Seq<(u64, RecvEntry)>, i: int)
    requires
        distinct_toks(s),
        0 <= i < s.len(),
    ensures
        distinct_toks(s.remove(i)),
        table_map(s.remove(i)) == table_map(s).remove(s[i].0),
{
    let t = s[i].0;
    let u = s.remove(i);
    assert forall|a: int, b: int| 0 <= a < b < u.len() implies (#[trigger] u[a]).0
        != (#[trigger] u[b]).0 by {
        let a0 = if a < i {
            a
        } else {
            a + 1
        };
        let b0 = if b < i {
            b
        } else {
            b + 1
        };
        assert(s[a0] == u[a] && s[b0] == u[b]);
    }
    assert forall|k: u64| #[trigger] has_tok(u, k) implies has_tok(s, k) && k != t by {
        let j = choose|j: int| 0 <= j < u.len() && u[j].0 == k;
        let j0 = if j < i {
            j
        } else {
            j + 1
        };
        assert(s[j0] == u[j]);
    }
    assert forall|k: u64| has_tok(s, k) && k != t implies #[trigger] has_tok(u, k) by {
        let j = choose|j: int| 0 <= j < s.len() && s[j].0 == k;
        assert(j != i);
        if j < i {
            assert(u[j].0 == k);
        } else {
            assert(u[j - 1].0 == k);
        }
    }
    assert forall|k: u64| has_tok(u, k) implies table_map(u)[k] == table_map(s).remove(t)[k] by {
        let j = choose|j: int| 0 <= j < u.len() && u[j].0 == k;
        lemma_table_at(u, j);
        let j0 = if j < i {
            j
        } else {
            j + 1
        };
        assert(s[j0] == u[j]);
        lemma_table_at(s, j0);
    }
    assert(table_map(u) =~= table_map(s).remove(t));
}

/// The receiving-side runner: owns the open receive table.  The registry
/// and the file store are shared with the sender pool and handed in per
/// task.
pub struct Runner {
    files: Vec<(u64, RecvEntry)>,
}

impl View for Runner {
    type V = Map<u64, RecvEntryView>;

    /// The open receive table: connection token to open receive.
    closed spec fn view(&self) -> Map<u64, RecvEntryView> {
        table_map(self.files@)
    }
}

impl Runner {
    /// Each token holds at most one open receive.
    pub closed spec fn wf(&self) -> bool {
        distinct_toks(self.files@)
    }

    /// A runner with no open receives.
    pub fn new() -> (r: Runner)
        ensures
            r.wf(),
            r@ == Map::<u64, RecvEntryView>::empty(),
    {
        let r = Runner { files: Vec::new() };
        proof {
            assert(r@ =~= Map::<u64, RecvEntryView>::empty());
        }
        r
    }

    /// The instruction that tears down the connection behind `token`.
    pub fn close(&self, token: u64) -> (a: Action)
        ensures
            a@ == ActionView::CloseConn(token),
    {
        Action::CloseConn(token)
    }

    /// The index holding `token`, if any.
    fn find(&self, token: u64) -> (r: Option<usize>)
        ensures
            match r {
                Option::Some(i) => i < self.files@.len() && self.files@[i as int].0 == token,
                Option::None => !has_tok(self.files@, token),
            },
    {
        let n = self.files.len();
        let mut i: usize = 0;
        while i < n
            invariant
                i <= n,
                n == self.files@.len(),
                forall|j: int| 0 <= j < i ==> (#[trigger] self.files@[j]).0 != token,
            decreases n - i,
        {
            if self.files[i].0 == token {
                return Some(i);
            }
            i = i + 1;
        }
        None
    }

    /// Whether `token` has an open receive.
    pub fn has_token(&self, token: u64) -> (r: bool)
        ensures
            r == self@.contains_key(token),
    {
        match self.find(token) {
            Some(_) => {
                proof {
                    assert(has_tok(self.files@, token));
                }
                true
            },
            None => false,
        }
    }

    /// Opens a table entry for a token with no entry yet.
    fn insert(&mut self, token: u64, e: RecvEntry)
        requires
            old(self).wf(),
            !old(self)@.contains_key(token),
        ensures
            final(self).wf(),
            final(self)@ == old(self)@.insert(token, e@),
    {
        proof {
            assert(!has_tok(self.files@, token));
            lemma_table_push(self.files@, token, e);
        }
        self.files.push((token, e));
    }

    /// Takes the open receive for `token` out of the table, if any.
    fn remove(&mut self, token: u64) -> (r: Option<RecvEntry>)
        requires
            old(self).wf(),
        ensures
            final(self).wf(),
            match r {
                Option::Some(e) => {
                    &&& old(self)@.contains_key(token)
                    &&& e@ == old(self)@[token]
                    &&& final(self)@ == old(self)@.remove(token)
                },
                Option::None => {
                    &&& !old(self)@.contains_key(token)
                    &&& final(self)@ == old(self)@
                },
            },
    {
        match self.find(token) {
            Some(i) => {
                proof {
                    lemma_table_at(self.files@, i as int);
                    lemma_table_remove_at(self.files@, i as int);
                }
                let (_, e) = self.files.remove(i);
                Some(e)
            },
            None => None,
        }
    }

    /// Executes one task to completion against the table, the registry and
    /// the store, exactly as the transition [`step`] defines, and returns
    /// the instructions for the surrounding layers.  No failure terminates
    /// the runner: every path returns normally.
    pub fn run(&mut self, reg: &mut Registry, store: &mut SnapStore, task: Task, io: IoVerdict) -> (out: Vec<
        Action,
    >)
        requires
            old(self).wf(),
            old(reg).wf(),
            old(store).wf(),
        ensures
            final(self).wf(),
            final(reg).wf(),
            final(store).wf(),
            ({
                let r = step(
                    StateView { table: old(self)@, reg: old(reg)@, store: old(store)@ },
                    task@,
                    io,
                );
                &&& final(self)@ == r.state.table
                &&& final(reg)@ == r.state.reg
                &&& final(store)@ == r.state.store
                &&& out@.map_values(|a: Action| a@) == r.actions
                &&& final(reg).history() == old(reg).history() + r.events
            }),
    {
        let ghost s0 = StateView { table: old(self)@, reg: old(reg)@, store: old(store)@ };
        let ghost tv = task@;
        let mut out: Vec<Action> = Vec::new();
        match task {
            Task::Register(token, m) => {
                let ghost mv = m@;
                match derive_key(&m) {
                    None => {
                        out.push(Action::CloseConn(token));
                    },
                    Some(k) => {
                        if !io.acquire_ok {
                            out.push(Action::CloseConn(token));
                        } else if store.has(k) {
                            out.push(Action::Forward(m));
                            out.push(Action::CloseConn(token));
                        } else if self.has_token(token) || reg.contains(k, SnapEntry::Receiving) {
                            out.push(Action::CloseConn(token));
                        } else {
                            reg.register(k, SnapEntry::Receiving);
                            self.insert(token, RecvEntry { key: k, msg: m, buf: Vec::new() });
                            proof {
                                let r = step(s0, tv, io);
                                assert(self@ =~= r.state.table);
                                assert(reg.history() =~= old(reg).history() + r.events);
                            }
                        }
                    },
                }
            },
            Task::Write(token, data) => {
                let ghost dv = data@;
                match self.remove(token) {
                    None => {},
                    Some(e) => {
                        let RecvEntry { key, msg, mut buf } = e;
                        if io.write_ok {
                            let mut d = data;
                            buf.append(&mut d);
                            self.insert(token, RecvEntry { key, msg, buf });
                            proof {
                                let r = step(s0, tv, io);
                                assert(self@ =~= r.state.table);
                            }
                        } else {
                            reg.deregister(key, SnapEntry::Receiving);
                            out.push(Action::CloseConn(token));
                            proof {
                                let r = step(s0, tv, io);
                                assert(reg.history() =~= old(reg).history() + r.events);
                            }
                        }
                    },
                }
            },
            Task::Close(token) => {
                match self.remove(token) {
                    None => {},
                    Some(e) => {
                        let RecvEntry { key, msg, buf } = e;
                        if io.save_ok {
                            store.save(key, buf);
                            out.push(Action::Forward(msg));
                            out.push(Action::CloseConn(token));
                        } else {
                            out.push(Action::CloseConn(token));
                        }
                        reg.deregister(key, SnapEntry::Receiving);
                        proof {
                            let r = step(s0, tv, io);
                            assert(reg.history() =~= old(reg).history() + r.events);
                        }
                    },
                }
            },
            Task::Discard(token) => {
                match self.remove(token) {
                    None => {},
                    Some(e) => {
                        reg.deregister(e.key, SnapEntry::Receiving);
                        proof {
                            let r = step(s0, tv, io);
                            assert(reg.history() =~= old(reg).history() + r.events);
                        }
                    },
                }
            },
            Task::SendTo { addr, msg } => {
                out.push(Action::Dispatch { addr, msg });
            },
        }
        proof {
            let r = step(s0, tv, io);
            assert(out@.map_values(|a: Action| a@) =~= r.actions);
            assert(reg.history() =~= old(reg).history() + r.events);
        }
        out
    }
}

} // verus!
