//! All processes of the system running the register algorithm for one sector,
//! with the messages they sent, as one state machine. Each process is the
//! model of its register (`RegisterModel`) together with what it stores for
//! the sector; each step is a step of one register, exactly as
//! `AtomicRegisterImplementation` takes it, with the messages it sends added
//! to the network. The network keeps every message sent: a message may be
//! delivered any number of times, in any order, or never. A process may crash
//! and recover at any time, keeping what it stored.
//!
//! Beside the processes the model keeps a history of what happened (the
//! stamps and values writes introduced, which processes acknowledged the
//! value of each completed operation, and the completed operations), from
//! which the law of the register is stated: an operation sees every
//! operation, read or write, that completed before it began.
use vstd::prelude::*;

use crate::atomic_register::{
    distinct_processes, highest, insert_ack, insert_reading, is_majority, lemma_insert_reading_elements, lemma_highest_is_maximal, lemma_insert_reading,
    lemma_steps_keep_invariant, stamp_greater, Reading, RegisterModel,
};
use crate::domain::{
    zero_sector, ClientCommandModel, ClientContentModel, OperationReturnModel, SystemCommandModel,
    SystemContentModel,
};

verus! {

/// A timestamp and the rank of the process that wrote with it.
pub type Stamp = (u64, u8);

/// `a` is not before `b` in the lexicographic order of stamps.
pub open spec fn stamp_ge(a: Stamp, b: Stamp) -> bool {
    !stamp_greater(b.0, b.1, a.0, a.1)
}

/// The ranks of the processes: 1 to `n`.
pub open spec fn procs(n: nat) -> Set<u8> {
    Set::new(|q: u8| 1 <= q && q <= n)
}

/// One step of the system.
pub enum Event {
    /// Process `p` starts a client command; its register is idle.
    Client { p: u8, cmd: ClientCommandModel },
    /// Process `p` handles a message that was sent to it.
    Deliver { p: u8, msg: SystemCommandModel },
    /// Process `p` crashes and recovers from what it stored: its sector and
    /// the durable state of its register, which it stores at every change.
    /// A write that was in progress is given back, to be submitted again as a
    /// client command.
    Crash { p: u8 },
}

/// A client command that completed.
pub struct Completion {
    pub process: u8,
    pub is_read: bool,
    /// The stamp of the value written back (a read) or written (a write).
    pub stamp: Stamp,
    /// The data returned to the client (a read) or written (a write).
    pub data: Seq<u8>,
    /// The stamps of the commands (reads and writes) that had completed when
    /// the command began.
    pub floor: Set<Stamp>,
    /// How many client commands had completed when the command began.
    pub began: nat,
}

/// The system for one sector.
pub struct SystemModel {
    /// Number of processes.
    pub n: nat,
    /// The register of each process.
    pub regs: Map<u8, RegisterModel>,
    /// What each process stores for the sector: timestamp, write rank, data.
    pub disk: Map<u8, (u64, u8, Seq<u8>)>,
    /// Every message sent, with its destination.
    pub net: Set<(u8, SystemCommandModel)>,
    /// Every stamp with its data that a write introduced, and the initial one.
    pub values: Set<(Stamp, Seq<u8>)>,
    /// For the stamp of each completed command, the processes that
    /// acknowledged the value written (or written back) with it.
    pub holders: Map<Stamp, Set<u8>>,
    /// For the first round of each command of a process: the stamps of the
    /// commands completed when the command began.
    pub floors: Map<(u8, u64), Set<Stamp>>,
    /// For a process in the second round of a command: the stamp and data it
    /// sent, and the floor of the command.
    pub phase2: Map<u8, (Stamp, Seq<u8>, Set<Stamp>)>,
    /// The completed client commands, in order.
    pub done: Seq<Completion>,
    /// For a process with a command in progress: how many client commands had
    /// completed when it began.
    pub starts: Map<u8, nat>,
}

pub open spec fn disk_stamp(d: (u64, u8, Seq<u8>)) -> Stamp {
    (d.0, d.1)
}

/// `net` with `m` sent to every process.
pub open spec fn broadcast_to(net: Set<(u8, SystemCommandModel)>, n: nat, m: SystemCommandModel) -> Set<
    (u8, SystemCommandModel),
> {
    net.union(Set::new(|e: (u8, SystemCommandModel)| procs(n).contains(e.0) && e.1 == m))
}

/// The system of `n` processes before anything happened: every register
/// fresh, every sector zero with stamp (0, 0), no message.
pub open spec fn init(n: nat) -> SystemModel {
    SystemModel {
        n,
        regs: Map::new(
            |p: u8| procs(n).contains(p),
            |p: u8| RegisterModel::recovered(p, n as usize, None).0,
        ),
        disk: Map::new(|p: u8| procs(n).contains(p), |p: u8| (0u64, 0u8, zero_sector())),
        net: Set::empty(),
        values: Set::empty().insert(((0u64, 0u8), zero_sector())),
        holders: Map::empty(),
        floors: Map::empty(),
        phase2: Map::empty(),
        done: Seq::empty(),
        starts: Map::empty(),
    }
}

/// The process that owns the round of a message: the sender of READ_PROC and
/// WRITE_PROC, the destination of VALUE and ACK.
pub open spec fn owner(e: (u8, SystemCommandModel)) -> u8 {
    match e.1.content {
        SystemContentModel::ReadProc => e.1.header.process_identifier,
        SystemContentModel::WriteProc { .. } => e.1.header.process_identifier,
        _ => e.0,
    }
}

/// The message is of the first round of a command.
pub open spec fn first_round_msg(m: SystemCommandModel) -> bool {
    m.content is ReadProc || m.content is Value
}

impl SystemModel {
    pub open spec fn local_of(self, p: u8) -> Option<(Option<Seq<u8>>, u64, u8)> {
        Some((Some(self.disk[p].2), self.disk[p].0, self.disk[p].1))
    }

    pub open spec fn enabled(self, e: Event) -> bool {
        match e {
            Event::Client { p, cmd } => {
                &&& procs(self.n).contains(p)
                &&& !self.regs[p].reading
                &&& !self.regs[p].state.writing
                &&& self.regs[p].state.read_ident < u64::MAX
            },
            Event::Deliver { p, msg } => {
                &&& self.net.contains((p, msg))
                &&& !self.regs[p].system_overflows(msg)
            },
            Event::Crash { p } => procs(self.n).contains(p),
        }
    }

    pub open spec fn crash_step(self, p: u8) -> SystemModel {
        SystemModel {
            regs: self.regs.insert(p, RegisterModel::recovered(p, self.n as usize, Some(self.regs[p].state)).0),
            phase2: self.phase2.remove(p),
            ..self
        }
    }

    pub open spec fn client_step(self, p: u8, cmd: ClientCommandModel) -> SystemModel {
        let (r, a) = self.regs[p].after_client(cmd);
        SystemModel {
            regs: self.regs.insert(p, r),
            net: broadcast_to(self.net, self.n, a.broadcast.unwrap()),
            floors: self.floors.insert((p, r.state.read_ident), self.holders.dom()),
            starts: self.starts.insert(p, self.done.len()),
            ..self
        }
    }

    pub open spec fn deliver_step(self, p: u8, msg: SystemCommandModel) -> SystemModel {
        let m = self.regs[p];
        let (r, a) = m.after_system(msg, self.local_of(p));
        let regs = self.regs.insert(p, r);
        match msg.content {
            SystemContentModel::ReadProc => SystemModel {
                regs,
                net: self.net.insert((a.send.unwrap().1 as u8, a.send.unwrap().0)),
                ..self
            },
            SystemContentModel::WriteProc { .. } => SystemModel {
                regs,
                net: self.net.insert((a.send.unwrap().1 as u8, a.send.unwrap().0)),
                disk: match a.write_sector {
                    Some(w) => self.disk.insert(p, (w.2, w.3, w.1)),
                    None => self.disk,
                },
                ..self
            },
            SystemContentModel::Value { .. } => match a.broadcast {
                Some(b) => match b.content {
                    SystemContentModel::WriteProc { timestamp, write_rank, data_to_write } => SystemModel {
                        regs,
                        net: broadcast_to(self.net, self.n, b),
                        values: self.values.insert(((timestamp, write_rank), data_to_write)),
                        phase2: self.phase2.insert(
                            p,
                            ((timestamp, write_rank), data_to_write, self.floors[(p, m.state.read_ident)]),
                        ),
                        ..self
                    },
                    _ => SystemModel { regs, ..self },
                },
                None => SystemModel { regs, ..self },
            },
            SystemContentModel::Ack => match a.complete {
                Some(c) => {
                    let st = self.phase2[p].0;
                    let data = match c.op_return {
                        OperationReturnModel::Read { read_data: Some(d) } => d,
                        _ => self.phase2[p].1,
                    };
                    let comp = Completion {
                        process: p,
                        is_read: m.reading,
                        stamp: st,
                        data,
                        floor: self.phase2[p].2,
                        began: self.starts[p],
                    };
                    let holders = if !self.holders.contains_key(st) {
                        self.holders.insert(st, insert_ack(m.acks, msg.header.process_identifier))
                    } else {
                        self.holders
                    };
                    SystemModel {
                        regs,
                        holders,
                        phase2: self.phase2.remove(p),
                        done: self.done.push(comp),
                        ..self
                    }
                },
                None => SystemModel { regs, ..self },
            },
        }
    }

    pub open spec fn step(self, e: Event) -> SystemModel {
        match e {
            Event::Client { p, cmd } => self.client_step(p, cmd),
            Event::Deliver { p, msg } => self.deliver_step(p, msg),
            Event::Crash { p } => self.crash_step(p),
        }
    }
}

/// The system after `events`, starting from `init(n)`.
pub open spec fn run(n: nat, events: Seq<Event>) -> SystemModel
    decreases events.len(),
{
    if events.len() == 0 {
        init(n)
    } else {
        run(n, events.drop_last()).step(events.last())
    }
}

/// Every event of `events` could happen when it did.
pub open spec fn valid_run(n: nat, events: Seq<Event>) -> bool
    decreases events.len(),
{
    events.len() == 0 || (valid_run(n, events.drop_last()) && run(n, events.drop_last()).enabled(
        events.last(),
    ))
}

/// What the law says of a completed command: its stamp is not before the
/// stamp of any command completed when it began (and after it, for a write),
/// and its data is the data that some write, or the initial sector, carried
/// with that stamp.
pub open spec fn completion_ok(c: Completion, values: Set<(Stamp, Seq<u8>)>) -> bool {
    &&& forall|st: Stamp| #[trigger]
        c.floor.contains(st) ==> stamp_ge(c.stamp, st) && (!c.is_read ==> stamp_greater(
            c.stamp.0,
            c.stamp.1,
            st.0,
            st.1,
        ))
    &&& values.contains((c.stamp, c.data))
}


// ---------------------------------------------------------------------------
// The invariant
// ---------------------------------------------------------------------------

impl SystemModel {
    /// Every process in `holders[st]`, for a completed command of stamp `st`,
    /// that answered the first round `r` of a command of `p` answered with a
    /// stamp not before `st`.
    pub open spec fn meets_floor(self, p: u8, q: u8, r: u64, v: Stamp) -> bool {
        forall|st: Stamp| #[trigger]
            self.floors[(p, r)].contains(st) && self.holders[st].contains(q) ==> stamp_ge(v, st)
    }

    pub open spec fn reading_ok(self, p: u8, rid: u64, r: Reading) -> bool {
        &&& procs(self.n).contains(r.0)
        &&& self.floors.contains_key((p, rid))
        &&& self.values.contains(((r.1, r.2), r.3))
        &&& self.meets_floor(p, r.0, rid, (r.1, r.2))
    }

    pub open spec fn ack_ok(self, p: u8, rid: u64, a: u8) -> bool {
        &&& procs(self.n).contains(a)
        &&& !self.floors.contains_key((p, rid))
        &&& self.phase2.contains_key(p) ==> stamp_ge(disk_stamp(self.disk[a]), self.phase2[p].0)
    }

    pub open spec fn phase2_ok(self, p: u8) -> bool {
        let m = self.regs[p];
        let st = self.phase2[p].0;
        let d = self.phase2[p].1;
        let fl = self.phase2[p].2;
        &&& m.reading || m.state.writing
        &&& !self.floors.contains_key((p, m.state.read_ident))
        &&& self.values.contains((st, d))
        &&& m.reading ==> m.readval is Some && m.readval.unwrap().1 == d
        &&& forall|s2: Stamp| #[trigger]
            fl.contains(s2) ==> stamp_ge(st, s2) && (!m.reading ==> stamp_greater(st.0, st.1, s2.0, s2.1))
    }

    pub open spec fn reg_ok(self, p: u8) -> bool {
        let m = self.regs[p];
        let rid = m.state.read_ident;
        &&& m.inv()
        &&& m.self_ident == p
        &&& m.processes_count == self.n
        &&& !(m.reading && m.state.writing)
        &&& self.values.contains((disk_stamp(self.disk[p]), self.disk[p].2))
        &&& forall|i: int| 0 <= i < m.readlist.len() ==> self.reading_ok(p, rid, #[trigger] m.readlist[i])
        &&& forall|a: u8| #[trigger] m.acks.contains(a) ==> self.ack_ok(p, rid, a)
        &&& self.phase2.contains_key(p) ==> self.phase2_ok(p)
        &&& (m.reading || m.state.writing) && !self.phase2.contains_key(p) ==> self.floors.contains_key((p, rid))
        &&& (m.reading || m.state.writing) ==> self.started_ok(p)
    }

    /// The floor of the command in progress at `p`.
    pub open spec fn current_floor(self, p: u8) -> Set<Stamp> {
        if self.phase2.contains_key(p) {
            self.phase2[p].2
        } else {
            self.floors[(p, self.regs[p].state.read_ident)]
        }
    }

    /// The floor of the command in progress at `p` holds the stamp of every
    /// write that completed before it began.
    pub open spec fn started_ok(self, p: u8) -> bool {
        &&& self.starts.contains_key(p)
        &&& self.starts[p] <= self.done.len()
        &&& forall|j: int|
            0 <= j < self.starts[p] ==> self.current_floor(p).contains(
                (#[trigger] self.done[j]).stamp,
            )
    }

    pub open spec fn msg_ok(self, e: (u8, SystemCommandModel)) -> bool {
        let h = e.1.header;
        let o = owner(e);
        &&& procs(self.n).contains(e.0)
        &&& procs(self.n).contains(h.process_identifier)
        &&& h.read_ident <= self.regs[o].state.read_ident
        &&& (first_round_msg(e.1) <==> self.floors.contains_key((o, h.read_ident)))
        &&& match e.1.content {
            SystemContentModel::Value { timestamp, write_rank, sector_data } => {
                &&& self.values.contains(((timestamp, write_rank), sector_data))
                &&& self.meets_floor(e.0, h.process_identifier, h.read_ident, (timestamp, write_rank))
            },
            SystemContentModel::WriteProc { timestamp, write_rank, data_to_write } => {
                &&& self.values.contains(((timestamp, write_rank), data_to_write))
                &&& self.phase2.contains_key(o) && h.read_ident == self.regs[o].state.read_ident ==> (
                self.phase2[o].0 == (timestamp, write_rank) && self.phase2[o].1 == data_to_write)
            },
            SystemContentModel::Ack => self.phase2.contains_key(e.0) && h.read_ident
                == self.regs[e.0].state.read_ident ==> stamp_ge(
                disk_stamp(self.disk[h.process_identifier]),
                self.phase2[e.0].0,
            ),
            SystemContentModel::ReadProc => true,
        }
    }

    pub open spec fn holder_ok(self, st: Stamp) -> bool {
        let hs = self.holders[st];
        &&& hs.finite()
        &&& hs.subset_of(procs(self.n))
        &&& is_majority(hs.len(), self.n as usize)
        &&& forall|q: u8| #[trigger] hs.contains(q) ==> stamp_ge(disk_stamp(self.disk[q]), st)
    }

    pub open spec fn floor_ok(self, k: (u8, u64)) -> bool {
        &&& procs(self.n).contains(k.0)
        &&& k.1 <= self.regs[k.0].state.read_ident
        &&& self.floors[k].subset_of(self.holders.dom())
    }

    /// The invariant of the system.
    pub open spec fn wf(self) -> bool {
        &&& 1 <= self.n <= 255
        &&& forall|p: u8| #[trigger] self.regs.contains_key(p) <==> procs(self.n).contains(p)
        &&& forall|p: u8| #[trigger] self.disk.contains_key(p) <==> procs(self.n).contains(p)
        &&& forall|p: u8| #[trigger] procs(self.n).contains(p) ==> self.reg_ok(p)
        &&& forall|e: (u8, SystemCommandModel)| #[trigger] self.net.contains(e) ==> self.msg_ok(e)
        &&& forall|st: Stamp| #[trigger] self.holders.contains_key(st) ==> self.holder_ok(st)
        &&& forall|k: (u8, u64)| #[trigger] self.floors.contains_key(k) ==> self.floor_ok(k)
        &&& forall|i: int| 0 <= i < self.done.len() ==> completion_ok(#[trigger] self.done[i], self.values)
        &&& forall|i: int| 0 <= i < self.done.len() ==> history_ok(self.done, i)
        &&& forall|j: int|
            0 <= j < self.done.len() ==> self.holders.contains_key(
                (#[trigger] self.done[j]).stamp,
            )
    }
}

/// The floor of the `i`-th completed command holds the stamp of every write
/// that completed before it began.
pub open spec fn history_ok(done: Seq<Completion>, i: int) -> bool {
    &&& done[i].began <= i
    &&& forall|j: int|
        0 <= j < done[i].began ==> done[i].floor.contains((#[trigger] done[j]).stamp)
}

// ---------------------------------------------------------------------------
// Lemmas
// ---------------------------------------------------------------------------

/// There are `n` processes.
pub proof fn lemma_procs_len(n: nat)
    requires
        n <= 255,
    ensures
        procs(n).finite(),
        procs(n).len() == n,
    decreases n,
{
    if n == 0 {
        assert(procs(0) =~= Set::<u8>::empty());
    } else {
        lemma_procs_len((n - 1) as nat);
        assert(procs(n) =~= procs((n - 1) as nat).insert(n as u8));
        assert(!procs((n - 1) as nat).contains(n as u8));
    }
}

/// Two majorities of the processes have a process in common.
pub proof fn lemma_majorities_meet(a: Set<u8>, b: Set<u8>, n: nat)
    requires
        n <= 255,
        a.finite(),
        b.finite(),
        a.subset_of(procs(n)),
        b.subset_of(procs(n)),
        is_majority(a.len(), n as usize),
        is_majority(b.len(), n as usize),
    ensures
        exists|q: u8| a.contains(q) && b.contains(q),
{
    lemma_procs_len(n);
    vstd::set_lib::lemma_set_intersect_union_lens(a, b);
    vstd::set_lib::lemma_len_subset(a.union(b), procs(n));
    assert(a.intersect(b).len() > 0);
    vstd::set_lib::lemma_set_empty_equivalency_len(a.intersect(b));
    let q = a.intersect(b).choose();
    assert(a.contains(q) && b.contains(q));
}

/// The system starts well formed.
pub proof fn lemma_init_wf(n: nat)
    requires
        1 <= n <= 255,
    ensures
        init(n).wf(),
{
    let s = init(n);
    assert forall|p: u8| #[trigger] procs(n).contains(p) implies s.reg_ok(p) by {
        assert(s.regs[p].readlist.len() == 0);
        assert(s.regs[p].acks =~= Set::<u8>::empty());
    }
}


/// A client command keeps the system well formed.
#[verifier::spinoff_prover]
#[verifier::rlimit(50)]
pub proof fn lemma_client_step(s: SystemModel, p: u8, cmd: ClientCommandModel)
    requires
        s.wf(),
        s.enabled(Event::Client { p, cmd }),
    ensures
        s.client_step(p, cmd).wf(),
        s.client_step(p, cmd).done == s.done,
        s.client_step(p, cmd).values == s.values,
{
    let m = s.regs[p];
    let (r, a) = m.after_client(cmd);
    let t = s.client_step(p, cmd);
    let rid = r.state.read_ident;
    assert(s.reg_ok(p));
    assert(!s.phase2.contains_key(p));
    let dummy = SystemCommandModel {
        header: crate::domain::SystemCommandHeader {
            process_identifier: p,
            msg_ident: 0,
            read_ident: 0,
            sector_idx: 0,
        },
        content: SystemContentModel::Ack,
    };
    lemma_steps_keep_invariant(m, cmd, dummy, None);
    assert forall|k: (u8, u64)| #[trigger] s.floors.contains_key(k) implies k != (p, rid) by {
        assert(s.floor_ok(k));
    }
    assert forall|q: u8| #[trigger] procs(t.n).contains(q) implies t.reg_ok(q) by {
        assert(s.reg_ok(q));
        if q == p {
            assert(t.regs[q].readlist.len() == 0);
            assert(t.regs[q].acks =~= Set::<u8>::empty());
        } else {
            let mq = s.regs[q];
            assert(t.regs[q] == mq);
            assert forall|i: int| 0 <= i < mq.readlist.len() implies t.reading_ok(
                q,
                mq.state.read_ident,
                #[trigger] mq.readlist[i],
            ) by {
                assert(s.reading_ok(q, mq.state.read_ident, mq.readlist[i]));
                assert(t.floors[(q, mq.state.read_ident)] == s.floors[(q, mq.state.read_ident)]);
            }
            assert forall|a: u8| #[trigger] mq.acks.contains(a) implies t.ack_ok(q, mq.state.read_ident, a) by {
                assert(s.ack_ok(q, mq.state.read_ident, a));
            }
        }
    }
    assert forall|e: (u8, SystemCommandModel)| #[trigger] t.net.contains(e) implies t.msg_ok(e) by {
        if s.net.contains(e) {
            assert(s.msg_ok(e));
            let o = owner(e);
            let h = e.1.header;
            assert(s.regs.contains_key(o));
            assert((o, h.read_ident) != (p, rid));
            assert(t.floors.contains_key((o, h.read_ident)) == s.floors.contains_key((o, h.read_ident)));
            match e.1.content {
                SystemContentModel::Value { timestamp, write_rank, sector_data } => {
                    assert((e.0, h.read_ident) != (p, rid));
                    assert(t.floors[(e.0, h.read_ident)] == s.floors[(e.0, h.read_ident)]);
                },
                _ => {},
            }
        } else {
            assert(e.1 == a.broadcast.unwrap());
            assert(procs(s.n).contains(e.0));
        }
    }
    assert forall|k: (u8, u64)| #[trigger] t.floors.contains_key(k) implies t.floor_ok(k) by {
        if k != (p, rid) {
            assert(s.floor_ok(k));
        }
    }
    assert forall|st: Stamp| #[trigger] t.holders.contains_key(st) implies t.holder_ok(st) by {
        assert(s.holder_ok(st));
    }
    assert forall|i: int| 0 <= i < t.done.len() implies completion_ok(#[trigger] t.done[i], t.values) by {
        assert(completion_ok(s.done[i], s.values));
    }
}


/// Handling READ_PROC keeps the system well formed.
#[verifier::spinoff_prover]
#[verifier::rlimit(50)]
pub proof fn lemma_read_proc_step(s: SystemModel, p: u8, msg: SystemCommandModel)
    requires
        s.wf(),
        s.enabled(Event::Deliver { p, msg }),
        msg.content is ReadProc,
    ensures
        s.deliver_step(p, msg).wf(),
        s.deliver_step(p, msg).done == s.done,
        s.deliver_step(p, msg).values == s.values,
{
    let m = s.regs[p];
    let (r, a) = m.after_system(msg, s.local_of(p));
    let t = s.deliver_step(p, msg);
    assert(s.msg_ok((p, msg)));
    assert(t.regs =~= s.regs);
    assert(s.reg_ok(p));
    let o = msg.header.process_identifier;
    let v = a.send.unwrap().0;
    assert(a.send.unwrap().1 as u8 == o);
    assert(t.net == s.net.insert((o, v)));
    assert(s.floor_ok((o, msg.header.read_ident)));
    assert forall|st: Stamp| #[trigger]
        s.floors[(o, msg.header.read_ident)].contains(st) && s.holders[st].contains(p) implies stamp_ge(
        disk_stamp(s.disk[p]),
        st,
    ) by {
        assert(s.holders.contains_key(st));
        assert(s.holder_ok(st));
    }
    assert(t.msg_ok((o, v)));
    assert forall|e: (u8, SystemCommandModel)| #[trigger] t.net.contains(e) implies t.msg_ok(e) by {
        if s.net.contains(e) {
            assert(s.msg_ok(e));
        }
    }
    assert forall|q: u8| #[trigger] procs(t.n).contains(q) implies t.reg_ok(q) by {
        assert(s.reg_ok(q));
    }
    assert forall|k: (u8, u64)| #[trigger] t.floors.contains_key(k) implies t.floor_ok(k) by {
        assert(s.floor_ok(k));
    }
    assert forall|st: Stamp| #[trigger] t.holders.contains_key(st) implies t.holder_ok(st) by {
        assert(s.holder_ok(st));
    }
}


/// Handling WRITE_PROC keeps the system well formed.
#[verifier::spinoff_prover]
#[verifier::rlimit(50)]
pub proof fn lemma_write_proc_step(s: SystemModel, p: u8, msg: SystemCommandModel)
    requires
        s.wf(),
        s.enabled(Event::Deliver { p, msg }),
        msg.content is WriteProc,
    ensures
        s.deliver_step(p, msg).wf(),
        s.deliver_step(p, msg).done == s.done,
        s.deliver_step(p, msg).values == s.values,
{
    let m = s.regs[p];
    let (r, a) = m.after_system(msg, s.local_of(p));
    let t = s.deliver_step(p, msg);
    assert(s.msg_ok((p, msg)));
    assert(t.regs =~= s.regs);
    assert(s.reg_ok(p));
    let o = msg.header.process_identifier;
    let ack = a.send.unwrap().0;
    assert(a.send.unwrap().1 as u8 == o);
    assert(t.net == s.net.insert((o, ack)));
    let ws = match msg.content {
        SystemContentModel::WriteProc { timestamp, write_rank, .. } => (timestamp, write_rank),
        _ => (0u64, 0u8),
    };
    // the sector of `p` only moves forward, and now holds at least the written stamp
    assert(stamp_ge(disk_stamp(t.disk[p]), disk_stamp(s.disk[p])));
    assert(stamp_ge(disk_stamp(t.disk[p]), ws));
    assert(t.values.contains((disk_stamp(t.disk[p]), t.disk[p].2)));
    assert forall|q: u8| #[trigger] t.disk.contains_key(q) implies stamp_ge(
        disk_stamp(t.disk[q]),
        disk_stamp(s.disk[q]),
    ) by {}
    assert(t.msg_ok((o, ack)));
    assert forall|e: (u8, SystemCommandModel)| #[trigger] t.net.contains(e) implies t.msg_ok(e) by {
        if s.net.contains(e) {
            assert(s.msg_ok(e));
            if e.1.content is Ack {
                assert(s.disk.contains_key(e.1.header.process_identifier));
            }
        }
    }
    assert forall|q: u8| #[trigger] procs(t.n).contains(q) implies t.reg_ok(q) by {
        assert(s.reg_ok(q));
        let mq = s.regs[q];
        assert forall|a: u8| #[trigger] mq.acks.contains(a) implies t.ack_ok(q, mq.state.read_ident, a) by {
            assert(s.ack_ok(q, mq.state.read_ident, a));
            assert(s.disk.contains_key(a));
        }
        assert forall|i: int| 0 <= i < mq.readlist.len() implies t.reading_ok(
            q,
            mq.state.read_ident,
            #[trigger] mq.readlist[i],
        ) by {
            assert(s.reading_ok(q, mq.state.read_ident, mq.readlist[i]));
        }
    }
    assert forall|k: (u8, u64)| #[trigger] t.floors.contains_key(k) implies t.floor_ok(k) by {
        assert(s.floor_ok(k));
    }
    assert forall|st: Stamp| #[trigger] t.holders.contains_key(st) implies t.holder_ok(st) by {
        assert(s.holder_ok(st));
        assert forall|q: u8| #[trigger] t.holders[st].contains(q) implies stamp_ge(disk_stamp(t.disk[q]), st) by {
            assert(s.disk.contains_key(q));
        }
    }
}


/// Readings from a majority, each meeting the floor of the round, have a
/// highest stamp not before any stamp of the floor: some reading comes from a
/// process that acknowledged that write.
pub proof fn lemma_majority_sees_floor(s: SystemModel, p: u8, rid: u64, list: Seq<Reading>, st: Stamp)
    requires
        s.wf(),
        distinct_processes(list),
        is_majority(list.len(), s.n as usize),
        forall|i: int| 0 <= i < list.len() ==> s.reading_ok(p, rid, #[trigger] list[i]),
        s.floors.contains_key((p, rid)),
        s.floors[(p, rid)].contains(st),
    ensures
        stamp_ge((highest(list).1, highest(list).2), st),
{
    assert(s.floor_ok((p, rid)));
    assert(s.holders.contains_key(st));
    assert(s.holder_ok(st));
    let pids = list.map_values(|x: Reading| x.0);
    assert(pids.no_duplicates()) by {
        assert forall|i: int, j: int| 0 <= i < pids.len() && 0 <= j < pids.len() && i != j implies pids[i]
            != pids[j] by {
            assert(pids[i] == list[i].0 && pids[j] == list[j].0);
        }
    }
    pids.unique_seq_to_set();
    let readers = pids.to_set();
    assert(readers.subset_of(procs(s.n))) by {
        assert forall|q: u8| readers.contains(q) implies procs(s.n).contains(q) by {
            let i = choose|i: int| 0 <= i < pids.len() && pids[i] == q;
            assert(s.reading_ok(p, rid, list[i]));
        }
    }
    lemma_majorities_meet(readers, s.holders[st], s.n);
    let q = choose|q: u8| readers.contains(q) && s.holders[st].contains(q);
    let i = choose|i: int| 0 <= i < pids.len() && pids[i] == q;
    assert(list[i].0 == q);
    assert(s.reading_ok(p, rid, list[i]));
    assert(stamp_ge((list[i].1, list[i].2), st));
    lemma_highest_is_maximal(list);
}


/// Handling VALUE keeps the system well formed.
#[verifier::spinoff_prover]
#[verifier::rlimit(80)]
pub proof fn lemma_value_step(s: SystemModel, p: u8, msg: SystemCommandModel)
    requires
        s.wf(),
        s.enabled(Event::Deliver { p, msg }),
        msg.content is Value,
    ensures
        s.deliver_step(p, msg).wf(),
        s.deliver_step(p, msg).done == s.done,
        s.values.subset_of(s.deliver_step(p, msg).values),
{
    let m = s.regs[p];
    let (r, a) = m.after_system(msg, s.local_of(p));
    let t = s.deliver_step(p, msg);
    let h = msg.header;
    let rid = m.state.read_ident;
    assert(s.msg_ok((p, msg)));
    assert(s.reg_ok(p));
    lemma_steps_keep_invariant(m, ClientCommandModel {
        header: crate::domain::ClientCommandHeader { request_identifier: 0, sector_idx: 0 },
        content: ClientContentModel::Read,
    }, msg, s.local_of(p));
    let (ts, wr, d) = match msg.content {
        SystemContentModel::Value { timestamp, write_rank, sector_data } => (timestamp, write_rank, sector_data),
        _ => (0u64, 0u8, Seq::<u8>::empty()),
    };
    let rd: Reading = (h.process_identifier, ts, wr, d);
    if h.read_ident != rid {
        assert(t.regs =~= s.regs);
        assert forall|q: u8| #[trigger] procs(t.n).contains(q) implies t.reg_ok(q) by {
            assert(s.reg_ok(q));
        }
        assert forall|e: (u8, SystemCommandModel)| #[trigger] t.net.contains(e) implies t.msg_ok(e) by {
            assert(s.msg_ok(e));
        }
        assert forall|k: (u8, u64)| #[trigger] t.floors.contains_key(k) implies t.floor_ok(k) by {
            assert(s.floor_ok(k));
        }
        assert forall|st: Stamp| #[trigger] t.holders.contains_key(st) implies t.holder_ok(st) by {
            assert(s.holder_ok(st));
        }
        return;
    }
    let list = insert_reading(m.readlist, rd);
    lemma_insert_reading(m.readlist, rd);
    lemma_insert_reading_elements(m.readlist, rd);
    assert(s.floors.contains_key((p, rid)));
    assert(!s.phase2.contains_key(p)) by {
        if s.phase2.contains_key(p) {
            assert(s.phase2_ok(p));
        }
    }
    assert forall|i: int| 0 <= i < list.len() implies s.reading_ok(p, rid, #[trigger] list[i]) by {
        if list[i] != rd {
            let j = choose|j: int| 0 <= j < m.readlist.len() && m.readlist[j] == list[i];
            assert(s.reading_ok(p, rid, m.readlist[j]));
        }
    }
    if (m.reading || m.state.writing) && is_majority(list.len(), m.processes_count) {
        lemma_value_majority(s, p, msg);
    } else {
        assert(r.readlist == list);
        assert(t.regs == s.regs.insert(p, r));
        assert forall|q: u8| #[trigger] procs(t.n).contains(q) implies t.reg_ok(q) by {
            assert(s.reg_ok(q));
            if q == p {
                assert forall|i: int| 0 <= i < r.readlist.len() implies t.reading_ok(
                    p,
                    rid,
                    #[trigger] r.readlist[i],
                ) by {
                    assert(s.reading_ok(p, rid, list[i]));
                }
                assert forall|a: u8| #[trigger] r.acks.contains(a) implies t.ack_ok(p, rid, a) by {
                    assert(s.ack_ok(p, rid, a));
                }
            }
        }
        assert forall|e: (u8, SystemCommandModel)| #[trigger] t.net.contains(e) implies t.msg_ok(e) by {
            assert(s.msg_ok(e));
        }
        assert forall|k: (u8, u64)| #[trigger] t.floors.contains_key(k) implies t.floor_ok(k) by {
            assert(s.floor_ok(k));
        }
        assert forall|st: Stamp| #[trigger] t.holders.contains_key(st) implies t.holder_ok(st) by {
            assert(s.holder_ok(st));
        }
    }
}

/// VALUE that completes a majority starts the second round and keeps the
/// system well formed.
#[verifier::spinoff_prover]
#[verifier::rlimit(100)]
proof fn lemma_value_majority(s: SystemModel, p: u8, msg: SystemCommandModel)
    requires
        s.wf(),
        s.enabled(Event::Deliver { p, msg }),
        msg.content is Value,
        msg.header.read_ident == s.regs[p].state.read_ident,
        s.regs[p].reading || s.regs[p].state.writing,
        !s.phase2.contains_key(p),
        s.floors.contains_key((p, s.regs[p].state.read_ident)),
        ({
            let list = insert_reading(s.regs[p].readlist, match msg.content {
                SystemContentModel::Value { timestamp, write_rank, sector_data } => (msg.header.process_identifier, timestamp, write_rank, sector_data),
                _ => (0u8, 0u64, 0u8, Seq::<u8>::empty()),
            });
            &&& is_majority(list.len(), s.regs[p].processes_count)
            &&& distinct_processes(list)
            &&& forall|i: int| 0 <= i < list.len() ==> s.reading_ok(p, s.regs[p].state.read_ident, #[trigger] list[i])
        }),
        s.regs[p].after_system(msg, s.local_of(p)).0.inv(),
    ensures
        s.deliver_step(p, msg).wf(),
        s.deliver_step(p, msg).done == s.done,
        s.values.subset_of(s.deliver_step(p, msg).values),
{
    let m = s.regs[p];
    let (r, a) = m.after_system(msg, s.local_of(p));
    let t = s.deliver_step(p, msg);
    let h = msg.header;
    let rid = m.state.read_ident;
    assert(s.reg_ok(p));
    let (ts, wr, d) = match msg.content {
        SystemContentModel::Value { timestamp, write_rank, sector_data } => (timestamp, write_rank, sector_data),
        _ => (0u64, 0u8, Seq::<u8>::empty()),
    };
    let list = insert_reading(m.readlist, (h.process_identifier, ts, wr, d));
    let best = highest(list);
    lemma_highest_is_maximal(list);
    let k = choose|k: int| 0 <= k < list.len() && list[k] == best;
    assert(s.reading_ok(p, rid, list[k]));
    let fl = s.floors[(p, rid)];
    assert forall|st: Stamp| #[trigger] fl.contains(st) implies stamp_ge((best.1, best.2), st) by {
        lemma_majority_sees_floor(s, p, rid, list, st);
    }
    let b = a.broadcast.unwrap();
    let (nst, nd) = match b.content {
        SystemContentModel::WriteProc { timestamp, write_rank, data_to_write } => ((timestamp, write_rank), data_to_write),
        _ => ((0u64, 0u8), Seq::<u8>::empty()),
    };
    assert(b.content is WriteProc);
    assert(t.phase2 == s.phase2.insert(p, (nst, nd, fl)));
    assert(t.values == s.values.insert((nst, nd)));
    assert(t.net == broadcast_to(s.net, s.n, b));
    assert(r.state.read_ident == rid + 1);
    assert(b.header.read_ident == rid + 1);
    assert(b.header.process_identifier == p);
    assert forall|kk: (u8, u64)| #[trigger] s.floors.contains_key(kk) implies kk != (p, (rid + 1) as u64) by {
        assert(s.floor_ok(kk));
    }
    assert(t.phase2_ok(p));
    assert forall|q: u8| #[trigger] procs(t.n).contains(q) implies t.reg_ok(q) by {
        assert(s.reg_ok(q));
        if q == p {
            assert(r.readlist.len() == 0);
            assert(r.acks =~= Set::<u8>::empty());
        } else {
            let mq = s.regs[q];
            assert(t.regs[q] == mq);
            assert forall|i: int| 0 <= i < mq.readlist.len() implies t.reading_ok(
                q,
                mq.state.read_ident,
                #[trigger] mq.readlist[i],
            ) by {
                assert(s.reading_ok(q, mq.state.read_ident, mq.readlist[i]));
            }
            assert forall|a: u8| #[trigger] mq.acks.contains(a) implies t.ack_ok(q, mq.state.read_ident, a) by {
                assert(s.ack_ok(q, mq.state.read_ident, a));
            }
            if s.phase2.contains_key(q) {
                assert(s.phase2_ok(q));
            }
        }
    }
    assert forall|e: (u8, SystemCommandModel)| #[trigger] t.net.contains(e) implies t.msg_ok(e) by {
        if s.net.contains(e) {
            assert(s.msg_ok(e));
            assert(s.regs.contains_key(owner(e)));
        } else {
            assert(e.1 == b);
        }
    }
    assert forall|kk: (u8, u64)| #[trigger] t.floors.contains_key(kk) implies t.floor_ok(kk) by {
        assert(s.floor_ok(kk));
    }
    assert forall|st: Stamp| #[trigger] t.holders.contains_key(st) implies t.holder_ok(st) by {
        assert(s.holder_ok(st));
    }
    assert forall|i: int| 0 <= i < t.done.len() implies completion_ok(#[trigger] t.done[i], t.values) by {
        assert(completion_ok(s.done[i], s.values));
    }
}


/// Handling ACK keeps the system well formed; when it completes a client
/// command, the completion meets the law.
#[verifier::spinoff_prover]
#[verifier::rlimit(100)]
pub proof fn lemma_ack_step(s: SystemModel, p: u8, msg: SystemCommandModel)
    requires
        s.wf(),
        s.enabled(Event::Deliver { p, msg }),
        msg.content is Ack,
    ensures
        s.deliver_step(p, msg).wf(),
        s.deliver_step(p, msg).values == s.values,
{
    let m = s.regs[p];
    let (r, a) = m.after_system(msg, s.local_of(p));
    let t = s.deliver_step(p, msg);
    let h = msg.header;
    let q = h.process_identifier;
    let rid = m.state.read_ident;
    assert(s.msg_ok((p, msg)));
    assert(s.reg_ok(p));
    lemma_steps_keep_invariant(m, ClientCommandModel {
        header: crate::domain::ClientCommandHeader { request_identifier: 0, sector_idx: 0 },
        content: ClientContentModel::Read,
    }, msg, s.local_of(p));
    if h.read_ident != rid {
        assert(t.regs =~= s.regs);
        assert forall|x: u8| #[trigger] procs(t.n).contains(x) implies t.reg_ok(x) by {
            assert(s.reg_ok(x));
        }
        assert forall|e: (u8, SystemCommandModel)| #[trigger] t.net.contains(e) implies t.msg_ok(e) by {
            assert(s.msg_ok(e));
        }
        assert forall|k: (u8, u64)| #[trigger] t.floors.contains_key(k) implies t.floor_ok(k) by {
            assert(s.floor_ok(k));
        }
        assert forall|st: Stamp| #[trigger] t.holders.contains_key(st) implies t.holder_ok(st) by {
            assert(s.holder_ok(st));
        }
        return;
    }
    let acks = insert_ack(m.acks, q);
    assert(!s.floors.contains_key((p, rid)));
    assert forall|a: u8| #[trigger] acks.contains(a) implies s.ack_ok(p, rid, a) by {
        if a != q {
            assert(s.ack_ok(p, rid, a));
        }
    }
    assert(m.readlist.len() == 0) by {
        if m.readlist.len() > 0 {
            assert(s.reading_ok(p, rid, m.readlist[0]));
        }
    }
    if (m.reading || m.state.writing) && is_majority(acks.len(), m.processes_count) {
        lemma_ack_completes(s, p, msg);
    } else {
        assert(r.acks == acks);
        assert(t.regs == s.regs.insert(p, r));
        assert forall|x: u8| #[trigger] procs(t.n).contains(x) implies t.reg_ok(x) by {
            assert(s.reg_ok(x));
            if x == p {
                assert forall|a: u8| #[trigger] r.acks.contains(a) implies t.ack_ok(p, rid, a) by {
                    assert(s.ack_ok(p, rid, a));
                }
            }
        }
        assert forall|e: (u8, SystemCommandModel)| #[trigger] t.net.contains(e) implies t.msg_ok(e) by {
            assert(s.msg_ok(e));
        }
        assert forall|k: (u8, u64)| #[trigger] t.floors.contains_key(k) implies t.floor_ok(k) by {
            assert(s.floor_ok(k));
        }
        assert forall|st: Stamp| #[trigger] t.holders.contains_key(st) implies t.holder_ok(st) by {
            assert(s.holder_ok(st));
        }
    }
}

/// ACK that completes a majority completes the client command, and the
/// completion meets the law.
#[verifier::spinoff_prover]
#[verifier::rlimit(100)]
proof fn lemma_ack_completes(s: SystemModel, p: u8, msg: SystemCommandModel)
    requires
        s.wf(),
        s.enabled(Event::Deliver { p, msg }),
        msg.content is Ack,
        msg.header.read_ident == s.regs[p].state.read_ident,
        s.regs[p].reading || s.regs[p].state.writing,
        !s.floors.contains_key((p, s.regs[p].state.read_ident)),
        s.regs[p].readlist.len() == 0,
        ({
            let acks = insert_ack(s.regs[p].acks, msg.header.process_identifier);
            &&& is_majority(acks.len(), s.regs[p].processes_count)
            &&& acks.finite()
            &&& forall|a: u8| #[trigger] acks.contains(a) ==> s.ack_ok(p, s.regs[p].state.read_ident, a)
        }),
        s.regs[p].after_system(msg, s.local_of(p)).0.inv(),
    ensures
        s.deliver_step(p, msg).wf(),
        s.deliver_step(p, msg).values == s.values,
{
    let m = s.regs[p];
    let (r, a) = m.after_system(msg, s.local_of(p));
    let t = s.deliver_step(p, msg);
    let h = msg.header;
    let q = h.process_identifier;
    let rid = m.state.read_ident;
    let acks = insert_ack(m.acks, q);
    assert(s.reg_ok(p));
    assert(s.phase2.contains_key(p));
    assert(s.phase2_ok(p));
    let st = s.phase2[p].0;
    assert(a.complete is Some);
    assert(t.phase2 == s.phase2.remove(p));
    let c = t.done.last();
    assert(t.done == s.done.push(c));
    assert(completion_ok(c, t.values));
    let inserted = !s.holders.contains_key(st);
    if inserted {
        assert(t.holders == s.holders.insert(st, acks));
        assert(t.holder_ok(st)) by {
            assert(acks.subset_of(procs(s.n))) by {
                assert forall|x: u8| acks.contains(x) implies procs(s.n).contains(x) by {
                    assert(s.ack_ok(p, rid, x));
                }
            }
            assert forall|x: u8| #[trigger] acks.contains(x) implies stamp_ge(disk_stamp(t.disk[x]), st) by {
                assert(s.ack_ok(p, rid, x));
            }
        }
    } else {
        assert(t.holders == s.holders);
    }
    // the holders of every write that had completed stay as they were
    assert forall|x: Stamp| #[trigger] s.holders.contains_key(x) implies t.holders.contains_key(x) && t.holders[x]
        == s.holders[x] by {}
    assert forall|x: u8| #[trigger] procs(t.n).contains(x) implies t.reg_ok(x) by {
        assert(s.reg_ok(x));
        if x == p {
            assert(r.acks =~= Set::<u8>::empty());
            assert(r.readlist.len() == 0);
        } else {
            let mx = s.regs[x];
            assert(t.regs[x] == mx);
            assert forall|i: int| 0 <= i < mx.readlist.len() implies t.reading_ok(
                x,
                mx.state.read_ident,
                #[trigger] mx.readlist[i],
            ) by {
                assert(s.reading_ok(x, mx.state.read_ident, mx.readlist[i]));
                let rr = mx.readlist[i];
                assert forall|y: Stamp| #[trigger]
                    t.floors[(x, mx.state.read_ident)].contains(y) && t.holders[y].contains(rr.0) implies stamp_ge(
                    (rr.1, rr.2),
                    y,
                ) by {
                    assert(s.floor_ok((x, mx.state.read_ident)));
                }
            }
            assert forall|a: u8| #[trigger] mx.acks.contains(a) implies t.ack_ok(x, mx.state.read_ident, a) by {
                assert(s.ack_ok(x, mx.state.read_ident, a));
            }
            if s.phase2.contains_key(x) {
                assert(s.phase2_ok(x));
            }
        }
    }
    assert forall|e: (u8, SystemCommandModel)| #[trigger] t.net.contains(e) implies t.msg_ok(e) by {
        assert(s.msg_ok(e));
        if e.1.content is Value {
            let hh = e.1.header;
            assert(s.floor_ok((e.0, hh.read_ident)));
            assert forall|y: Stamp| #[trigger]
                t.floors[(e.0, hh.read_ident)].contains(y) && t.holders[y].contains(hh.process_identifier)
                implies s.holders[y].contains(hh.process_identifier) by {}
        }
    }
    assert forall|k: (u8, u64)| #[trigger] t.floors.contains_key(k) implies t.floor_ok(k) by {
        assert(s.floor_ok(k));
    }
    assert forall|x: Stamp| #[trigger] t.holders.contains_key(x) implies t.holder_ok(x) by {
        if s.holders.contains_key(x) {
            assert(s.holder_ok(x));
        }
    }
    assert forall|i: int| 0 <= i < t.done.len() implies completion_ok(#[trigger] t.done[i], t.values) by {
        if i < s.done.len() {
            assert(completion_ok(s.done[i], s.values));
        }
    }
    assert(s.started_ok(p));
    assert(s.current_floor(p) == s.phase2[p].2);
    assert forall|i: int| 0 <= i < t.done.len() implies history_ok(t.done, i) by {
        if i < s.done.len() {
            assert(history_ok(s.done, i));
            assert forall|j: int| 0 <= j < t.done[i].began implies t.done[i].floor.contains(
                (#[trigger] t.done[j]).stamp,
            ) by {
                assert(s.done[j] == t.done[j]);
            }
        } else {
            assert forall|j: int| 0 <= j < t.done[i].began implies t.done[i].floor.contains(
                (#[trigger] t.done[j]).stamp,
            ) by {
                assert(s.done[j] == t.done[j]);
            }
        }
    }
    assert forall|j: int| 0 <= j < t.done.len() implies t.holders.contains_key((#[trigger] t.done[j]).stamp) by {
        if j < s.done.len() {
            assert(s.done[j] == t.done[j]);
        }
    }
    assert forall|x: u8| #[trigger] procs(t.n).contains(x) && x != p && (t.regs[x].reading
        || t.regs[x].state.writing) implies t.started_ok(x) by {
        assert(s.reg_ok(x));
        assert(s.started_ok(x));
        assert(t.current_floor(x) == s.current_floor(x));
        assert forall|j: int| 0 <= j < t.starts[x] implies t.current_floor(x).contains(
            (#[trigger] t.done[j]).stamp,
        ) by {
            assert(s.done[j] == t.done[j]);
        }
    }
}


/// Every step keeps the system well formed, and what completed stays completed.
pub proof fn lemma_step_wf(s: SystemModel, e: Event)
    requires
        s.wf(),
        s.enabled(e),
    ensures
        s.step(e).wf(),
{
    match e {
        Event::Client { p, cmd } => lemma_client_step(s, p, cmd),
        Event::Deliver { p, msg } => match msg.content {
            SystemContentModel::ReadProc => lemma_read_proc_step(s, p, msg),
            SystemContentModel::WriteProc { .. } => lemma_write_proc_step(s, p, msg),
            SystemContentModel::Value { .. } => lemma_value_step(s, p, msg),
            SystemContentModel::Ack => lemma_ack_step(s, p, msg),
        },
        Event::Crash { p } => lemma_crash_step(s, p),
    }
}

/// A crash and recovery keeps the system well formed: the operation in
/// progress at the process is abandoned, and nothing else changes.
#[verifier::spinoff_prover]
#[verifier::rlimit(50)]
pub proof fn lemma_crash_step(s: SystemModel, p: u8)
    requires
        s.wf(),
        s.enabled(Event::Crash { p }),
    ensures
        s.crash_step(p).wf(),
{
    let t = s.crash_step(p);
    let r = t.regs[p];
    assert(s.reg_ok(p));
    assert(r.readlist.len() == 0);
    assert(r.acks =~= Set::<u8>::empty());
    assert(r.state.read_ident == s.regs[p].state.read_ident);
    assert forall|q: u8| #[trigger] procs(t.n).contains(q) implies t.reg_ok(q) by {
        assert(s.reg_ok(q));
        if q != p {
            let mq = s.regs[q];
            assert(t.regs[q] == mq);
            assert forall|i: int| 0 <= i < mq.readlist.len() implies t.reading_ok(
                q,
                mq.state.read_ident,
                #[trigger] mq.readlist[i],
            ) by {
                assert(s.reading_ok(q, mq.state.read_ident, mq.readlist[i]));
            }
            assert forall|a: u8| #[trigger] mq.acks.contains(a) implies t.ack_ok(q, mq.state.read_ident, a) by {
                assert(s.ack_ok(q, mq.state.read_ident, a));
            }
            if s.phase2.contains_key(q) {
                assert(s.phase2_ok(q));
            }
            if mq.reading || mq.state.writing {
                assert(s.started_ok(q));
                assert(t.current_floor(q) == s.current_floor(q));
            }
        }
    }
    assert forall|e: (u8, SystemCommandModel)| #[trigger] t.net.contains(e) implies t.msg_ok(e) by {
        assert(s.msg_ok(e));
    }
    assert forall|k: (u8, u64)| #[trigger] t.floors.contains_key(k) implies t.floor_ok(k) by {
        assert(s.floor_ok(k));
    }
    assert forall|st: Stamp| #[trigger] t.holders.contains_key(st) implies t.holder_ok(st) by {
        assert(s.holder_ok(st));
    }
}

/// Every state that a run reaches is well formed.
pub proof fn lemma_run_wf(n: nat, events: Seq<Event>)
    requires
        1 <= n <= 255,
        valid_run(n, events),
    ensures
        run(n, events).wf(),
    decreases events.len(),
{
    if events.len() == 0 {
        lemma_init_wf(n);
    } else {
        lemma_run_wf(n, events.drop_last());
        lemma_step_wf(run(n, events.drop_last()), events.last());
    }
}

/// The law of the (N, N) atomic register, for every run of `n` processes on
/// one sector, over the client commands that completed (`done`, in order of
/// completion). When a command `done[j]`, a read or a write, completed before
/// a command `done[i]` began, `done[i]` has a stamp not before the stamp of
/// `done[j]`, and a write `done[i]` has a stamp after it: a read returns the
/// value of the last write completed before it began or of a later one, and
/// never a value older than what a read completed before it returned. What a
/// read returns is the data that a write, or the initial zero sector,
/// carried with the stamp it returns.
pub proof fn lemma_operations_see_completed_operations(n: nat, events: Seq<Event>)
    requires
        1 <= n <= 255,
        valid_run(n, events),
    ensures
        ({
            let done = run(n, events).done;
            forall|i: int, j: int|
                0 <= i < done.len() && 0 <= j < done[i].began ==> {
                    &&& stamp_ge((#[trigger] done[i]).stamp, (#[trigger] done[j]).stamp)
                    &&& !done[i].is_read ==> stamp_greater(
                        done[i].stamp.0,
                        done[i].stamp.1,
                        done[j].stamp.0,
                        done[j].stamp.1,
                    )
                }
        }),
        forall|i: int|
            0 <= i < run(n, events).done.len() ==> {
                &&& (#[trigger] run(n, events).done[i]).began <= i
                &&& run(n, events).values.contains((run(n, events).done[i].stamp, run(n, events).done[i].data))
            },
{
    lemma_run_wf(n, events);
    let s = run(n, events);
    assert forall|i: int, j: int| 0 <= i < s.done.len() && 0 <= j < s.done[i].began implies {
        &&& stamp_ge((#[trigger] s.done[i]).stamp, (#[trigger] s.done[j]).stamp)
        &&& !s.done[i].is_read ==> stamp_greater(
            s.done[i].stamp.0,
            s.done[i].stamp.1,
            s.done[j].stamp.0,
            s.done[j].stamp.1,
        )
    } by {
        assert(history_ok(s.done, i));
        assert(completion_ok(s.done[i], s.values));
        assert(s.done[i].floor.contains(s.done[j].stamp));
    }
    assert forall|i: int| 0 <= i < s.done.len() implies {
        &&& (#[trigger] s.done[i]).began <= i
        &&& s.values.contains((s.done[i].stamp, s.done[i].data))
    } by {
        assert(history_ok(s.done, i));
        assert(completion_ok(s.done[i], s.values));
    }
}

} // verus!
