//! How a process shares its registers among commands.
//!
//! Client commands for one sector are served one at a time, in the order in
//! which they arrived: each takes a ticket, and the command whose ticket equals
//! the number of finished commands of its sector may run. A running client
//! command is handled by one register; the VALUE and ACK replies of its round
//! go to that register, while READ_PROC and WRITE_PROC from other processes
//! may go to any register that is ready.
use vstd::prelude::*;

use crate::domain::{MsgIdent, SectorIdx, SystemContentModel, SystemRegisterCommandContent};
use std::collections::HashMap;

verus! {

/// Where a system command goes.
#[derive(Debug, Clone, Copy, PartialEq, Eq)]
pub enum SystemRoute {
    /// To the first register that is ready.
    AnyRegister,
    /// To the register with this index, which handles the round.
    Register(usize),
    /// Nowhere: no register handles the round.
    Drop,
}

/// Tickets of client commands per sector, and the register handling each
/// running client command.
pub struct SectorSchedule {
    /// Per sector: tickets handed out, and client commands finished.
    sector_counters: HashMap<SectorIdx, (u64, u64)>,
    /// Per round identifier: the register handling it, and its sector.
    msg_id_handler_sector_idx: HashMap<MsgIdent, (usize, SectorIdx)>,
}

/// Model of `SectorSchedule`.
pub struct ScheduleModel {
    pub counters: Map<SectorIdx, (u64, u64)>,
    pub handlers: Map<MsgIdent, (usize, SectorIdx)>,
}

impl View for SectorSchedule {
    type V = ScheduleModel;

    closed spec fn view(&self) -> ScheduleModel {
        ScheduleModel { counters: self.sector_counters@, handlers: self.msg_id_handler_sector_idx@ }
    }
}

/// The round identifier used for a client request.
pub open spec fn msg_ident_of(request_identifier: u64) -> MsgIdent {
    request_identifier as MsgIdent
}

impl ScheduleModel {
    /// Tickets handed out for `sector`.
    pub open spec fn issued(self, sector: SectorIdx) -> u64 {
        if self.counters.contains_key(sector) {
            self.counters[sector].0
        } else {
            0
        }
    }

    /// Client commands of `sector` that finished.
    pub open spec fn finished(self, sector: SectorIdx) -> u64 {
        if self.counters.contains_key(sector) {
            self.counters[sector].1
        } else {
            0
        }
    }

    /// The schedule after a client command of `sector` took its ticket, and the ticket.
    pub open spec fn take_ticket(self, sector: SectorIdx) -> (ScheduleModel, u64) {
        let ticket = self.issued(sector);
        (
            ScheduleModel {
                counters: self.counters.insert(sector, ((ticket + 1) as u64, self.finished(sector))),
                handlers: self.handlers,
            },
            ticket,
        )
    }

    /// The command holding `ticket` for `sector` may run now.
    pub open spec fn may_proceed(self, sector: SectorIdx, ticket: u64) -> bool {
        self.finished(sector) == ticket
    }

    /// The schedule after register `register` started the client command
    /// `request_identifier` of `sector`.
    pub open spec fn assign(self, request_identifier: u64, register: usize, sector: SectorIdx) -> ScheduleModel {
        ScheduleModel {
            counters: self.counters,
            handlers: self.handlers.insert(msg_ident_of(request_identifier), (register, sector)),
        }
    }

    /// Where a system command of round `msg_ident` with content `content` goes.
    pub open spec fn route(self, content: SystemContentModel, msg_ident: MsgIdent) -> SystemRoute {
        match content {
            SystemContentModel::ReadProc | SystemContentModel::WriteProc { .. } => SystemRoute::AnyRegister,
            _ => if self.handlers.contains_key(msg_ident) {
                SystemRoute::Register(self.handlers[msg_ident].0)
            } else {
                SystemRoute::Drop
            },
        }
    }

    /// The schedule after the client command `request_identifier` finished,
    /// and the sector it was for; nothing changes for an unknown command.
    pub open spec fn finish(self, request_identifier: u64) -> (ScheduleModel, Option<SectorIdx>) {
        let m = msg_ident_of(request_identifier);
        if self.handlers.contains_key(m) {
            let sector = self.handlers[m].1;
            (
                ScheduleModel {
                    counters: self.counters.insert(
                        sector,
                        (self.counters[sector].0, (self.counters[sector].1 + 1) as u64),
                    ),
                    handlers: self.handlers.remove(m),
                },
                Some(sector),
            )
        } else {
            (self, None)
        }
    }

    /// Every running client command is for a sector that has tickets.
    pub open spec fn inv(self) -> bool {
        forall|m: MsgIdent| #[trigger]
            self.handlers.contains_key(m) ==> self.counters.contains_key(self.handlers[m].1)
    }
}

impl SectorSchedule {
    /// A schedule with no tickets and no running command.
    pub fn new() -> (s: Self)
        ensures
            s@.counters == Map::<SectorIdx, (u64, u64)>::empty(),
            s@.handlers == Map::<MsgIdent, (usize, SectorIdx)>::empty(),
            s@.inv(),
    {
        SectorSchedule { sector_counters: HashMap::new(), msg_id_handler_sector_idx: HashMap::new() }
    }

    /// Tickets handed out and commands finished for `sector`.
    pub fn counters(&self, sector: SectorIdx) -> (c: (u64, u64))
        ensures
            c == (self@.issued(sector), self@.finished(sector)),
    {
        match self.sector_counters.get(&sector) {
            Some(c) => *c,
            None => (0, 0),
        }
    }

    /// Gives a client command of `sector` its ticket.
    pub fn take_ticket(&mut self, sector: SectorIdx) -> (ticket: u64)
        requires
            old(self)@.inv(),
            old(self)@.issued(sector) < u64::MAX,
        ensures
            final(self)@.inv(),
            (final(self)@, ticket) == old(self)@.take_ticket(sector),
    {
        let (counter, finished) = match self.sector_counters.get(&sector) {
            Some(c) => *c,
            None => (0, 0),
        };
        self.sector_counters.insert(sector, (counter + 1, finished));
        proof {
            assert forall|m: MsgIdent| #[trigger] self@.handlers.contains_key(m) implies self@.counters.contains_key(
                self@.handlers[m].1,
            ) by {
                assert(old(self)@.handlers.contains_key(m));
            }
        }
        counter
    }

    /// Whether the command holding `ticket` for `sector` may run now.
    pub fn may_proceed(&self, sector: SectorIdx, ticket: u64) -> (b: bool)
        ensures
            b == self@.may_proceed(sector, ticket),
    {
        let (_, finished) = self.counters(sector);
        finished == ticket
    }

    /// Records that register `register` handles the client command
    /// `request_identifier` of `sector`.
    pub fn assign(&mut self, request_identifier: u64, register: usize, sector: SectorIdx)
        requires
            old(self)@.inv(),
            old(self)@.counters.contains_key(sector),
        ensures
            final(self)@.inv(),
            final(self)@ == old(self)@.assign(request_identifier, register, sector),
    {
        self.msg_id_handler_sector_idx.insert(request_identifier as MsgIdent, (register, sector));
    }

    /// Where a system command goes.
    pub fn route(&self, content: &SystemRegisterCommandContent, msg_ident: MsgIdent) -> (r: SystemRoute)
        ensures
            r == self@.route(content@, msg_ident),
    {
        match content {
            SystemRegisterCommandContent::ReadProc | SystemRegisterCommandContent::WriteProc { .. } =>
                SystemRoute::AnyRegister,
            _ => match self.msg_id_handler_sector_idx.get(&msg_ident) {
                Some(h) => SystemRoute::Register(h.0),
                None => SystemRoute::Drop,
            },
        }
    }

    /// Records that the client command `request_identifier` finished; gives
    /// the sector whose waiting commands are to be woken up.
    pub fn finish_client_command(&mut self, request_identifier: u64) -> (sector: Option<SectorIdx>)
        requires
            old(self)@.inv(),
            old(self)@.handlers.contains_key(msg_ident_of(request_identifier)) ==> old(self)@.finished(
                old(self)@.handlers[msg_ident_of(request_identifier)].1,
            ) < u64::MAX,
        ensures
            final(self)@.inv(),
            (final(self)@, sector) == old(self)@.finish(request_identifier),
    {
        let m = request_identifier as MsgIdent;
        let ghost old_model = self@;
        match self.msg_id_handler_sector_idx.remove(&m) {
            Some((_, sector)) => {
                assert(old_model.handlers.contains_key(m) && old_model.handlers[m].1 == sector);
                assert(old_model.counters.contains_key(sector));
                let (counter, finished) = match self.sector_counters.get(&sector) {
                    Some(c) => *c,
                    None => (0, 0),
                };
                self.sector_counters.insert(sector, (counter, finished + 1));
                proof {
                    assert(self@.handlers =~= old_model.handlers.remove(m));
                    assert(self@.counters =~= old_model.finish(request_identifier).0.counters);
                    assert forall|k: MsgIdent| #[trigger] self@.handlers.contains_key(k) implies self@.counters.contains_key(
                        self@.handlers[k].1,
                    ) by {
                        assert(old_model.handlers.contains_key(k));
                    }
                }
                Some(sector)
            },
            None => {
                assert(self@.handlers =~= old_model.handlers);
                None
            },
        }
    }

    /// The sector of the running client command `request_identifier`, if any.
    pub fn sector_of(&self, request_identifier: u64) -> (s: Option<SectorIdx>)
        ensures
            s == if self@.handlers.contains_key(msg_ident_of(request_identifier)) {
                Some(self@.handlers[msg_ident_of(request_identifier)].1)
            } else {
                None
            },
    {
        match self.msg_id_handler_sector_idx.get(&(request_identifier as MsgIdent)) {
            Some(h) => Some(h.1),
            None => None,
        }
    }
}

// ---------------------------------------------------------------------------
// Laws
// ---------------------------------------------------------------------------

/// Client commands of one sector run one at a time and in arrival order: two
/// commands that take tickets one after the other get consecutive tickets, at
/// most one of them may run, and once the first one has run and finished, the
/// second may run.
pub proof fn lemma_sector_commands_run_in_order(
    s: ScheduleModel,
    sector: SectorIdx,
    request_identifier: u64,
    register: usize,
)
    requires
        s.inv(),
        s.issued(sector) < u64::MAX - 1,
        s.finished(sector) < u64::MAX,
    ensures
        ({
            let (s1, t1) = s.take_ticket(sector);
            let (s2, t2) = s1.take_ticket(sector);
            let s3 = s2.assign(request_identifier, register, sector);
            let (s4, done) = s3.finish(request_identifier);
            &&& t2 == t1 + 1
            &&& !(s2.may_proceed(sector, t1) && s2.may_proceed(sector, t2))
            &&& s2.may_proceed(sector, t1) ==> (done == Some(sector) && s4.may_proceed(sector, t2)
                && !s4.may_proceed(sector, t1))
        }),
{
    let (s1, t1) = s.take_ticket(sector);
    let (s2, t2) = s1.take_ticket(sector);
    let s3 = s2.assign(request_identifier, register, sector);
    assert(s3.handlers.contains_key(msg_ident_of(request_identifier)));
}

/// VALUE and ACK of a round go to the register that handles it and are
/// dropped when none does; READ_PROC and WRITE_PROC go to any ready register.
pub proof fn lemma_replies_reach_their_register(
    s: ScheduleModel,
    request_identifier: u64,
    register: usize,
    sector: SectorIdx,
    content: SystemContentModel,
)
    ensures
        ({
            let s1 = s.assign(request_identifier, register, sector);
            let m = msg_ident_of(request_identifier);
            match content {
                SystemContentModel::Value { .. } | SystemContentModel::Ack => s1.route(content, m)
                    == SystemRoute::Register(register) && s1.finish(request_identifier).0.route(content, m)
                    == SystemRoute::Drop,
                _ => s1.route(content, m) == SystemRoute::AnyRegister,
            }
        }),
{
    let s1 = s.assign(request_identifier, register, sector);
    let m = msg_ident_of(request_identifier);
    assert(!s1.finish(request_identifier).0.handlers.contains_key(m));
}


// ---------------------------------------------------------------------------
// Runs of the executor
// ---------------------------------------------------------------------------

/// What the executor does with the schedule.
pub enum ScheduleEvent {
    /// A client command arrives and takes a ticket for its sector.
    Submit { request_identifier: u64, sector: SectorIdx },
    /// A command whose ticket may proceed is handed to a register.
    Start { request_identifier: u64, register: usize },
    /// A client command finished.
    Finish { request_identifier: u64 },
}

/// The schedule, with the ticket of every command that arrived and the
/// commands handed to a register.
pub struct ExecutorModel {
    pub schedule: ScheduleModel,
    /// Sector and ticket of each command that arrived.
    pub tickets: Map<u64, (SectorIdx, u64)>,
    /// Commands handed to a register.
    pub started: Set<u64>,
}

pub open spec fn executor_init() -> ExecutorModel {
    ExecutorModel {
        schedule: ScheduleModel { counters: Map::empty(), handlers: Map::empty() },
        tickets: Map::empty(),
        started: Set::empty(),
    }
}

impl ExecutorModel {
    /// Each command arrives once; a command is handed over once, when its
    /// ticket may proceed.
    pub open spec fn enabled(self, e: ScheduleEvent) -> bool {
        match e {
            ScheduleEvent::Submit { request_identifier, sector } => {
                &&& !self.tickets.contains_key(request_identifier)
                &&& self.schedule.issued(sector) < u64::MAX
            },
            ScheduleEvent::Start { request_identifier, register } => {
                &&& self.tickets.contains_key(request_identifier)
                &&& !self.started.contains(request_identifier)
                &&& self.schedule.may_proceed(
                    self.tickets[request_identifier].0,
                    self.tickets[request_identifier].1,
                )
            },
            ScheduleEvent::Finish { .. } => true,
        }
    }

    pub open spec fn step(self, e: ScheduleEvent) -> ExecutorModel {
        match e {
            ScheduleEvent::Submit { request_identifier, sector } => {
                let (s, t) = self.schedule.take_ticket(sector);
                ExecutorModel {
                    schedule: s,
                    tickets: self.tickets.insert(request_identifier, (sector, t)),
                    started: self.started,
                }
            },
            ScheduleEvent::Start { request_identifier, register } => ExecutorModel {
                schedule: self.schedule.assign(request_identifier, register, self.tickets[request_identifier].0),
                tickets: self.tickets,
                started: self.started.insert(request_identifier),
            },
            ScheduleEvent::Finish { request_identifier } => ExecutorModel {
                schedule: self.schedule.finish(request_identifier).0,
                ..self
            },
        }
    }

    /// `r` was handed to a register and has not finished.
    pub open spec fn running(self, r: u64) -> bool {
        self.schedule.handlers.contains_key(msg_ident_of(r))
    }

    pub open spec fn inv(self) -> bool {
        &&& self.schedule.inv()
        &&& forall|sec: SectorIdx| #[trigger] self.schedule.finished(sec) <= self.schedule.issued(sec)
        &&& forall|m: MsgIdent| #[trigger]
            self.schedule.handlers.contains_key(m) ==> exists|r: u64| msg_ident_of(r) == m && #[trigger] self.started.contains(r)
        &&& forall|r: u64| #[trigger] self.started.contains(r) ==> self.tickets.contains_key(r)
        &&& forall|r: u64| #[trigger]
            self.tickets.contains_key(r) ==> {
                let (sector, t) = self.tickets[r];
                &&& self.schedule.finished(sector) <= self.schedule.issued(sector)
                &&& t < self.schedule.issued(sector)
                &&& self.started.contains(r) ==> t <= self.schedule.finished(sector)
                &&& t < self.schedule.finished(sector) ==> self.started.contains(r) && !self.running(r)
                &&& self.running(r) ==> self.started.contains(r) && self.schedule.handlers[msg_ident_of(r)].1
                    == sector && t == self.schedule.finished(sector)
                &&& self.started.contains(r) && t == self.schedule.finished(sector) ==> self.running(r)
            }
        &&& forall|r1: u64, r2: u64| #[trigger]
            self.tickets.contains_key(r1) && #[trigger] self.tickets.contains_key(r2) && self.tickets[r1]
                == self.tickets[r2] ==> r1 == r2
    }
}

/// The executor after `events`, from an empty schedule.
pub open spec fn executor_run(events: Seq<ScheduleEvent>) -> ExecutorModel
    decreases events.len(),
{
    if events.len() == 0 {
        executor_init()
    } else {
        executor_run(events.drop_last()).step(events.last())
    }
}

pub open spec fn valid_executor_run(events: Seq<ScheduleEvent>) -> bool
    decreases events.len(),
{
    events.len() == 0 || (valid_executor_run(events.drop_last()) && executor_run(events.drop_last()).enabled(
        events.last(),
    ))
}

proof fn lemma_executor_step(x: ExecutorModel, e: ScheduleEvent)
    requires
        x.inv(),
        x.enabled(e),
    ensures
        x.step(e).inv(),
{
    let y = x.step(e);
    match e {
        ScheduleEvent::Submit { request_identifier, sector } => {
            assert(x.schedule.finished(sector) <= x.schedule.issued(sector));
            assert forall|sec: SectorIdx| #[trigger] y.schedule.finished(sec) <= y.schedule.issued(sec) by {
                assert(x.schedule.finished(sec) <= x.schedule.issued(sec));
            }
            assert forall|r: u64| #[trigger] y.tickets.contains_key(r) && r != request_identifier implies x.tickets.contains_key(r) by {}
            assert forall|m: MsgIdent| #[trigger] y.schedule.handlers.contains_key(m) implies y.schedule.counters.contains_key(
                y.schedule.handlers[m].1,
            ) by {
                assert(x.schedule.inv());
            }
            assert forall|r1: u64, r2: u64| #[trigger]
                y.tickets.contains_key(r1) && #[trigger] y.tickets.contains_key(r2) && y.tickets[r1] == y.tickets[r2]
                implies r1 == r2 by {
                if r1 != request_identifier && r2 != request_identifier {
                } else if r1 == request_identifier && r2 != request_identifier {
                    assert(x.tickets.contains_key(r2));
                } else if r2 == request_identifier && r1 != request_identifier {
                    assert(x.tickets.contains_key(r1));
                }
            }
            assert forall|m: MsgIdent| #[trigger] y.schedule.handlers.contains_key(m) implies exists|r: u64|
                msg_ident_of(r) == m && #[trigger] y.started.contains(r) by {
                let r = choose|r: u64| msg_ident_of(r) == m && #[trigger] x.started.contains(r);
                assert(y.started.contains(r));
            }
        },
        ScheduleEvent::Start { request_identifier, register } => {
            let (sector, t) = x.tickets[request_identifier];
            assert(x.schedule.counters.contains_key(sector));
            assert forall|sec: SectorIdx| #[trigger] y.schedule.finished(sec) <= y.schedule.issued(sec) by {
                assert(x.schedule.finished(sec) <= x.schedule.issued(sec));
            }
            assert forall|r: u64| #[trigger] x.tickets.contains_key(r) && x.running(r) && x.tickets[r].0 == sector
                implies false by {
                assert(x.tickets[r] == x.tickets[request_identifier]);
            }
            assert forall|m: MsgIdent| #[trigger] y.schedule.handlers.contains_key(m) implies exists|r: u64|
                msg_ident_of(r) == m && #[trigger] y.started.contains(r) by {
                if m != msg_ident_of(request_identifier) {
                    let r = choose|r: u64| msg_ident_of(r) == m && #[trigger] x.started.contains(r);
                    assert(y.started.contains(r));
                } else {
                    assert(y.started.contains(request_identifier));
                }
            }
            assert forall|r: u64| #[trigger] y.tickets.contains_key(r) implies ({
                let (sector, t) = y.tickets[r];
                &&& y.schedule.finished(sector) <= y.schedule.issued(sector)
                &&& t < y.schedule.issued(sector)
                &&& y.started.contains(r) ==> t <= y.schedule.finished(sector)
                &&& t < y.schedule.finished(sector) ==> y.started.contains(r) && !y.running(r)
                &&& y.running(r) ==> y.started.contains(r) && y.schedule.handlers[msg_ident_of(r)].1 == sector && t
                    == y.schedule.finished(sector)
                &&& y.started.contains(r) && t == y.schedule.finished(sector) ==> y.running(r)
            }) by {
                if r != request_identifier {
                    assert(msg_ident_of(r) != msg_ident_of(request_identifier));
                }
            }
        },
        ScheduleEvent::Finish { request_identifier } => {
            let m0 = msg_ident_of(request_identifier);
            if x.schedule.handlers.contains_key(m0) {
                let r0 = choose|r: u64| msg_ident_of(r) == m0 && #[trigger] x.started.contains(r);
                assert(r0 == request_identifier);
                let (sector, t) = x.tickets[request_identifier];
                assert(x.running(request_identifier));
                assert(x.schedule.handlers[m0].1 == sector);
                assert(x.schedule.finished(sector) <= x.schedule.issued(sector));
                assert(t < x.schedule.issued(sector));
                assert forall|sec: SectorIdx| #[trigger] y.schedule.finished(sec) <= y.schedule.issued(sec) by {
                    assert(x.schedule.finished(sec) <= x.schedule.issued(sec));
                }
                assert forall|m: MsgIdent| #[trigger] y.schedule.handlers.contains_key(m) implies exists|r: u64|
                    msg_ident_of(r) == m && #[trigger] y.started.contains(r) by {
                    let r = choose|r: u64| msg_ident_of(r) == m && #[trigger] x.started.contains(r);
                    assert(y.started.contains(r));
                }
                assert forall|mm: MsgIdent| #[trigger] y.schedule.handlers.contains_key(mm) implies y.schedule.counters.contains_key(
                    y.schedule.handlers[mm].1,
                ) by {
                    assert(x.schedule.handlers.contains_key(mm));
                }
                assert forall|r: u64| #[trigger] y.tickets.contains_key(r) implies ({
                    let (sector, t) = y.tickets[r];
                    &&& y.schedule.finished(sector) <= y.schedule.issued(sector)
                    &&& t < y.schedule.issued(sector)
                    &&& y.started.contains(r) ==> t <= y.schedule.finished(sector)
                    &&& t < y.schedule.finished(sector) ==> y.started.contains(r) && !y.running(r)
                    &&& y.running(r) ==> y.started.contains(r) && y.schedule.handlers[msg_ident_of(r)].1 == sector
                        && t == y.schedule.finished(sector)
                    &&& y.started.contains(r) && t == y.schedule.finished(sector) ==> y.running(r)
                }) by {
                    if r != request_identifier {
                        assert(msg_ident_of(r) != m0);
                        if x.tickets[r].0 == sector && x.started.contains(r) && x.tickets[r].1 == t {
                            assert(x.tickets[r] == x.tickets[request_identifier]);
                        }
                    }
                }
            } else {
                assert(y.schedule == x.schedule);
            }
        },
    }
}

proof fn lemma_executor_run_inv(events: Seq<ScheduleEvent>)
    requires
        valid_executor_run(events),
    ensures
        executor_run(events).inv(),
    decreases events.len(),
{
    if events.len() == 0 {
    } else {
        lemma_executor_run_inv(events.drop_last());
        lemma_executor_step(executor_run(events.drop_last()), events.last());
    }
}

/// Client commands of one sector are handed to registers one at a time and
/// in the order in which they arrived, in every run of the executor: at most
/// one command of a sector is running; the running one holds the ticket equal
/// to the number of finished commands of its sector, and every command of the
/// sector that arrived before it has run and finished; tickets of a sector
/// are distinct.
pub proof fn lemma_executor_serializes_sectors(events: Seq<ScheduleEvent>)
    requires
        valid_executor_run(events),
    ensures
        ({
            let x = executor_run(events);
            &&& forall|r1: u64, r2: u64|
                #[trigger] x.running(r1) && #[trigger] x.running(r2) && x.schedule.handlers[msg_ident_of(r1)].1
                    == x.schedule.handlers[msg_ident_of(r2)].1 ==> r1 == r2
            &&& forall|r: u64|
                #[trigger] x.running(r) ==> x.tickets.contains_key(r) && x.tickets[r].1 == x.schedule.finished(
                    x.tickets[r].0,
                )
            &&& forall|r: u64, q: u64|
                #[trigger] x.running(r) && #[trigger] x.tickets.contains_key(q) && x.tickets[q].0 == x.tickets[r].0
                    && x.tickets[q].1 < x.tickets[r].1 ==> x.started.contains(q) && !x.running(q)
            &&& forall|r1: u64, r2: u64|
                #[trigger] x.tickets.contains_key(r1) && #[trigger] x.tickets.contains_key(r2) && r1 != r2
                    && x.tickets[r1].0 == x.tickets[r2].0 ==> x.tickets[r1].1 != x.tickets[r2].1
        }),
{
    lemma_executor_run_inv(events);
    let x = executor_run(events);
    assert forall|r: u64| #[trigger] x.running(r) implies x.tickets.contains_key(r) && x.tickets[r].1
        == x.schedule.finished(x.tickets[r].0) by {
        let r0 = choose|q: u64| msg_ident_of(q) == msg_ident_of(r) && #[trigger] x.started.contains(q);
        assert(r0 == r);
    }
    assert forall|r1: u64, r2: u64|
        #[trigger] x.running(r1) && #[trigger] x.running(r2) && x.schedule.handlers[msg_ident_of(r1)].1
            == x.schedule.handlers[msg_ident_of(r2)].1 implies r1 == r2 by {
        let a = choose|q: u64| msg_ident_of(q) == msg_ident_of(r1) && #[trigger] x.started.contains(q);
        let b = choose|q: u64| msg_ident_of(q) == msg_ident_of(r2) && #[trigger] x.started.contains(q);
        assert(a == r1 && b == r2);
        assert(x.tickets[r1] == x.tickets[r2]);
    }
}

/// Taking a ticket or finishing a command of one sector changes nothing for
/// another sector: commands of different sectors never wait on each other.
pub proof fn lemma_sectors_independent(s: ScheduleModel, sector: SectorIdx, other: SectorIdx, request_identifier: u64)
    requires
        s.inv(),
        sector != other,
        s.handlers.contains_key(msg_ident_of(request_identifier)) ==> s.handlers[msg_ident_of(request_identifier)].1 == sector,
    ensures
        s.take_ticket(sector).0.issued(other) == s.issued(other),
        s.take_ticket(sector).0.finished(other) == s.finished(other),
        s.finish(request_identifier).0.issued(other) == s.issued(other),
        s.finish(request_identifier).0.finished(other) == s.finished(other),
{
}

} // verus!
