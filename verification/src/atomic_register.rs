//! One (N, N) atomic register: the decisions a process takes for one register,
//! as a state machine. Each step takes the register's state and one event
//! (a client command or a system command) and gives the next state and the
//! actions that the environment performs in this order: persist the stored
//! state, write the local sector, broadcast or send a system command, report
//! the completed client command.
use vstd::prelude::*;

use crate::domain::{
    ClientCommandHeader, ClientCommandModel, ClientContentModel, ClientRegisterCommand,
    ClientRegisterCommandContent, OperationComplete, OperationCompleteModel, OperationReturn,
    OperationReturnModel, ReadReturn, SectorIdx, SectorVec, StatusCode, SystemCommandHeader,
    SystemCommandModel, SystemContentModel, SystemRegisterCommand, SystemRegisterCommandContent,
};
use std::collections::HashSet;
use std::sync::Arc;

verus! {

// ---------------------------------------------------------------------------
// Messages handed to the register client
// ---------------------------------------------------------------------------

/// A system command to deliver to every process, the sender included.
pub struct Broadcast {
    pub cmd: Arc<SystemRegisterCommand>,
}

/// A system command to deliver to one process.
pub struct Send {
    pub cmd: Arc<SystemRegisterCommand>,
    /// Rank of the target process; ranks start at 1.
    pub target: usize,
}

// ---------------------------------------------------------------------------
// Durable state
// ---------------------------------------------------------------------------

/// The value of a write in progress, with the header of the client command.
pub struct DataWithHeader {
    pub header: ClientCommandHeader,
    pub data: SectorVec,
}

/// The value found by a read in progress, with the client's request identifier.
pub struct DataWithRequestIdentifier {
    pub request_identifier: u64,
    pub data: SectorVec,
}

/// What a register keeps in stable storage.
pub struct AtomicRegisterStorageState {
    pub read_ident: u64,
    pub writing: bool,
    pub writeval: Option<DataWithHeader>,
}

/// Model of `AtomicRegisterStorageState`.
pub struct StorageStateModel {
    pub read_ident: u64,
    pub writing: bool,
    pub writeval: Option<(ClientCommandHeader, Seq<u8>)>,
}

impl View for AtomicRegisterStorageState {
    type V = StorageStateModel;

    open spec fn view(&self) -> StorageStateModel {
        StorageStateModel {
            read_ident: self.read_ident,
            writing: self.writing,
            writeval: match self.writeval {
                Some(w) => Some((w.header, w.data@)),
                None => None,
            },
        }
    }
}

impl AtomicRegisterStorageState {
    /// A second state with the same model.
    pub fn duplicate(&self) -> (s: Self)
        ensures
            s@ == self@,
    {
        let writeval = match &self.writeval {
            Some(w) => Some(DataWithHeader { header: w.header, data: w.data.duplicate() }),
            None => None,
        };
        AtomicRegisterStorageState { read_ident: self.read_ident, writing: self.writing, writeval }
    }
}

// ---------------------------------------------------------------------------
// Actions
// ---------------------------------------------------------------------------

/// A sector together with its timestamp and the rank of its writer.
pub struct LocalSector {
    /// The sector's bytes, where they were read.
    pub data: Option<SectorVec>,
    pub timestamp: u64,
    pub write_rank: u8,
}

/// What the environment does after one step of a register, in field order.
pub struct RegisterActions {
    /// Persist this state under the register's key.
    pub store: Option<AtomicRegisterStorageState>,
    /// Write sector `.0` with data `.1`, timestamp `.2` and write rank `.3`.
    pub write_sector: Option<(SectorIdx, SectorVec, u64, u8)>,
    pub broadcast: Option<Broadcast>,
    pub send: Option<Send>,
    /// Report this completion to the client that issued the command.
    pub complete: Option<OperationComplete>,
}

/// Model of `RegisterActions`.
pub struct ActionsModel {
    pub store: Option<StorageStateModel>,
    pub write_sector: Option<(SectorIdx, Seq<u8>, u64, u8)>,
    pub broadcast: Option<SystemCommandModel>,
    pub send: Option<(SystemCommandModel, usize)>,
    pub complete: Option<OperationCompleteModel>,
}

impl View for RegisterActions {
    type V = ActionsModel;

    open spec fn view(&self) -> ActionsModel {
        ActionsModel {
            store: match self.store {
                Some(s) => Some(s@),
                None => None,
            },
            write_sector: match self.write_sector {
                Some(w) => Some((w.0, w.1@, w.2, w.3)),
                None => None,
            },
            broadcast: match self.broadcast {
                Some(b) => Some(b.cmd@),
                None => None,
            },
            send: match self.send {
                Some(s) => Some((s.cmd@, s.target)),
                None => None,
            },
            complete: match self.complete {
                Some(c) => Some(c@),
                None => None,
            },
        }
    }
}

pub open spec fn no_actions() -> ActionsModel {
    ActionsModel { store: None, write_sector: None, broadcast: None, send: None, complete: None }
}

fn no_register_actions() -> (a: RegisterActions)
    ensures
        a@ == no_actions(),
{
    RegisterActions { store: None, write_sector: None, broadcast: None, send: None, complete: None }
}

// ---------------------------------------------------------------------------
// The model of a register and its steps
// ---------------------------------------------------------------------------

/// A value reported by a process: its rank, timestamp, write rank and sector.
pub type Reading = (u8, u64, u8, Seq<u8>);

/// Model of a register.
pub struct RegisterModel {
    pub self_ident: u8,
    pub processes_count: usize,
    /// Values reported for the current round, at most one per process.
    pub readlist: Seq<Reading>,
    /// Processes that acknowledged the current round, each once.
    pub acks: Set<u8>,
    pub reading: bool,
    pub readval: Option<(u64, Seq<u8>)>,
    pub state: StorageStateModel,
}

/// `(ts1, wr1)` comes after `(ts2, wr2)` in the lexicographic order.
pub open spec fn stamp_greater(ts1: u64, wr1: u8, ts2: u64, wr2: u8) -> bool {
    ts1 > ts2 || (ts1 == ts2 && wr1 > wr2)
}

/// The first of the readings with the greatest (timestamp, write rank).
pub open spec fn highest(list: Seq<Reading>) -> Reading
    decreases list.len(),
{
    if list.len() <= 1 {
        list[0]
    } else {
        let best = highest(list.drop_last());
        let last = list.last();
        if stamp_greater(last.1, last.2, best.1, best.2) {
            last
        } else {
            best
        }
    }
}

/// Process ranks occur at most once in the readings.
pub open spec fn distinct_processes(list: Seq<Reading>) -> bool {
    forall|i: int, j: int| 0 <= i < list.len() && 0 <= j < list.len() && i != j ==> list[i].0 != list[j].0
}

/// `list` with the reading `r` put in place of the reading of the same
/// process, or appended when that process has none.
pub open spec fn insert_reading(list: Seq<Reading>, r: Reading) -> Seq<Reading> {
    if exists|i: int| 0 <= i < list.len() && list[i].0 == r.0 {
        list.update(choose|i: int| 0 <= i < list.len() && list[i].0 == r.0, r)
    } else {
        list.push(r)
    }
}

/// `acks` with `p` added.
pub open spec fn insert_ack(acks: Set<u8>, p: u8) -> Set<u8> {
    acks.insert(p)
}

/// More than half of the processes.
pub open spec fn is_majority(count: nat, processes_count: usize) -> bool {
    2 * count > processes_count
}

impl RegisterModel {
    pub open spec fn inv(self) -> bool {
        &&& distinct_processes(self.readlist)
        &&& self.acks.finite()
        &&& self.reading ==> self.readval is Some
        &&& self.state.writing ==> self.state.writeval is Some
    }

    /// The register after recovery from `stored`, and the write that was in
    /// progress when it stopped, which must be carried out again.
    pub open spec fn recovered(self_ident: u8, processes_count: usize, stored: Option<StorageStateModel>) -> (
        RegisterModel,
        Option<ClientCommandModel>,
    ) {
        let state = match stored {
            Some(s) => s,
            None => StorageStateModel { read_ident: 0, writing: false, writeval: None },
        };
        let pending = if state.writing {
            Some(
                ClientCommandModel {
                    header: state.writeval.unwrap().0,
                    content: ClientContentModel::Write { data: state.writeval.unwrap().1 },
                },
            )
        } else {
            None
        };
        let state = if state.writing {
            StorageStateModel { read_ident: state.read_ident, writing: false, writeval: None }
        } else {
            state
        };
        (
            RegisterModel {
                self_ident,
                processes_count,
                readlist: Seq::empty(),
                acks: Set::empty(),
                reading: false,
                readval: None,
                state,
            },
            pending,
        )
    }

    /// A client command starts a new round: a read or a write.
    pub open spec fn after_client(self, cmd: ClientCommandModel) -> (RegisterModel, ActionsModel) {
        let read_ident = (self.state.read_ident + 1) as u64;
        let state = match cmd.content {
            ClientContentModel::Read => StorageStateModel {
                read_ident,
                writing: self.state.writing,
                writeval: self.state.writeval,
            },
            ClientContentModel::Write { data } => StorageStateModel {
                read_ident,
                writing: true,
                writeval: Some((cmd.header, data)),
            },
        };
        let reading = match cmd.content {
            ClientContentModel::Read => true,
            ClientContentModel::Write { .. } => self.reading,
        };
        let readval = match cmd.content {
            ClientContentModel::Read => Some((cmd.header.request_identifier, Seq::<u8>::empty())),
            ClientContentModel::Write { .. } => self.readval,
        };
        let next = RegisterModel {
            self_ident: self.self_ident,
            processes_count: self.processes_count,
            readlist: Seq::empty(),
            acks: Set::empty(),
            reading,
            readval,
            state,
        };
        let header = SystemCommandHeader {
            process_identifier: self.self_ident,
            msg_ident: cmd.header.request_identifier as u128,
            read_ident,
            sector_idx: cmd.header.sector_idx,
        };
        (
            next,
            ActionsModel {
                store: Some(state),
                write_sector: None,
                broadcast: Some(SystemCommandModel { header, content: SystemContentModel::ReadProc }),
                send: None,
                complete: None,
            },
        )
    }

    /// READ_PROC: answer the asking process with the local value.
    pub open spec fn after_read_proc(
        self,
        h: SystemCommandHeader,
        data: Seq<u8>,
        timestamp: u64,
        write_rank: u8,
    ) -> (RegisterModel, ActionsModel) {
        let header = SystemCommandHeader {
            process_identifier: self.self_ident,
            msg_ident: h.msg_ident,
            read_ident: h.read_ident,
            sector_idx: h.sector_idx,
        };
        (
            self,
            ActionsModel {
                store: None,
                write_sector: None,
                broadcast: None,
                send: Some(
                    (
                        SystemCommandModel {
                            header,
                            content: SystemContentModel::Value { timestamp, write_rank, sector_data: data },
                        },
                        h.process_identifier as usize,
                    ),
                ),
                complete: None,
            },
        )
    }

    /// WRITE_PROC: keep the value when it is newer than the local one, then acknowledge.
    pub open spec fn after_write_proc(
        self,
        h: SystemCommandHeader,
        timestamp: u64,
        write_rank: u8,
        data: Seq<u8>,
        local_timestamp: u64,
        local_write_rank: u8,
    ) -> (RegisterModel, ActionsModel) {
        let header = SystemCommandHeader {
            process_identifier: self.self_ident,
            msg_ident: h.msg_ident,
            read_ident: h.read_ident,
            sector_idx: h.sector_idx,
        };
        (
            self,
            ActionsModel {
                store: None,
                write_sector: if stamp_greater(timestamp, write_rank, local_timestamp, local_write_rank) {
                    Some((h.sector_idx, data, timestamp, write_rank))
                } else {
                    None
                },
                broadcast: None,
                send: Some(
                    (SystemCommandModel { header, content: SystemContentModel::Ack }, h.process_identifier as usize),
                ),
                complete: None,
            },
        )
    }

    /// A VALUE for the current round that completes a majority, while a read or
    /// a write is in progress.
    pub open spec fn value_reaches_majority(self, h: SystemCommandHeader, timestamp: u64, write_rank: u8, data: Seq<u8>) -> bool {
        &&& h.read_ident == self.state.read_ident
        &&& self.reading || self.state.writing
        &&& is_majority(
            insert_reading(self.readlist, (h.process_identifier, timestamp, write_rank, data)).len(),
            self.processes_count,
        )
    }

    /// The step on `VALUE` overflows a 64-bit counter: the round number, or the
    /// timestamp of a write.
    pub open spec fn value_overflows(self, h: SystemCommandHeader, timestamp: u64, write_rank: u8, data: Seq<u8>) -> bool {
        let best = highest(insert_reading(self.readlist, (h.process_identifier, timestamp, write_rank, data)));
        self.value_reaches_majority(h, timestamp, write_rank, data) && (self.state.read_ident == u64::MAX
            || (!self.reading && best.1 == u64::MAX))
    }

    /// VALUE: collect the reading; with a majority, start the write phase.
    pub open spec fn after_value(self, h: SystemCommandHeader, timestamp: u64, write_rank: u8, data: Seq<u8>) -> (
        RegisterModel,
        ActionsModel,
    ) {
        if h.read_ident != self.state.read_ident {
            (self, no_actions())
        } else {
            let list = insert_reading(self.readlist, (h.process_identifier, timestamp, write_rank, data));
            if (self.reading || self.state.writing) && is_majority(list.len(), self.processes_count) {
                let best = highest(list);
                let read_ident = (self.state.read_ident + 1) as u64;
                let readval = if self.reading {
                    Some((self.readval.unwrap().0, best.3))
                } else {
                    self.readval
                };
                let content = if self.reading {
                    SystemContentModel::WriteProc { timestamp: best.1, write_rank: best.2, data_to_write: best.3 }
                } else {
                    SystemContentModel::WriteProc {
                        timestamp: (best.1 + 1) as u64,
                        write_rank: self.self_ident,
                        data_to_write: self.state.writeval.unwrap().1,
                    }
                };
                let state = StorageStateModel {
                    read_ident,
                    writing: self.state.writing,
                    writeval: self.state.writeval,
                };
                let header = SystemCommandHeader {
                    process_identifier: self.self_ident,
                    msg_ident: h.msg_ident,
                    read_ident,
                    sector_idx: h.sector_idx,
                };
                (
                    RegisterModel {
                        self_ident: self.self_ident,
                        processes_count: self.processes_count,
                        readlist: Seq::empty(),
                        acks: Set::empty(),
                        reading: self.reading,
                        readval,
                        state,
                    },
                    ActionsModel {
                        store: Some(state),
                        write_sector: None,
                        broadcast: Some(SystemCommandModel { header, content }),
                        send: None,
                        complete: None,
                    },
                )
            } else {
                (
                    RegisterModel {
                        self_ident: self.self_ident,
                        processes_count: self.processes_count,
                        readlist: list,
                        acks: self.acks,
                        reading: self.reading,
                        readval: self.readval,
                        state: self.state,
                    },
                    no_actions(),
                )
            }
        }
    }

    /// ACK: count the acknowledgement; with a majority, the operation completes.
    pub open spec fn after_ack(self, h: SystemCommandHeader) -> (RegisterModel, ActionsModel) {
        if h.read_ident != self.state.read_ident {
            (self, no_actions())
        } else {
            let acks = insert_ack(self.acks, h.process_identifier);
            if (self.reading || self.state.writing) && is_majority(acks.len(), self.processes_count) {
                if self.reading {
                    (
                        RegisterModel {
                            self_ident: self.self_ident,
                            processes_count: self.processes_count,
                            readlist: self.readlist,
                            acks: Set::empty(),
                            reading: false,
                            readval: self.readval,
                            state: self.state,
                        },
                        ActionsModel {
                            store: None,
                            write_sector: None,
                            broadcast: None,
                            send: None,
                            complete: Some(
                                OperationCompleteModel {
                                    status_code: StatusCode::Success,
                                    request_identifier: self.readval.unwrap().0,
                                    op_return: OperationReturnModel::Read {
                                        read_data: Some(self.readval.unwrap().1),
                                    },
                                },
                            ),
                        },
                    )
                } else {
                    let state = StorageStateModel {
                        read_ident: self.state.read_ident,
                        writing: false,
                        writeval: self.state.writeval,
                    };
                    (
                        RegisterModel {
                            self_ident: self.self_ident,
                            processes_count: self.processes_count,
                            readlist: self.readlist,
                            acks: Set::empty(),
                            reading: self.reading,
                            readval: self.readval,
                            state,
                        },
                        ActionsModel {
                            store: Some(state),
                            write_sector: None,
                            broadcast: None,
                            send: None,
                            complete: Some(
                                OperationCompleteModel {
                                    status_code: StatusCode::Success,
                                    request_identifier: self.state.writeval.unwrap().0.request_identifier,
                                    op_return: OperationReturnModel::Write,
                                },
                            ),
                        },
                    )
                }
            } else {
                (
                    RegisterModel {
                        self_ident: self.self_ident,
                        processes_count: self.processes_count,
                        readlist: self.readlist,
                        acks,
                        reading: self.reading,
                        readval: self.readval,
                        state: self.state,
                    },
                    no_actions(),
                )
            }
        }
    }

    /// The step on a system command, given the local sector where the command needs it.
    pub open spec fn after_system(self, cmd: SystemCommandModel, local: Option<(Option<Seq<u8>>, u64, u8)>) -> (
        RegisterModel,
        ActionsModel,
    ) {
        match cmd.content {
            SystemContentModel::ReadProc => self.after_read_proc(
                cmd.header,
                local.unwrap().0.unwrap(),
                local.unwrap().1,
                local.unwrap().2,
            ),
            SystemContentModel::Value { timestamp, write_rank, sector_data } => self.after_value(
                cmd.header,
                timestamp,
                write_rank,
                sector_data,
            ),
            SystemContentModel::WriteProc { timestamp, write_rank, data_to_write } =>
                self.after_write_proc(
                cmd.header,
                timestamp,
                write_rank,
                data_to_write,
                local.unwrap().1,
                local.unwrap().2,
            ),
            SystemContentModel::Ack => self.after_ack(cmd.header),
        }
    }

    /// The step on `cmd` overflows a 64-bit counter.
    pub open spec fn system_overflows(self, cmd: SystemCommandModel) -> bool {
        match cmd.content {
            SystemContentModel::Value { timestamp, write_rank, sector_data } => self.value_overflows(
                cmd.header,
                timestamp,
                write_rank,
                sector_data,
            ),
            _ => false,
        }
    }
}

/// The local sector that the step on `content` needs: none for VALUE and ACK,
/// timestamp and write rank for WRITE_PROC, and the data too for READ_PROC.
pub open spec fn local_sector_fits(content: SystemContentModel, local: Option<(Option<Seq<u8>>, u64, u8)>) -> bool {
    match content {
        SystemContentModel::ReadProc => local is Some && local.unwrap().0 is Some,
        SystemContentModel::WriteProc { .. } => local is Some,
        _ => true,
    }
}

pub open spec fn local_view(local: Option<LocalSector>) -> Option<(Option<Seq<u8>>, u64, u8)> {
    match local {
        Some(l) => Some(
            (
                match l.data {
                    Some(d) => Some(d@),
                    None => None,
                },
                l.timestamp,
                l.write_rank,
            ),
        ),
        None => None,
    }
}

// ---------------------------------------------------------------------------
// The register
// ---------------------------------------------------------------------------

struct ReadListEntry {
    process: u8,
    timestamp: u64,
    write_rank: u8,
    data: SectorVec,
}

/// One atomic register of a process.
pub struct AtomicRegisterImplementation {
    self_ident: u8,
    processes_count: usize,
    /// The readings of the round, one per process, in the order they came:
    /// among readings with equal stamps the first is chosen, where a map
    /// would leave the choice to the order in which it is walked.
    readlist: Vec<ReadListEntry>,
    acks: HashSet<u8>,
    reading: bool,
    readval: Option<DataWithRequestIdentifier>,
    state: AtomicRegisterStorageState,
}

spec fn entry_view(e: ReadListEntry) -> Reading {
    (e.process, e.timestamp, e.write_rank, e.data@)
}

impl View for AtomicRegisterImplementation {
    type V = RegisterModel;

    closed spec fn view(&self) -> RegisterModel {
        RegisterModel {
            self_ident: self.self_ident,
            processes_count: self.processes_count,
            readlist: self.readlist@.map_values(|e: ReadListEntry| entry_view(e)),
            acks: self.acks@,
            reading: self.reading,
            readval: match self.readval {
                Some(r) => Some((r.request_identifier, r.data@)),
                None => None,
            },
            state: self.state@,
        }
    }
}

spec fn readings_view(s: Seq<ReadListEntry>) -> Seq<Reading> {
    s.map_values(|e: ReadListEntry| entry_view(e))
}

/// Puts `entry` in place of the entry of the same process, or appends it.
fn insert_entry(list: &mut Vec<ReadListEntry>, entry: ReadListEntry)
    requires
        distinct_processes(readings_view(old(list)@)),
    ensures
        readings_view(final(list)@) == insert_reading(readings_view(old(list)@), entry_view(entry)),
        distinct_processes(readings_view(final(list)@)),
{
    let ghost old_view = readings_view(list@);
    let ghost r = entry_view(entry);
    let mut i: usize = 0;
    while i < list.len()
        invariant
            i <= list@.len(),
            list@ == old(list)@,
            old_view == readings_view(list@),
            old_view.len() == list@.len(),
            distinct_processes(old_view),
            r == entry_view(entry),
            forall|k: int| 0 <= k < i ==> list@[k].process != entry.process,
        decreases list@.len() - i,
    {
        if list[i].process == entry.process {
            proof {
                assert(old_view[i as int] == entry_view(list@[i as int]));
                assert(old_view[i as int].0 == r.0);
                assert forall|k: int| 0 <= k < old_view.len() && old_view[k].0 == r.0 implies k == i by {
                    assert(distinct_processes(old_view));
                }
                let c = choose|k: int| 0 <= k < old_view.len() && old_view[k].0 == r.0;
                assert(c == i);
            }
            list.set(i, entry);
            proof {
                assert(readings_view(list@) =~= old_view.update(i as int, r));
                assert(readings_view(list@) == insert_reading(old_view, r));
            }
            return;
        }
        i = i + 1;
    }
    list.push(entry);
    proof {
        assert(!(exists|k: int| 0 <= k < old_view.len() && old_view[k].0 == r.0)) by {
            assert forall|k: int| 0 <= k < old_view.len() implies old_view[k].0 != r.0 by {
                assert(old_view[k] == entry_view(old(list)@[k]));
            }
        }
        assert(readings_view(list@) =~= old_view.push(r));
    }
}

/// Index of the first entry with the greatest (timestamp, write rank).
fn highest_index(list: &Vec<ReadListEntry>) -> (k: usize)
    requires
        list@.len() > 0,
    ensures
        k < list@.len(),
        entry_view(list@[k as int]) == highest(readings_view(list@)),
{
    let ghost all = readings_view(list@);
    let mut best: usize = 0;
    let mut i: usize = 1;
    assert(all.subrange(0, 1).len() == 1);
    while i < list.len()
        invariant
            1 <= i <= list@.len(),
            best < i,
            all == readings_view(list@),
            entry_view(list@[best as int]) == highest(all.subrange(0, i as int)),
        decreases list@.len() - i,
    {
        let ghost prefix = all.subrange(0, i + 1);
        assert(prefix.drop_last() =~= all.subrange(0, i as int));
        assert(prefix.last() == entry_view(list@[i as int]));
        if list[i].timestamp > list[best].timestamp || (list[i].timestamp == list[best].timestamp
            && list[i].write_rank > list[best].write_rank) {
            best = i;
        }
        i = i + 1;
    }
    assert(all.subrange(0, list@.len() as int) =~= all);
    best
}


/// Copies the readings, sectors included.
fn copy_readlist(list: &Vec<ReadListEntry>) -> (out: Vec<ReadListEntry>)
    ensures
        readings_view(out@) == readings_view(list@),
{
    let mut out: Vec<ReadListEntry> = Vec::new();
    let mut i: usize = 0;
    while i < list.len()
        invariant
            i <= list@.len(),
            readings_view(out@) == readings_view(list@).subrange(0, i as int),
        decreases list@.len() - i,
    {
        let e = &list[i];
        let copy = ReadListEntry {
            process: e.process,
            timestamp: e.timestamp,
            write_rank: e.write_rank,
            data: e.data.duplicate(),
        };
        let ghost prev = out@;
        let ghost ev = entry_view(copy);
        assert(ev == readings_view(list@)[i as int]);
        out.push(copy);
        assert(readings_view(out@) =~= readings_view(prev).push(ev));
        i = i + 1;
        assert(readings_view(out@) =~= readings_view(list@).subrange(0, i as int));
    }
    assert(readings_view(list@).subrange(0, list@.len() as int) =~= readings_view(list@));
    out
}

pub open spec fn stored_view(stored: Option<AtomicRegisterStorageState>) -> Option<StorageStateModel> {
    match stored {
        Some(s) => Some(s@),
        None => None,
    }
}

pub open spec fn client_option_view(c: Option<ClientRegisterCommand>) -> Option<ClientCommandModel> {
    match c {
        Some(c) => Some(c@),
        None => None,
    }
}

impl AtomicRegisterImplementation {
    /// The register is well formed: each process reports at most once per
    /// round, and a read or write in progress has its value.
    pub open spec fn inv(&self) -> bool {
        self@.inv()
    }

    /// A register of process `self_ident` among `processes_count` processes,
    /// recovered from the state found in stable storage (`None` when nothing
    /// was stored). A write that was in progress is given back, to be
    /// submitted again.
    pub fn new(self_ident: u8, processes_count: usize, stored: Option<AtomicRegisterStorageState>) -> (res: (
        Self,
        Option<ClientRegisterCommand>,
    ))
        requires
            match stored {
                Some(s) => s.writing ==> s.writeval is Some,
                None => true,
            },
        ensures
            res.0.inv(),
            res.0@ == RegisterModel::recovered(self_ident, processes_count, stored_view(stored)).0,
            client_option_view(res.1) == RegisterModel::recovered(
                self_ident,
                processes_count,
                stored_view(stored),
            ).1,
    {
        let mut state = match stored {
            Some(s) => s,
            None => AtomicRegisterStorageState { read_ident: 0, writing: false, writeval: None },
        };
        let mut pending: Option<ClientRegisterCommand> = None;
        if state.writing {
            let writeval = state.writeval.take().unwrap();
            state.writing = false;
            pending = Some(
                ClientRegisterCommand {
                    header: writeval.header,
                    content: ClientRegisterCommandContent::Write { data: writeval.data },
                },
            );
        }
        let register = AtomicRegisterImplementation {
            self_ident,
            processes_count,
            readlist: Vec::new(),
            acks: HashSet::new(),
            reading: false,
            readval: None,
            state,
        };
        proof {
            assert(register@.readlist =~= Seq::<Reading>::empty());
            assert(register@.acks =~= Set::<u8>::empty());
        }
        (register, pending)
    }

    /// The number of the current round.
    pub fn read_ident(&self) -> (r: u64)
        ensures
            r == self@.state.read_ident,
    {
        self.state.read_ident
    }

    fn clear_round(&mut self)
        ensures
            final(self)@ == (RegisterModel {
                readlist: Seq::empty(),
                acks: Set::empty(),
                ..old(self)@
            }),
    {
        self.readlist.clear();
        self.acks.clear();
        proof {
            assert(self@.readlist =~= Seq::<Reading>::empty());
        }
    }

    /// Starts a read or a write for a client.
    pub fn client_command(&mut self, cmd: ClientRegisterCommand) -> (actions: RegisterActions)
        requires
            old(self).inv(),
            old(self)@.state.read_ident < u64::MAX,
        ensures
            final(self).inv(),
            final(self)@ == old(self)@.after_client(cmd@).0,
            actions@ == old(self)@.after_client(cmd@).1,
    {
        self.state.read_ident = self.state.read_ident + 1;
        self.clear_round();
        let header = cmd.header;
        match cmd.content {
            ClientRegisterCommandContent::Read => {
                self.readval = Some(
                    DataWithRequestIdentifier {
                        request_identifier: header.request_identifier,
                        data: SectorVec(Vec::new()),
                    },
                );
                self.reading = true;
            },
            ClientRegisterCommandContent::Write { data } => {
                self.state.writeval = Some(DataWithHeader { header, data });
                self.state.writing = true;
            },
        }
        let store = self.state.duplicate();
        let sys_header = SystemCommandHeader::new(
            self.self_ident,
            header.request_identifier as u128,
            self.state.read_ident,
            header.sector_idx,
        );
        let broadcast = Broadcast {
            cmd: Arc::new(
                SystemRegisterCommand { header: sys_header, content: SystemRegisterCommandContent::ReadProc },
            ),
        };
        proof {
            assert(self@.readval == old(self)@.after_client(cmd@).0.readval);
        }
        RegisterActions {
            store: Some(store),
            write_sector: None,
            broadcast: Some(broadcast),
            send: None,
            complete: None,
        }
    }

    fn on_read_proc(&self, h: SystemCommandHeader, data: SectorVec, timestamp: u64, write_rank: u8) -> (actions: RegisterActions)
        ensures
            actions@ == self@.after_read_proc(h, data@, timestamp, write_rank).1,
    {
        let header = SystemCommandHeader::new(self.self_ident, h.msg_ident, h.read_ident, h.sector_idx);
        let content = SystemRegisterCommandContent::new_value(timestamp, write_rank, data);
        RegisterActions {
            store: None,
            write_sector: None,
            broadcast: None,
            send: Some(
                Send {
                    cmd: Arc::new(SystemRegisterCommand { header, content }),
                    target: h.process_identifier as usize,
                },
            ),
            complete: None,
        }
    }

    fn on_write_proc(
        &self,
        h: SystemCommandHeader,
        timestamp: u64,
        write_rank: u8,
        data: SectorVec,
        local_timestamp: u64,
        local_write_rank: u8,
    ) -> (actions: RegisterActions)
        ensures
            actions@ == self@.after_write_proc(
                h,
                timestamp,
                write_rank,
                data@,
                local_timestamp,
                local_write_rank,
            ).1,
    {
        let write_sector = if timestamp > local_timestamp || (timestamp == local_timestamp && write_rank
            > local_write_rank) {
            Some((h.sector_idx, data, timestamp, write_rank))
        } else {
            None
        };
        let header = SystemCommandHeader::new(self.self_ident, h.msg_ident, h.read_ident, h.sector_idx);
        RegisterActions {
            store: None,
            write_sector,
            broadcast: None,
            send: Some(
                Send {
                    cmd: Arc::new(SystemRegisterCommand { header, content: SystemRegisterCommandContent::Ack }),
                    target: h.process_identifier as usize,
                },
            ),
            complete: None,
        }
    }

    fn on_value(&mut self, h: SystemCommandHeader, timestamp: u64, write_rank: u8, sector_data: SectorVec) -> (actions: RegisterActions)
        requires
            old(self).inv(),
            !old(self)@.value_overflows(h, timestamp, write_rank, sector_data@),
        ensures
            final(self).inv(),
            final(self)@ == old(self)@.after_value(h, timestamp, write_rank, sector_data@).0,
            actions@ == old(self)@.after_value(h, timestamp, write_rank, sector_data@).1,
    {
        let ghost old_model = self@;
        let ghost r: Reading = (h.process_identifier, timestamp, write_rank, sector_data@);
        if h.read_ident != self.state.read_ident {
            return no_register_actions();
        }
        insert_entry(
            &mut self.readlist,
            ReadListEntry { process: h.process_identifier, timestamp, write_rank, data: sector_data },
        );
        let ghost list = insert_reading(old_model.readlist, r);
        assert(self@.readlist == list);
        if (self.reading || self.state.writing) && self.readlist.len() > self.processes_count / 2 {
            assert(is_majority(list.len(), self.processes_count));
            let k = highest_index(&self.readlist);
            let maxts = self.readlist[k].timestamp;
            let maxrank = self.readlist[k].write_rank;
            let maxdata = self.readlist[k].data.duplicate();
            let ghost best = highest(list);
            assert(best == (self.readlist@[k as int].process, maxts, maxrank, maxdata@));
            self.clear_round();
            let content = if self.reading {
                let request_identifier = self.readval.as_ref().unwrap().request_identifier;
                self.readval = Some(DataWithRequestIdentifier { request_identifier, data: maxdata.duplicate() });
                SystemRegisterCommandContent::new_write_proc(maxts, maxrank, maxdata)
            } else {
                let data = self.state.writeval.as_ref().unwrap().data.duplicate();
                SystemRegisterCommandContent::new_write_proc(maxts + 1, self.self_ident, data)
            };
            self.state.read_ident = self.state.read_ident + 1;
            let store = self.state.duplicate();
            let header = SystemCommandHeader::new(self.self_ident, h.msg_ident, self.state.read_ident, h.sector_idx);
            RegisterActions {
                store: Some(store),
                write_sector: None,
                broadcast: Some(Broadcast { cmd: Arc::new(SystemRegisterCommand { header, content }) }),
                send: None,
                complete: None,
            }
        } else {
            assert(!((old_model.reading || old_model.state.writing) && is_majority(list.len(), self.processes_count)));
            no_register_actions()
        }
    }

    fn on_ack(&mut self, h: SystemCommandHeader) -> (actions: RegisterActions)
        requires
            old(self).inv(),
        ensures
            final(self).inv(),
            final(self)@ == old(self)@.after_ack(h).0,
            actions@ == old(self)@.after_ack(h).1,
    {
        if h.read_ident != self.state.read_ident {
            return no_register_actions();
        }
        self.acks.insert(h.process_identifier);
        if (self.reading || self.state.writing) && self.acks.len() > self.processes_count / 2 {
            self.acks.clear();
            if self.reading {
                self.reading = false;
                let r = self.readval.as_ref().unwrap();
                let complete = OperationComplete {
                    status_code: StatusCode::Success,
                    request_identifier: r.request_identifier,
                    op_return: OperationReturn::Read(ReadReturn { read_data: Some(r.data.duplicate()) }),
                };
                RegisterActions {
                    store: None,
                    write_sector: None,
                    broadcast: None,
                    send: None,
                    complete: Some(complete),
                }
            } else {
                self.state.writing = false;
                let store = self.state.duplicate();
                let request_identifier = self.state.writeval.as_ref().unwrap().header.request_identifier;
                let complete = OperationComplete {
                    status_code: StatusCode::Success,
                    request_identifier,
                    op_return: OperationReturn::Write,
                };
                RegisterActions {
                    store: Some(store),
                    write_sector: None,
                    broadcast: None,
                    send: None,
                    complete: Some(complete),
                }
            }
        } else {
            no_register_actions()
        }
    }

    /// Handles a command of the algorithm from another process (or from this
    /// one). `local` is what this process stores for the command's sector:
    /// timestamp and write rank for WRITE_PROC, and the data too for
    /// READ_PROC; it is not read for VALUE and ACK.
    pub fn system_command(&mut self, cmd: SystemRegisterCommand, local: Option<LocalSector>) -> (actions: RegisterActions)
        requires
            old(self).inv(),
            local_sector_fits(cmd@.content, local_view(local)),
            !old(self)@.system_overflows(cmd@),
        ensures
            final(self).inv(),
            final(self)@ == old(self)@.after_system(cmd@, local_view(local)).0,
            actions@ == old(self)@.after_system(cmd@, local_view(local)).1,
    {
        let h = cmd.header;
        match cmd.content {
            SystemRegisterCommandContent::ReadProc => {
                let l = local.unwrap();
                self.on_read_proc(h, l.data.unwrap(), l.timestamp, l.write_rank)
            },
            SystemRegisterCommandContent::Value { timestamp, write_rank, sector_data } => {
                self.on_value(h, timestamp, write_rank, sector_data)
            },
            SystemRegisterCommandContent::WriteProc { timestamp, write_rank, data_to_write } => {
                let l = local.unwrap();
                self.on_write_proc(h, timestamp, write_rank, data_to_write, l.timestamp, l.write_rank)
            },
            SystemRegisterCommandContent::Ack => self.on_ack(h),
        }
    }

    /// Whether handling `cmd` would overflow the round number or a write's
    /// timestamp; `system_command` must not be called then.
    pub fn system_command_overflows(&self, cmd: &SystemRegisterCommand) -> (b: bool)
        requires
            self.inv(),
        ensures
            b == self@.system_overflows(cmd@),
    {
        match &cmd.content {
            SystemRegisterCommandContent::Value { timestamp, write_rank, sector_data } => {
                let h = cmd.header;
                if h.read_ident != self.state.read_ident || !(self.reading || self.state.writing) {
                    return false;
                }
                let mut list = copy_readlist(&self.readlist);
                insert_entry(
                    &mut list,
                    ReadListEntry {
                        process: h.process_identifier,
                        timestamp: *timestamp,
                        write_rank: *write_rank,
                        data: sector_data.duplicate(),
                    },
                );
                if list.len() <= self.processes_count / 2 {
                    return false;
                }
                let k = highest_index(&list);
                self.state.read_ident == u64::MAX || (!self.reading && list[k].timestamp == u64::MAX)
            },
            _ => false,
        }
    }
}

// ---------------------------------------------------------------------------
// Laws
// ---------------------------------------------------------------------------

/// The reading chosen by `highest` is one of the readings, and no reading has
/// a greater (timestamp, write rank).
pub proof fn lemma_highest_is_maximal(list: Seq<Reading>)
    requires
        list.len() > 0,
    ensures
        list.contains(highest(list)),
        forall|i: int|
            0 <= i < list.len() ==> !stamp_greater(list[i].1, list[i].2, highest(list).1, highest(list).2),
    decreases list.len(),
{
    if list.len() == 1 {
        assert(list[0] == highest(list));
    } else {
        let init = list.drop_last();
        lemma_highest_is_maximal(init);
        let best = highest(init);
        assert(init.contains(best));
        let k = choose|k: int| 0 <= k < init.len() && init[k] == best;
        assert(list[k] == best);
        if stamp_greater(list.last().1, list.last().2, best.1, best.2) {
            assert(list[list.len() - 1] == highest(list));
            assert forall|i: int| 0 <= i < list.len() implies !stamp_greater(
                list[i].1,
                list[i].2,
                highest(list).1,
                highest(list).2,
            ) by {
                if i < list.len() - 1 {
                    assert(list[i] == init[i]);
                }
            }
        } else {
            assert forall|i: int| 0 <= i < list.len() implies !stamp_greater(
                list[i].1,
                list[i].2,
                highest(list).1,
                highest(list).2,
            ) by {
                if i < list.len() - 1 {
                    assert(list[i] == init[i]);
                }
            }
        }
    }
}

/// Putting a reading in keeps process ranks distinct, and the reading is then
/// the one of its process.
pub proof fn lemma_insert_reading(list: Seq<Reading>, r: Reading)
    requires
        distinct_processes(list),
    ensures
        distinct_processes(insert_reading(list, r)),
        insert_reading(list, r).contains(r),
        forall|i: int|
            0 <= i < insert_reading(list, r).len() && insert_reading(list, r)[i].0 == r.0 ==> insert_reading(
                list,
                r,
            )[i] == r,
{
    let out = insert_reading(list, r);
    if exists|i: int| 0 <= i < list.len() && list[i].0 == r.0 {
        let c = choose|i: int| 0 <= i < list.len() && list[i].0 == r.0;
        assert(out[c] == r);
    } else {
        assert(out[list.len() as int] == r);
    }
}

/// Every step keeps the register well formed.
pub proof fn lemma_steps_keep_invariant(
    m: RegisterModel,
    client: ClientCommandModel,
    system: SystemCommandModel,
    local: Option<(Option<Seq<u8>>, u64, u8)>,
)
    requires
        m.inv(),
        local_sector_fits(system.content, local),
    ensures
        m.after_client(client).0.inv(),
        m.after_system(system, local).0.inv(),
{
    match system.content {
        SystemContentModel::Value { timestamp, write_rank, sector_data } => {
            lemma_insert_reading(m.readlist, (system.header.process_identifier, timestamp, write_rank, sector_data));
        },
        _ => {},
    }
}

/// The round number never decreases, and a client command advances it by one.
pub proof fn lemma_round_never_decreases(
    m: RegisterModel,
    client: ClientCommandModel,
    system: SystemCommandModel,
    local: Option<(Option<Seq<u8>>, u64, u8)>,
)
    requires
        m.state.read_ident < u64::MAX,
        !m.system_overflows(system),
    ensures
        m.after_client(client).0.state.read_ident == m.state.read_ident + 1,
        m.after_system(system, local).0.state.read_ident >= m.state.read_ident,
{
}

/// A VALUE or ACK of another round changes nothing and asks for nothing.
pub proof fn lemma_stale_messages_ignored(
    m: RegisterModel,
    h: SystemCommandHeader,
    timestamp: u64,
    write_rank: u8,
    data: Seq<u8>,
)
    requires
        h.read_ident != m.state.read_ident,
    ensures
        m.after_value(h, timestamp, write_rank, data) == (m, no_actions()),
        m.after_ack(h) == (m, no_actions()),
{
}

/// A client command completes only on an acknowledgement of the current round
/// that makes acknowledgements from more than half of the processes, and it
/// completes successfully with the request identifier of the operation.
pub proof fn lemma_completion_needs_majority(m: RegisterModel, h: SystemCommandHeader)
    requires
        m.inv(),
        m.after_ack(h).1.complete is Some,
    ensures
        h.read_ident == m.state.read_ident,
        is_majority(insert_ack(m.acks, h.process_identifier).len(), m.processes_count),
        m.after_ack(h).1.complete.unwrap().status_code == StatusCode::Success,
        m.reading ==> m.after_ack(h).1.complete.unwrap().request_identifier == m.readval.unwrap().0,
        !m.reading ==> m.after_ack(h).1.complete.unwrap().request_identifier
            == m.state.writeval.unwrap().0.request_identifier,
{
}

/// A read that collected a majority keeps the value with the greatest
/// (timestamp, write rank) among the replies, writes exactly that value back
/// with its own timestamp and rank, and returns it when the write back is
/// acknowledged.
pub proof fn lemma_read_returns_highest_value(
    m: RegisterModel,
    h: SystemCommandHeader,
    timestamp: u64,
    write_rank: u8,
    data: Seq<u8>,
    ack: SystemCommandHeader,
)
    requires
        m.inv(),
        m.reading,
        m.value_reaches_majority(h, timestamp, write_rank, data),
        m.state.read_ident < u64::MAX,
    ensures
        ({
            let list = insert_reading(m.readlist, (h.process_identifier, timestamp, write_rank, data));
            let best = highest(list);
            let (next, actions) = m.after_value(h, timestamp, write_rank, data);
            &&& list.contains(best)
            &&& next.readval == Some((m.readval.unwrap().0, best.3))
            &&& actions.broadcast == Some(
                SystemCommandModel {
                    header: SystemCommandHeader {
                        process_identifier: m.self_ident,
                        msg_ident: h.msg_ident,
                        read_ident: next.state.read_ident,
                        sector_idx: h.sector_idx,
                    },
                    content: SystemContentModel::WriteProc {
                        timestamp: best.1,
                        write_rank: best.2,
                        data_to_write: best.3,
                    },
                },
            )
            &&& next.after_ack(ack).1.complete is Some ==> next.after_ack(ack).1.complete.unwrap().op_return
                == (OperationReturnModel::Read { read_data: Some(best.3) })
        }),
{
    let list = insert_reading(m.readlist, (h.process_identifier, timestamp, write_rank, data));
    lemma_insert_reading(m.readlist, (h.process_identifier, timestamp, write_rank, data));
    lemma_highest_is_maximal(list);
}

/// A write that collected a majority sends its own value with a timestamp
/// one more than the greatest timestamp reported to it, stamped with its own
/// rank.
pub proof fn lemma_write_timestamp_exceeds_replies(
    m: RegisterModel,
    h: SystemCommandHeader,
    timestamp: u64,
    write_rank: u8,
    data: Seq<u8>,
)
    requires
        m.inv(),
        !m.reading,
        m.value_reaches_majority(h, timestamp, write_rank, data),
        !m.value_overflows(h, timestamp, write_rank, data),
    ensures
        ({
            let list = insert_reading(m.readlist, (h.process_identifier, timestamp, write_rank, data));
            let sent = m.after_value(h, timestamp, write_rank, data).1.broadcast.unwrap();
            &&& sent.content matches SystemContentModel::WriteProc { timestamp: ts, write_rank: wr, data_to_write: d }
                && wr == m.self_ident && d == m.state.writeval.unwrap().1 && (forall|i: int|
                0 <= i < list.len() ==> list[i].1 < ts) && (exists|i: int|
                0 <= i < list.len() && ts == list[i].1 + 1)
        }),
{
    let list = insert_reading(m.readlist, (h.process_identifier, timestamp, write_rank, data));
    lemma_insert_reading(m.readlist, (h.process_identifier, timestamp, write_rank, data));
    lemma_highest_is_maximal(list);
    let k = choose|k: int| 0 <= k < list.len() && list[k] == highest(list);
    assert(list[k] == highest(list));
}

/// A process keeps a written value exactly when its (timestamp, write rank)
/// is greater than the local one, and always acknowledges to the sender.
pub proof fn lemma_write_proc_keeps_newer(
    m: RegisterModel,
    h: SystemCommandHeader,
    timestamp: u64,
    write_rank: u8,
    data: Seq<u8>,
    local_timestamp: u64,
    local_write_rank: u8,
)
    ensures
        ({
            let (next, actions) = m.after_write_proc(h, timestamp, write_rank, data, local_timestamp, local_write_rank);
            &&& next == m
            &&& (actions.write_sector is Some <==> stamp_greater(timestamp, write_rank, local_timestamp, local_write_rank))
            &&& actions.write_sector is Some ==> actions.write_sector.unwrap() == (h.sector_idx, data, timestamp, write_rank)
            &&& actions.send.unwrap().1 == h.process_identifier as usize
            &&& actions.send.unwrap().0.content == SystemContentModel::Ack
            &&& actions.send.unwrap().0.header.read_ident == h.read_ident
        }),
{
}

/// After recovery no operation is in progress; a write that was in progress
/// is handed back unchanged, to be started again.
pub proof fn lemma_recovery_resubmits_write(self_ident: u8, processes_count: usize, stored: StorageStateModel)
    requires
        stored.writing ==> stored.writeval is Some,
    ensures
        ({
            let (m, pending) = RegisterModel::recovered(self_ident, processes_count, Some(stored));
            &&& m.inv()
            &&& !m.reading && !m.state.writing
            &&& m.state.read_ident == stored.read_ident
            &&& (pending is Some <==> stored.writing)
            &&& stored.writing ==> pending == Some(
                ClientCommandModel {
                    header: stored.writeval.unwrap().0,
                    content: ClientContentModel::Write { data: stored.writeval.unwrap().1 },
                },
            )
        }),
{
    assert(Seq::<u8>::empty().no_duplicates());
}


// ---------------------------------------------------------------------------
// Runs of replies
// ---------------------------------------------------------------------------

/// The register after the acknowledgements `hs`, in order.
pub open spec fn after_acks(m: RegisterModel, hs: Seq<SystemCommandHeader>) -> RegisterModel
    decreases hs.len(),
{
    if hs.len() == 0 {
        m
    } else {
        after_acks(m, hs.drop_last()).after_ack(hs.last()).0
    }
}

/// The processes among the senders of the first `k` replies.
pub open spec fn senders(hs: Seq<SystemCommandHeader>, k: int) -> Set<u8> {
    Set::new(|q: u8| exists|i: int| 0 <= i < k && #[trigger] hs[i].process_identifier == q)
}

proof fn lemma_senders_step(hs: Seq<SystemCommandHeader>, k: int)
    requires
        0 <= k < hs.len(),
    ensures
        senders(hs, k + 1) == senders(hs, k).insert(hs[k].process_identifier),
{
    assert forall|q: u8| senders(hs, k + 1).contains(q) implies #[trigger] senders(hs, k).insert(
        hs[k].process_identifier,
    ).contains(q) by {
        let i = choose|i: int| 0 <= i < k + 1 && #[trigger] hs[i].process_identifier == q;
        if i < k {
            assert(senders(hs, k).contains(q));
        }
    }
    assert forall|q: u8| senders(hs, k).insert(hs[k].process_identifier).contains(q) implies #[trigger] senders(
        hs,
        k + 1,
    ).contains(q) by {
        if q != hs[k].process_identifier {
            let i = choose|i: int| 0 <= i < k && #[trigger] hs[i].process_identifier == q;
            assert(hs[i].process_identifier == q);
        } else {
            assert(hs[k].process_identifier == q);
        }
    }
    assert(senders(hs, k + 1) =~= senders(hs, k).insert(hs[k].process_identifier));
}

/// While the first `k` acknowledgements of the round have not come from a
/// majority, the operation is still in progress and has counted each of their
/// senders once; once they have, the operation has completed.
proof fn lemma_after_acks_state(m: RegisterModel, hs: Seq<SystemCommandHeader>, k: int)
    requires
        m.inv(),
        m.reading || m.state.writing,
        !(m.reading && m.state.writing),
        m.acks.len() == 0,
        forall|i: int| 0 <= i < hs.len() ==> (#[trigger] hs[i]).read_ident == m.state.read_ident,
        0 <= k <= hs.len(),
    ensures
        ({
            let mk = after_acks(m, hs.take(k));
            &&& mk.inv()
            &&& mk.state.read_ident == m.state.read_ident
            &&& mk.processes_count == m.processes_count
            &&& senders(hs, k).finite()
            &&& !is_majority(senders(hs, k).len(), m.processes_count) ==> {
                &&& mk.reading == m.reading
                &&& mk.state.writing == m.state.writing
                &&& mk.acks == senders(hs, k)
            }
            &&& is_majority(senders(hs, k).len(), m.processes_count) ==> !mk.reading && !mk.state.writing
        }),
    decreases k,
{
    if k == 0 {
        assert(hs.take(0) =~= Seq::<SystemCommandHeader>::empty());
        assert(senders(hs, 0) =~= Set::<u8>::empty());
        assert(m.acks =~= Set::<u8>::empty());
    } else {
        lemma_after_acks_state(m, hs, k - 1);
        let prev = after_acks(m, hs.take(k - 1));
        assert(hs.take(k).drop_last() =~= hs.take(k - 1));
        assert(hs.take(k).last() == hs[k - 1]);
        let h = hs[k - 1];
        lemma_senders_step(hs, k - 1);
        lemma_steps_keep_invariant(prev, ClientCommandModel {
            header: ClientCommandHeader { request_identifier: 0, sector_idx: 0 },
            content: ClientContentModel::Read,
        }, SystemCommandModel { header: h, content: SystemContentModel::Ack }, None);
        assert(after_acks(m, hs.take(k)) == prev.after_ack(h).0);
        assert(prev.after_system(SystemCommandModel { header: h, content: SystemContentModel::Ack }, None)
            == prev.after_ack(h));
        if is_majority(senders(hs, k - 1).len(), m.processes_count) {
            vstd::set_lib::lemma_len_subset(senders(hs, k - 1), senders(hs, k));
        } else {
        }
    }
}

/// For a read or a write in its second round: the operation completes on the
/// first acknowledgement of its round after which acknowledgements have come
/// from a majority of the processes, and on
/// no other: acknowledgements repeated by one process count once, and once
/// the operation has completed, further acknowledgements complete nothing.
pub proof fn lemma_completes_at_first_majority(m: RegisterModel, hs: Seq<SystemCommandHeader>)
    requires
        m.inv(),
        m.reading || m.state.writing,
        !(m.reading && m.state.writing),
        m.acks.len() == 0,
        forall|i: int| 0 <= i < hs.len() ==> (#[trigger] hs[i]).read_ident == m.state.read_ident,
    ensures
        forall|k: int|
            0 <= k < hs.len() ==> ((#[trigger] after_acks(m, hs.take(k)).after_ack(hs[k])).1.complete is Some
                <==> (is_majority(senders(hs, k + 1).len(), m.processes_count) && !is_majority(
                senders(hs, k).len(),
                m.processes_count,
            ))),
{
    assert forall|k: int| 0 <= k < hs.len() implies ((#[trigger] after_acks(m, hs.take(k)).after_ack(
        hs[k],
    )).1.complete is Some <==> (is_majority(senders(hs, k + 1).len(), m.processes_count) && !is_majority(
        senders(hs, k).len(),
        m.processes_count,
    ))) by {
        lemma_after_acks_state(m, hs, k);
        lemma_after_acks_state(m, hs, k + 1);
        lemma_senders_step(hs, k);
        let prev = after_acks(m, hs.take(k));
        if is_majority(senders(hs, k).len(), m.processes_count) {
        } else {
            assert(hs.take(k + 1).drop_last() =~= hs.take(k));
            assert(hs.take(k + 1).last() == hs[k]);
        }
    }
}


/// A VALUE reply: its header, timestamp, write rank and sector.
pub type ValueReply = (SystemCommandHeader, u64, u8, Seq<u8>);

/// The register after the VALUE replies `vs`, in order.
pub open spec fn after_values(m: RegisterModel, vs: Seq<ValueReply>) -> RegisterModel
    decreases vs.len(),
{
    if vs.len() == 0 {
        m
    } else {
        let v = vs.last();
        after_values(m, vs.drop_last()).after_value(v.0, v.1, v.2, v.3).0
    }
}

/// The headers of the replies `vs`.
pub open spec fn reply_headers(vs: Seq<ValueReply>) -> Seq<SystemCommandHeader> {
    vs.map_values(|v: ValueReply| v.0)
}

/// The processes that reported the readings.
pub open spec fn reading_senders(list: Seq<Reading>) -> Set<u8> {
    Set::new(|q: u8| exists|i: int| 0 <= i < list.len() && #[trigger] list[i].0 == q)
}

proof fn lemma_reading_senders(list: Seq<Reading>, r: Reading)
    requires
        distinct_processes(list),
    ensures
        reading_senders(list).finite(),
        reading_senders(list).len() == list.len(),
        reading_senders(insert_reading(list, r)) == reading_senders(list).insert(r.0),
{
    let pids = list.map_values(|x: Reading| x.0);
    assert forall|i: int, j: int| 0 <= i < pids.len() && 0 <= j < pids.len() && i != j implies pids[i] != pids[j] by {
        assert(pids[i] == list[i].0 && pids[j] == list[j].0);
    }
    pids.unique_seq_to_set();
    assert forall|q: u8| #[trigger] reading_senders(list).contains(q) <==> pids.to_set().contains(q) by {
        if reading_senders(list).contains(q) {
            let i = choose|i: int| 0 <= i < list.len() && #[trigger] list[i].0 == q;
            assert(pids[i] == q);
        }
        if pids.to_set().contains(q) {
            let i = choose|i: int| 0 <= i < pids.len() && pids[i] == q;
            assert(list[i].0 == q);
        }
    }
    assert(reading_senders(list) =~= pids.to_set());
    let out = insert_reading(list, r);
    lemma_insert_reading(list, r);
    lemma_insert_reading_elements(list, r);
    assert forall|q: u8| #[trigger] reading_senders(out).contains(q) <==> reading_senders(list).insert(r.0).contains(q) by {
        if reading_senders(out).contains(q) {
            let i = choose|i: int| 0 <= i < out.len() && #[trigger] out[i].0 == q;
            if out[i] != r {
                let j = choose|j: int| 0 <= j < list.len() && list[j] == out[i];
                assert(list[j].0 == q);
            }
        }
        if q == r.0 {
            let i = choose|i: int| 0 <= i < out.len() && out[i] == r;
            assert(out[i].0 == q);
        } else if reading_senders(list).contains(q) {
            let i = choose|i: int| 0 <= i < list.len() && #[trigger] list[i].0 == q;
            if exists|k: int| 0 <= k < list.len() && list[k].0 == r.0 {
                let c = choose|k: int| 0 <= k < list.len() && list[k].0 == r.0;
                assert(i != c);
                assert(out[i] == list[i]);
            } else {
                assert(out[i] == list[i]);
            }
        }
    }
    assert(reading_senders(out) =~= reading_senders(list).insert(r.0));
}

/// Each reading of `insert_reading(list, r)` is `r` or a reading of `list`.
pub proof fn lemma_insert_reading_elements(list: Seq<Reading>, r: Reading)
    ensures
        forall|i: int|
            0 <= i < insert_reading(list, r).len() ==> #[trigger] insert_reading(list, r)[i] == r
                || list.contains(insert_reading(list, r)[i]),
{
    let out = insert_reading(list, r);
    assert forall|i: int| 0 <= i < out.len() implies #[trigger] out[i] == r || list.contains(out[i]) by {
        if out[i] != r {
            assert(list[i] == out[i]);
        }
    }
}

proof fn lemma_after_values_state(m: RegisterModel, vs: Seq<ValueReply>, k: int)
    requires
        m.inv(),
        m.reading || m.state.writing,
        m.readlist.len() == 0,
        m.state.read_ident < u64::MAX,
        forall|i: int| 0 <= i < vs.len() ==> (#[trigger] vs[i]).0.read_ident == m.state.read_ident,
        0 <= k <= vs.len(),
    ensures
        ({
            let mk = after_values(m, vs.take(k));
            let hs = reply_headers(vs);
            &&& mk.inv()
            &&& mk.processes_count == m.processes_count
            &&& senders(hs, k).finite()
            &&& !is_majority(senders(hs, k).len(), m.processes_count) ==> {
                &&& mk.reading == m.reading
                &&& mk.state.writing == m.state.writing
                &&& mk.state.read_ident == m.state.read_ident
                &&& reading_senders(mk.readlist) == senders(hs, k)
            }
            &&& is_majority(senders(hs, k).len(), m.processes_count) ==> mk.state.read_ident
                != m.state.read_ident
        }),
    decreases k,
{
    let hs = reply_headers(vs);
    if k == 0 {
        assert(vs.take(0) =~= Seq::<ValueReply>::empty());
        assert(senders(hs, 0) =~= Set::<u8>::empty());
        assert(reading_senders(m.readlist) =~= Set::<u8>::empty());
    } else {
        lemma_after_values_state(m, vs, k - 1);
        let prev = after_values(m, vs.take(k - 1));
        assert(vs.take(k).drop_last() =~= vs.take(k - 1));
        assert(vs.take(k).last() == vs[k - 1]);
        let v = vs[k - 1];
        assert(hs[k - 1] == v.0);
        lemma_senders_step(hs, k - 1);
        let sm = SystemCommandModel {
            header: v.0,
            content: SystemContentModel::Value { timestamp: v.1, write_rank: v.2, sector_data: v.3 },
        };
        lemma_steps_keep_invariant(prev, ClientCommandModel {
            header: ClientCommandHeader { request_identifier: 0, sector_idx: 0 },
            content: ClientContentModel::Read,
        }, sm, None);
        assert(prev.after_system(sm, None) == prev.after_value(v.0, v.1, v.2, v.3));
        assert(after_values(m, vs.take(k)) == prev.after_value(v.0, v.1, v.2, v.3).0);
        if is_majority(senders(hs, k - 1).len(), m.processes_count) {
            vstd::set_lib::lemma_len_subset(senders(hs, k - 1), senders(hs, k));
            assert(v.0.read_ident != prev.state.read_ident);
        } else {
            let rd = (v.0.process_identifier, v.1, v.2, v.3);
            let list = insert_reading(prev.readlist, rd);
            lemma_reading_senders(prev.readlist, rd);
            lemma_insert_reading(prev.readlist, rd);
            lemma_reading_senders(list, rd);
            assert(reading_senders(list) == senders(hs, k));
            assert(list.len() == senders(hs, k).len());
            if is_majority(senders(hs, k).len(), m.processes_count) {
                assert(prev.after_value(v.0, v.1, v.2, v.3).0.state.read_ident == (prev.state.read_ident + 1) as u64);
            } else {
                assert(prev.after_value(v.0, v.1, v.2, v.3).0.readlist == list);
            }
        }
    }
}

/// A read or write in its first round starts its second round (broadcasts
/// WRITE_PROC) on the first VALUE of the round after which values have come
/// from a majority of the processes, and on no other: values repeated by one
/// process count once, and once the second round has started, further values
/// of the first round change nothing.
pub proof fn lemma_second_round_at_first_majority(m: RegisterModel, vs: Seq<ValueReply>)
    requires
        m.inv(),
        m.reading || m.state.writing,
        m.readlist.len() == 0,
        m.state.read_ident < u64::MAX,
        forall|i: int| 0 <= i < vs.len() ==> (#[trigger] vs[i]).0.read_ident == m.state.read_ident,
    ensures
        forall|k: int|
            0 <= k < vs.len() ==> ((#[trigger] after_values(m, vs.take(k)).after_value(
                vs[k].0,
                vs[k].1,
                vs[k].2,
                vs[k].3,
            )).1.broadcast is Some <==> (is_majority(senders(reply_headers(vs), k + 1).len(), m.processes_count)
                && !is_majority(senders(reply_headers(vs), k).len(), m.processes_count))),
{
    let hs = reply_headers(vs);
    assert forall|k: int| 0 <= k < vs.len() implies ((#[trigger] after_values(m, vs.take(k)).after_value(
        vs[k].0,
        vs[k].1,
        vs[k].2,
        vs[k].3,
    )).1.broadcast is Some <==> (is_majority(senders(hs, k + 1).len(), m.processes_count) && !is_majority(
        senders(hs, k).len(),
        m.processes_count,
    ))) by {
        lemma_after_values_state(m, vs, k);
        lemma_senders_step(hs, k);
        let prev = after_values(m, vs.take(k));
        let v = vs[k];
        assert(hs[k] == v.0);
        if !is_majority(senders(hs, k).len(), m.processes_count) {
            lemma_reading_senders(prev.readlist, (v.0.process_identifier, v.1, v.2, v.3));
            lemma_insert_reading(prev.readlist, (v.0.process_identifier, v.1, v.2, v.3));
            lemma_reading_senders(
                insert_reading(prev.readlist, (v.0.process_identifier, v.1, v.2, v.3)),
                (v.0.process_identifier, v.1, v.2, v.3),
            );
        } else {
            vstd::set_lib::lemma_len_subset(senders(hs, k), senders(hs, k + 1));
        }
    }
}


// ---------------------------------------------------------------------------
// What each message is about
// ---------------------------------------------------------------------------

/// A client command starts a new round of its own sector: the register
/// broadcasts READ_PROC from itself, for the client's sector, under the
/// round identifier of the client's request and the next round number, and
/// stores its state; nothing else is sent or completed. A read remembers its
/// request identifier; a write remembers the client's header and data.
pub proof fn lemma_client_command_starts_round(m: RegisterModel, cmd: ClientCommandModel)
    requires
        m.state.read_ident < u64::MAX,
    ensures
        ({
            let (n, a) = m.after_client(cmd);
            &&& n.state.read_ident == m.state.read_ident + 1
            &&& a.broadcast matches Some(b) && {
                &&& b.content is ReadProc
                &&& b.header.process_identifier == m.self_ident
                &&& b.header.msg_ident == cmd.header.request_identifier as u128
                &&& b.header.read_ident == m.state.read_ident + 1
                &&& b.header.sector_idx == cmd.header.sector_idx
            }
            &&& a.store == Some(n.state)
            &&& a.send is None
            &&& a.write_sector is None
            &&& a.complete is None
            &&& n.readlist.len() == 0
            &&& n.acks.is_empty()
            &&& match cmd.content {
                ClientContentModel::Read => n.reading && n.readval is Some && n.readval.unwrap().0
                    == cmd.header.request_identifier,
                ClientContentModel::Write { data } => n.state.writing && n.state.writeval == Some(
                    (cmd.header, data),
                ),
            }
        }),
{
}

/// The answer to READ_PROC is a VALUE to the process that asked, about the
/// same sector and under the same round identifier and round number, carrying
/// the local sector with its timestamp and write rank; the answer to
/// WRITE_PROC is an ACK to the process that asked, likewise about the same
/// sector and round. Neither changes the register. A WRITE_PROC broadcast on
/// a VALUE is about the sector and round identifier of that VALUE.
pub proof fn lemma_answers_keep_sector_and_round(
    m: RegisterModel,
    cmd: SystemCommandModel,
    local: Option<(Option<Seq<u8>>, u64, u8)>,
)
    requires
        local_sector_fits(cmd.content, local),
    ensures
        ({
            let (n, a) = m.after_system(cmd, local);
            let h = cmd.header;
            match cmd.content {
                SystemContentModel::ReadProc => {
                    &&& n == m
                    &&& a.send matches Some(x) && {
                        &&& x.1 == h.process_identifier as usize
                        &&& x.0.header.process_identifier == m.self_ident
                        &&& x.0.header.msg_ident == h.msg_ident
                        &&& x.0.header.read_ident == h.read_ident
                        &&& x.0.header.sector_idx == h.sector_idx
                        &&& x.0.content == SystemContentModel::Value {
                            timestamp: local.unwrap().1,
                            write_rank: local.unwrap().2,
                            sector_data: local.unwrap().0.unwrap(),
                        }
                    }
                    &&& a.broadcast is None && a.store is None && a.write_sector is None && a.complete is None
                },
                SystemContentModel::WriteProc { .. } => {
                    &&& n == m
                    &&& a.send matches Some(x) && {
                        &&& x.1 == h.process_identifier as usize
                        &&& x.0.header.process_identifier == m.self_ident
                        &&& x.0.header.msg_ident == h.msg_ident
                        &&& x.0.header.read_ident == h.read_ident
                        &&& x.0.header.sector_idx == h.sector_idx
                        &&& x.0.content is Ack
                    }
                    &&& a.broadcast is None && a.store is None && a.complete is None
                    &&& a.write_sector matches Some(w) ==> w.0 == h.sector_idx
                },
                _ => {
                    &&& a.send is None
                    &&& a.write_sector is None
                    &&& a.broadcast matches Some(b) ==> {
                        &&& b.content is WriteProc
                        &&& b.header.process_identifier == m.self_ident
                        &&& b.header.msg_ident == h.msg_ident
                        &&& b.header.sector_idx == h.sector_idx
                        &&& b.header.read_ident == n.state.read_ident
                    }
                },
            }
        }),
{
}

} // verus!
