//! Decisions of the register client: where a message goes, which connections
//! to (re)open, and which commands to replay once a connection is back.
use vstd::prelude::*;

use crate::domain::{MsgIdent, SystemCommandModel, SystemRegisterCommand};
use std::collections::HashMap;
use vstd::std_specs::iter::IteratorSpec;

verus! {

/// Where a message for process `target` goes.
#[derive(Debug, Clone, Copy, PartialEq, Eq)]
pub enum SendRoute {
    /// To this process itself, without the network.
    ToSelf,
    /// Over the connection with this index (the target's rank minus one).
    ToPeer(usize),
}

/// Where a message from process `self_ident` to process `target` goes.
pub fn route_send(self_ident: u8, target: usize) -> (r: SendRoute)
    requires
        target >= 1 || target == self_ident as usize,
    ensures
        r == if target == self_ident as usize {
            SendRoute::ToSelf
        } else {
            SendRoute::ToPeer((target - 1) as usize)
        },
{
    if target == self_ident as usize {
        SendRoute::ToSelf
    } else {
        SendRoute::ToPeer(target - 1)
    }
}

/// Whether process `self_ident` keeps a connection with the index `index`:
/// every index but its own (its rank minus one, compared as a byte).
pub fn needs_connection(self_ident: u8, index: usize) -> (b: bool)
    requires
        self_ident >= 1,
    ensures
        b == (index as u8 != (self_ident - 1) as u8),
{
    index as u8 != self_ident - 1
}

// ---------------------------------------------------------------------------
// Pending commands
// ---------------------------------------------------------------------------

/// The latest command of each round that could not be delivered, to be
/// replayed when a connection opens again, by round identifier.
pub struct PendingCommands {
    pending_cmds: HashMap<MsgIdent, SystemRegisterCommand>,
}

impl View for PendingCommands {
    type V = Map<MsgIdent, SystemCommandModel>;

    closed spec fn view(&self) -> Map<MsgIdent, SystemCommandModel> {
        self.pending_cmds@.map_values(|c: SystemRegisterCommand| c@)
    }
}

impl PendingCommands {
    /// Each command is kept under its own round identifier.
    pub open spec fn inv(&self) -> bool {
        forall|m: MsgIdent| #[trigger] self@.contains_key(m) ==> self@[m].header.msg_ident == m
    }

    pub fn new() -> (p: Self)
        ensures
            p@ == Map::<MsgIdent, SystemCommandModel>::empty(),
            p.inv(),
    {
        let p = PendingCommands { pending_cmds: HashMap::new() };
        assert(p@ =~= Map::<MsgIdent, SystemCommandModel>::empty());
        p
    }

    /// Keeps `cmd` as the pending command of its round, in place of an
    /// earlier one.
    pub fn add_pending_cmd(&mut self, cmd: SystemRegisterCommand)
        requires
            old(self).inv(),
        ensures
            final(self).inv(),
            final(self)@ == old(self)@.insert(cmd@.header.msg_ident, cmd@),
    {
        let m = cmd.header.msg_ident;
        self.pending_cmds.insert(m, cmd);
        assert(self@ =~= old(self)@.insert(m, cmd@));
    }

    /// Forgets the pending command of round `msg_ident`.
    pub fn remove_pending_cmd(&mut self, msg_ident: MsgIdent)
        requires
            old(self).inv(),
        ensures
            final(self).inv(),
            final(self)@ == old(self)@.remove(msg_ident),
    {
        self.pending_cmds.remove(&msg_ident);
        assert(self@ =~= old(self)@.remove(msg_ident));
    }

    /// The pending commands, one per round, to replay on a connection that
    /// opened again; they come in the order in which the map is walked.
    pub fn commands(&self) -> (cmds: Vec<SystemRegisterCommand>)
        requires
            self.inv(),
        ensures
            cmds@.len() == self@.dom().len(),
            forall|i: int|
                0 <= i < cmds@.len() ==> self@.contains_key((#[trigger] cmds@[i])@.header.msg_ident)
                    && self@[cmds@[i]@.header.msg_ident] == cmds@[i]@,
            forall|m: MsgIdent| #[trigger]
                self@.contains_key(m) ==> exists|i: int| 0 <= i < cmds@.len() && cmds@[i]@ == self@[m],
    {
        let ghost vals = vstd::std_specs::hash::spec_values_iter(&self.pending_cmds).remaining();
        let mut out: Vec<SystemRegisterCommand> = Vec::new();
        for c in it: self.pending_cmds.values()
            invariant
                it.seq() == vals,
                out@.len() == it.index(),
                forall|i: int| 0 <= i < it.index() ==> (#[trigger] out@[i])@ == (*vals[i])@,
        {
            out.push(c.duplicate());
        }
        assert(out@.len() == vals.len());
        assert(vals.len() == self.pending_cmds@.dom().len());
        assert(self@.dom() =~= self.pending_cmds@.dom());
        proof {
            assert(vals.unref().to_set() == self.pending_cmds@.values());
            assert forall|i: int| 0 <= i < out@.len() implies self@.contains_key(
                (#[trigger] out@[i])@.header.msg_ident,
            ) && self@[out@[i]@.header.msg_ident] == out@[i]@ by {
                let v = *vals[i];
                assert(vals.unref()[i] == v);
                assert(vals.unref().to_set().contains(v));
                let k = choose|k: MsgIdent| #[trigger] self.pending_cmds@.contains_key(k) && self.pending_cmds@[k] == v;
                assert(self@.contains_key(k));
                assert(self@[k] == v@);
            }
            assert forall|m: MsgIdent| #[trigger] self@.contains_key(m) implies exists|i: int|
                0 <= i < out@.len() && out@[i]@ == self@[m] by {
                let v = self.pending_cmds@[m];
                assert(self.pending_cmds@.values().contains(v));
                assert(vals.unref().to_set().contains(v));
                let i = choose|i: int| 0 <= i < vals.unref().len() && vals.unref()[i] == v;
                assert(out@[i]@ == v@);
            }
        }
        out
    }
}

/// After a command is kept, it is the pending command of its round, and the
/// pending commands of other rounds stay as they were; after a round is
/// forgotten, it has no pending command and the others stay.
pub proof fn lemma_pending_latest_per_round(
    p: Map<MsgIdent, SystemCommandModel>,
    c: SystemCommandModel,
    other: MsgIdent,
)
    requires
        other != c.header.msg_ident,
    ensures
        p.insert(c.header.msg_ident, c)[c.header.msg_ident] == c,
        p.insert(c.header.msg_ident, c).contains_key(other) == p.contains_key(other),
        p.insert(c.header.msg_ident, c)[other] == p[other],
        !p.remove(c.header.msg_ident).contains_key(c.header.msg_ident),
        p.remove(c.header.msg_ident).contains_key(other) == p.contains_key(other),
        p.remove(c.header.msg_ident)[other] == p[other],
{
}

// ---------------------------------------------------------------------------
// Connections to peers
// ---------------------------------------------------------------------------

/// What to do with a message for a peer.
#[derive(Debug, Clone, Copy, PartialEq, Eq)]
pub enum PeerSend {
    /// Write it on the open connection.
    Write,
    /// Keep it among the pending commands, to replay once a connection opens.
    Queue,
}

pub open spec fn spec_peer_send(connected: bool) -> PeerSend {
    if connected {
        PeerSend::Write
    } else {
        PeerSend::Queue
    }
}

/// A message for a peer is written when the connection is open, and queued
/// otherwise.
pub fn peer_send(connected: bool) -> (d: PeerSend)
    ensures
        d == spec_peer_send(connected),
{
    if connected {
        PeerSend::Write
    } else {
        PeerSend::Queue
    }
}

/// After writing a message to a peer: whether the connection is kept, and
/// whether the message is queued for replay. A failed write drops the
/// connection, which is reopened later, and queues the message.
pub fn after_peer_write(written: bool) -> (r: (bool, bool))
    ensures
        r == (written, !written),
{
    (written, !written)
}

/// A reopened connection is used only when every pending command could be
/// replayed on it.
pub fn reopened_connection_usable(replay_failures: usize) -> (b: bool)
    ensures
        b == (replay_failures == 0),
{
    replay_failures == 0
}

/// A message for a peer that was not written on an open connection is
/// queued for replay, and one that was is not.
pub proof fn lemma_undelivered_messages_are_queued(connected: bool, written: bool)
    ensures
        (match spec_peer_send(connected) {
            PeerSend::Queue => true,
            PeerSend::Write => !written,
        }) <==> !(connected && written),
{
}

} // verus!
