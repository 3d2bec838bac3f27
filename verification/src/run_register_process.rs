//! Decisions a process takes on the bytes that arrive on a connection: finding
//! the start of a message, knowing how long it is, and what to do with it once
//! its tag is checked.
use vstd::prelude::*;

use crate::auth::{hmac_sha256, tag_is_valid, HMAC_TAG_SIZE};
use crate::domain::{
    magic_number, ClientRegisterCommand, RegisterCommand, RegisterCommandModel, StatusCode,
    SystemContentModel, SystemRegisterCommand, SECTOR_VEC_SIZE,
};
use crate::transfer::{
    carries_whole_sectors, client_msg_type, deserialize_register_command, spec_client_body,
    spec_deserialize, spec_deserialize_client, spec_serialize, spec_stamped_sector, spec_system_body,
    system_msg_type, ACK, READ, READ_PROC, VALUE, WRITE, WRITE_PROC,
};

verus! {

// ---------------------------------------------------------------------------
// Message lengths
// ---------------------------------------------------------------------------

/// Length of a message of type `msg_type` without its tag, magic number
/// included; 0 for a type that names no message.
pub open spec fn spec_message_length(msg_type: u8) -> usize {
    if msg_type == READ {
        24
    } else if msg_type == WRITE {
        (24 + SECTOR_VEC_SIZE) as usize
    } else if msg_type == READ_PROC || msg_type == ACK {
        40
    } else if msg_type == VALUE || msg_type == WRITE_PROC {
        (40 + 16 + SECTOR_VEC_SIZE) as usize
    } else {
        0
    }
}

/// Length of a message of type `msg_type` without its tag, magic number
/// included; 0 for a type that names no message.
pub fn message_length(msg_type: u8) -> (len: usize)
    ensures
        len == spec_message_length(msg_type),
{
    if msg_type == READ {
        24
    } else if msg_type == WRITE {
        24 + SECTOR_VEC_SIZE
    } else if msg_type == READ_PROC || msg_type == ACK {
        40
    } else if msg_type == VALUE || msg_type == WRITE_PROC {
        40 + 16 + SECTOR_VEC_SIZE
    } else {
        0
    }
}

/// The message type byte of a command.
pub open spec fn command_msg_type(m: RegisterCommandModel) -> u8 {
    match m {
        RegisterCommandModel::Client(c) => client_msg_type(c.content),
        RegisterCommandModel::System(s) => system_msg_type(s.content),
    }
}

/// A command that carries whole sectors is as long on the wire as its
/// message type says, and its type byte is the eighth byte.
pub proof fn lemma_message_length_of_command(m: RegisterCommandModel)
    requires
        carries_whole_sectors(m),
    ensures
        spec_serialize(m).len() == spec_message_length(command_msg_type(m)),
        spec_serialize(m)[7] == command_msg_type(m),
{
    match m {
        RegisterCommandModel::Client(c) => {
            assert(spec_serialize(m) == magic_number() + spec_client_body(c));
        },
        RegisterCommandModel::System(s) => {
            assert(spec_serialize(m) == magic_number() + spec_system_body(s));
            match s.content {
                SystemContentModel::Value { timestamp, write_rank, sector_data } => {
                    assert(spec_stamped_sector(timestamp, write_rank, sector_data).len() == 16 + SECTOR_VEC_SIZE);
                },
                SystemContentModel::WriteProc { timestamp, write_rank, data_to_write } => {
                    assert(spec_stamped_sector(timestamp, write_rank, data_to_write).len() == 16
                        + SECTOR_VEC_SIZE);
                },
                _ => {},
            }
        },
    }
}

/// Bytes of the length that their type byte announces always hold a command.
pub proof fn lemma_known_frames_deserialize(frame: Seq<u8>)
    requires
        frame.len() >= 8,
        spec_message_length(frame[7]) > 0,
        frame.len() >= spec_message_length(frame[7]),
    ensures
        spec_deserialize(frame) is Ok,
{
    let t = frame[7];
    let rest = frame.subrange(8, frame.len() as int);
    if t == READ || t == WRITE {
        assert(spec_deserialize_client(rest, t) is Some);
    } else {
        assert(spec_deserialize_client(rest, t) is None);
    }
}

// ---------------------------------------------------------------------------
// Finding the magic number
// ---------------------------------------------------------------------------

/// The bytes end with the magic number.
pub open spec fn ends_with_magic(h: Seq<u8>) -> bool {
    h.len() >= 4 && h.subrange(h.len() - 4, h.len() as int) == magic_number()
}

/// Reads a stream byte by byte until the last four bytes read are the magic
/// number.
pub struct MagicNumberScanner {
    b1: u8,
    b2: u8,
    b3: u8,
    seen: u8,
    history: Ghost<Seq<u8>>,
}

impl View for MagicNumberScanner {
    type V = Seq<u8>;

    /// The bytes read so far.
    closed spec fn view(&self) -> Seq<u8> {
        self.history@
    }
}

impl MagicNumberScanner {
    pub closed spec fn wf(&self) -> bool {
        let h = self.history@;
        &&& self.seen as int == if h.len() < 3 { h.len() as int } else { 3 }
        &&& self.seen >= 1 ==> self.b3 == h[h.len() - 1]
        &&& self.seen >= 2 ==> self.b2 == h[h.len() - 2]
        &&& self.seen >= 3 ==> self.b1 == h[h.len() - 3]
    }

    /// A scanner that has read nothing.
    pub fn new() -> (s: Self)
        ensures
            s.wf(),
            s@ == Seq::<u8>::empty(),
    {
        MagicNumberScanner { b1: 0, b2: 0, b3: 0, seen: 0, history: Ghost(Seq::empty()) }
    }

    /// Reads one more byte; true when the bytes read now end with the magic number.
    pub fn push(&mut self, byte: u8) -> (found: bool)
        requires
            old(self).wf(),
        ensures
            final(self).wf(),
            final(self)@ == old(self)@.push(byte),
            found == ends_with_magic(final(self)@),
    {
        let ghost h = self.history@.push(byte);
        let found = self.seen == 3 && self.b1 == 0x61 && self.b2 == 0x74 && self.b3 == 0x64 && byte == 0x64;
        proof {
            if h.len() >= 4 {
                let tail = h.subrange(h.len() - 4, h.len() as int);
                assert(tail[0] == h[h.len() - 4] && tail[1] == h[h.len() - 3] && tail[2] == h[h.len() - 2]
                    && tail[3] == h[h.len() - 1]);
                if found {
                    assert(tail =~= magic_number());
                } else if tail == magic_number() {
                    assert(tail[0] == 0x61 && tail[1] == 0x74 && tail[2] == 0x64 && tail[3] == 0x64);
                }
            }
        }
        self.b1 = self.b2;
        self.b2 = self.b3;
        self.b3 = byte;
        if self.seen < 3 {
            self.seen = self.seen + 1;
        }
        self.history = Ghost(h);
        found
    }
}

// ---------------------------------------------------------------------------
// Handling a message that arrived
// ---------------------------------------------------------------------------

/// What to do with a message that arrived on a connection.
pub enum ExternalCommand {
    /// A system command with a valid tag: hand it to the registers.
    System(SystemRegisterCommand),
    /// A system command with an invalid tag: drop it.
    Rejected,
    /// A client command with a valid tag and a sector in range: execute it.
    Client(ClientRegisterCommand),
    /// A client command to answer at once with an error status.
    Refused { status_code: StatusCode, request_identifier: u64 },
}

/// Commands and responses to clients are signed with the client key, commands
/// between processes with the system key.
pub open spec fn uses_client_key(msg_type: u8) -> bool {
    msg_type < READ_PROC
}

/// The message in `frame` carries a valid tag.
pub open spec fn frame_tag_valid(frame: Seq<u8>, hmac_system_key: Seq<u8>, hmac_client_key: Seq<u8>) -> bool {
    let msg_len = spec_message_length(frame[7]) as int;
    let key = if uses_client_key(frame[7]) {
        hmac_client_key
    } else {
        hmac_system_key
    };
    frame.subrange(msg_len, frame.len() as int) == hmac_sha256(key, frame.subrange(0, msg_len))
}

/// `frame` is a whole message of a known type followed by a tag.
pub open spec fn is_frame(frame: Seq<u8>) -> bool {
    &&& frame.len() >= 8
    &&& spec_message_length(frame[7]) > 0
    &&& frame.len() == spec_message_length(frame[7]) + HMAC_TAG_SIZE
}

/// What is done with the command `m` whose tag check gave `valid`.
pub open spec fn classified(res: ExternalCommand, m: RegisterCommandModel, valid: bool, max_sector: u64) -> bool {
    match m {
        RegisterCommandModel::System(s) => if valid {
            res matches ExternalCommand::System(c) && c@ == s
        } else {
            res is Rejected
        },
        RegisterCommandModel::Client(c) => if !valid {
            res == (ExternalCommand::Refused {
                status_code: StatusCode::AuthFailure,
                request_identifier: c.header.request_identifier,
            })
        } else if c.header.sector_idx >= max_sector {
            res == (ExternalCommand::Refused {
                status_code: StatusCode::InvalidSectorIndex,
                request_identifier: c.header.request_identifier,
            })
        } else {
            res matches ExternalCommand::Client(d) && d@ == c
        },
    }
}

/// What `decide_external_command` answers for `frame`.
pub open spec fn external_command_matches(
    res: ExternalCommand,
    frame: Seq<u8>,
    hmac_system_key: Seq<u8>,
    hmac_client_key: Seq<u8>,
    max_sector: u64,
) -> bool {
    match spec_deserialize(frame) {
        Ok(m) => classified(res, m, frame_tag_valid(frame, hmac_system_key, hmac_client_key), max_sector),
        Err(_) => false,
    }
}

/// What to do with a command that arrived, given whether its tag is valid: a
/// system command is kept only with a valid tag; a client command with an
/// invalid tag, or with a sector outside `0..max_sector`, is answered at once
/// with the matching error status.
pub fn classify_command(cmd: RegisterCommand, valid: bool, max_sector: u64) -> (res: ExternalCommand)
    ensures
        classified(res, cmd@, valid, max_sector),
{
    match cmd {
        RegisterCommand::System(cmd) => {
            if valid {
                ExternalCommand::System(cmd)
            } else {
                ExternalCommand::Rejected
            }
        },
        RegisterCommand::Client(cmd) => {
            if !valid {
                ExternalCommand::Refused {
                    status_code: StatusCode::AuthFailure,
                    request_identifier: cmd.header.request_identifier,
                }
            } else if cmd.header.sector_idx >= max_sector {
                ExternalCommand::Refused {
                    status_code: StatusCode::InvalidSectorIndex,
                    request_identifier: cmd.header.request_identifier,
                }
            } else {
                ExternalCommand::Client(cmd)
            }
        },
    }
}

/// Decides what to do with `frame`: a message of a known type (magic number
/// included) followed by its tag.
pub fn decide_external_command(
    frame: &[u8],
    hmac_system_key: &[u8],
    hmac_client_key: &[u8],
    max_sector: u64,
) -> (res: ExternalCommand)
    requires
        is_frame(frame@),
    ensures
        external_command_matches(res, frame@, hmac_system_key@, hmac_client_key@, max_sector),
{
    let msg_type = frame[7];
    let msg_len = message_length(msg_type);
    let key = if msg_type < READ_PROC {
        hmac_client_key
    } else {
        hmac_system_key
    };
    let data = &frame[0..msg_len];
    let tag = &frame[msg_len..frame.len()];
    let valid = tag_is_valid(key, data, tag);
    proof {
        lemma_known_frames_deserialize(frame@);
    }
    match deserialize_register_command(frame) {
        Ok(cmd) => classify_command(cmd, valid, max_sector),
        Err(_) => {
            proof {
                assert(false);
            }
            ExternalCommand::Rejected
        },
    }
}


// ---------------------------------------------------------------------------
// Laws
// ---------------------------------------------------------------------------

/// A command that arrives with the right tag (a client command under the
/// client key, a command between processes under the system key, reads and
/// writes alike) is taken as it was sent: a command between processes is
/// handed on, a client command is executed when its sector lies in
/// `0..max_sector` and refused with `InvalidSectorIndex` otherwise. Such
/// bytes always form a frame that `decide_external_command` accepts.
pub proof fn lemma_signed_commands_are_accepted(
    m: RegisterCommandModel,
    hmac_system_key: Seq<u8>,
    hmac_client_key: Seq<u8>,
    max_sector: u64,
    res: ExternalCommand,
)
    requires
        carries_whole_sectors(m),
    ensures
        ({
            let key = match m {
                RegisterCommandModel::Client(_) => hmac_client_key,
                RegisterCommandModel::System(_) => hmac_system_key,
            };
            let data = spec_serialize(m);
            let frame = data + hmac_sha256(key, data);
            &&& hmac_sha256(key, data).len() == HMAC_TAG_SIZE ==> is_frame(frame)
            &&& external_command_matches(res, frame, hmac_system_key, hmac_client_key, max_sector) ==> match m {
                RegisterCommandModel::System(s) => res matches ExternalCommand::System(c) && c@ == s,
                RegisterCommandModel::Client(c) => if c.header.sector_idx < max_sector {
                    res matches ExternalCommand::Client(d) && d@ == c
                } else {
                    res == (ExternalCommand::Refused {
                        status_code: StatusCode::InvalidSectorIndex,
                        request_identifier: c.header.request_identifier,
                    })
                },
            }
        }),
{
    let key = match m {
        RegisterCommandModel::Client(_) => hmac_client_key,
        RegisterCommandModel::System(_) => hmac_system_key,
    };
    let data = spec_serialize(m);
    let tag = hmac_sha256(key, data);
    let frame = data + tag;
    lemma_frame_of_command(m, tag);
    assert(frame.subrange(0, data.len() as int) =~= data);
    assert(frame.subrange(data.len() as int, frame.len() as int) =~= tag);
}

/// A client command whose tag is not its tag under the client key is refused
/// with `AuthFailure`, whatever its sector; a command between processes
/// whose tag is not its tag under the system key is dropped.
pub proof fn lemma_badly_signed_commands_are_refused(
    m: RegisterCommandModel,
    tag: Seq<u8>,
    hmac_system_key: Seq<u8>,
    hmac_client_key: Seq<u8>,
    max_sector: u64,
    res: ExternalCommand,
)
    requires
        carries_whole_sectors(m),
        tag != hmac_sha256(
            match m {
                RegisterCommandModel::Client(_) => hmac_client_key,
                RegisterCommandModel::System(_) => hmac_system_key,
            },
            spec_serialize(m),
        ),
        external_command_matches(res, spec_serialize(m) + tag, hmac_system_key, hmac_client_key, max_sector),
    ensures
        match m {
            RegisterCommandModel::System(_) => res is Rejected,
            RegisterCommandModel::Client(c) => res == (ExternalCommand::Refused {
                status_code: StatusCode::AuthFailure,
                request_identifier: c.header.request_identifier,
            }),
        },
{
    let data = spec_serialize(m);
    let frame = data + tag;
    lemma_frame_of_command(m, tag);
    assert(frame.subrange(0, data.len() as int) =~= data);
    assert(frame.subrange(data.len() as int, frame.len() as int) =~= tag);
}

/// The bytes of a command followed by a tag: they decode to the command,
/// the command's type byte gives its length, and that type is a client type
/// exactly for client commands.
proof fn lemma_frame_of_command(m: RegisterCommandModel, tag: Seq<u8>)
    requires
        carries_whole_sectors(m),
    ensures
        spec_deserialize(spec_serialize(m) + tag) == Ok::<RegisterCommandModel, crate::transfer::DeserializeError>(m),
        (spec_serialize(m) + tag)[7] == command_msg_type(m),
        spec_message_length(command_msg_type(m)) == spec_serialize(m).len(),
        uses_client_key(command_msg_type(m)) <==> m is Client,
{
    crate::transfer::lemma_deserialize_serialize(m, tag);
    lemma_message_length_of_command(m);
}

/// A client command with a valid tag is executed exactly when its sector lies
/// in `0..max_sector`, and refused with `InvalidSectorIndex` otherwise; with
/// an invalid tag it is refused with `AuthFailure`. A command between
/// processes is handed on exactly when its tag is valid.
pub proof fn lemma_classification(m: RegisterCommandModel, valid: bool, max_sector: u64, res: ExternalCommand)
    requires
        classified(res, m, valid, max_sector),
    ensures
        match m {
            RegisterCommandModel::System(s) => (res is System <==> valid) && (res is Rejected <==> !valid)
                && (valid ==> res->System_0@ == s),
            RegisterCommandModel::Client(c) => {
                &&& res is Client <==> (valid && c.header.sector_idx < max_sector)
                &&& res is Client ==> res->Client_0@ == c
                &&& !valid ==> res == (ExternalCommand::Refused {
                    status_code: StatusCode::AuthFailure,
                    request_identifier: c.header.request_identifier,
                })
                &&& valid && max_sector <= c.header.sector_idx ==> res == (ExternalCommand::Refused {
                    status_code: StatusCode::InvalidSectorIndex,
                    request_identifier: c.header.request_identifier,
                })
            },
        },
{
}

} // verus!
