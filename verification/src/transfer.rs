//! The wire format of commands and responses.
//!
//! A command is the magic number, three bytes of which the third is the
//! sender's rank for system commands, the message type, then big-endian
//! header fields and, for commands that carry one, a whole sector.
use vstd::prelude::*;

use crate::bytes::{
    append_bytes, lemma_u128_be_roundtrip, lemma_u64_be_roundtrip, push_u128_be, push_u64_be,
    read_u128_be, read_u64_be, u128_be, u128_from_be, u64_be, u64_from_be,
};
use crate::domain::{
    magic_number, ClientCommandHeader, ClientCommandModel, ClientContentModel, ClientRegisterCommand,
    ClientRegisterCommandContent, OperationComplete, OperationReturn, OperationReturnModel,
    OperationCompleteModel, RegisterCommand, RegisterCommandModel, SectorVec, StatusCode, SystemCommandHeader,
    SystemCommandModel, SystemContentModel, SystemRegisterCommand, SystemRegisterCommandContent,
    MAGIC_NUMBER, SECTOR_VEC_SIZE,
};

verus! {

/// Message type of a client read.
pub const READ: u8 = 0x01;

/// Message type of a client write.
pub const WRITE: u8 = 0x02;

/// Message type of READ_PROC.
pub const READ_PROC: u8 = 0x03;

/// Message type of VALUE.
pub const VALUE: u8 = 0x04;

/// Message type of WRITE_PROC.
pub const WRITE_PROC: u8 = 0x05;

/// Message type of ACK.
pub const ACK: u8 = 0x06;

/// Why a sequence of bytes is not a command.
#[derive(Debug, Clone, Copy, PartialEq, Eq)]
pub enum DeserializeError {
    /// The bytes end before the command does.
    UnexpectedEnd,
    /// The message type byte names no command.
    UnknownMessageType { msg_type: u8 },
}

// ---------------------------------------------------------------------------
// Specification of the format
// ---------------------------------------------------------------------------

pub open spec fn client_msg_type(c: ClientContentModel) -> u8 {
    match c {
        ClientContentModel::Read => READ,
        ClientContentModel::Write { .. } => WRITE,
    }
}

pub open spec fn system_msg_type(c: SystemContentModel) -> u8 {
    match c {
        SystemContentModel::ReadProc => READ_PROC,
        SystemContentModel::Value { .. } => VALUE,
        SystemContentModel::WriteProc { .. } => WRITE_PROC,
        SystemContentModel::Ack => ACK,
    }
}

/// The bytes of a client command that follow the magic number.
pub open spec fn spec_client_body(m: ClientCommandModel) -> Seq<u8> {
    seq![0u8, 0u8, 0u8, client_msg_type(m.content)] + u64_be(m.header.request_identifier) + u64_be(
        m.header.sector_idx,
    ) + match m.content {
        ClientContentModel::Read => Seq::<u8>::empty(),
        ClientContentModel::Write { data } => data,
    }
}

/// Timestamp, seven bytes of padding, write rank and sector.
pub open spec fn spec_stamped_sector(timestamp: u64, write_rank: u8, data: Seq<u8>) -> Seq<u8> {
    u64_be(timestamp) + Seq::new(7, |i: int| 0u8) + seq![write_rank] + data
}

/// The bytes of a system command that follow the magic number.
pub open spec fn spec_system_body(m: SystemCommandModel) -> Seq<u8> {
    seq![0u8, 0u8, m.header.process_identifier, system_msg_type(m.content)] + u128_be(
        m.header.msg_ident,
    ) + u64_be(m.header.read_ident) + u64_be(m.header.sector_idx) + match m.content {
        SystemContentModel::Value { timestamp, write_rank, sector_data } => spec_stamped_sector(
            timestamp,
            write_rank,
            sector_data,
        ),
        SystemContentModel::WriteProc { timestamp, write_rank, data_to_write } =>
            spec_stamped_sector(timestamp, write_rank, data_to_write),
        _ => Seq::<u8>::empty(),
    }
}

/// The bytes of a command on the wire.
pub open spec fn spec_serialize(m: RegisterCommandModel) -> Seq<u8> {
    magic_number() + match m {
        RegisterCommandModel::Client(c) => spec_client_body(c),
        RegisterCommandModel::System(s) => spec_system_body(s),
    }
}

/// The client command that `data` starts with, for a message of type `msg_type`;
/// `None` when `msg_type` is not a client message type.
pub open spec fn spec_deserialize_client(data: Seq<u8>, msg_type: u8) -> Option<
    Result<RegisterCommandModel, DeserializeError>,
> {
    if msg_type != READ && msg_type != WRITE {
        None
    } else if data.len() < 16 {
        Some(Err(DeserializeError::UnexpectedEnd))
    } else {
        let header = ClientCommandHeader {
            request_identifier: u64_from_be(data.subrange(0, 8)),
            sector_idx: u64_from_be(data.subrange(8, 16)),
        };
        if msg_type == READ {
            Some(
                Ok(
                    RegisterCommandModel::Client(
                        ClientCommandModel { header, content: ClientContentModel::Read },
                    ),
                ),
            )
        } else if data.len() < 16 + SECTOR_VEC_SIZE {
            Some(Err(DeserializeError::UnexpectedEnd))
        } else {
            Some(
                Ok(
                    RegisterCommandModel::Client(
                        ClientCommandModel {
                            header,
                            content: ClientContentModel::Write {
                                data: data.subrange(16, 16 + SECTOR_VEC_SIZE),
                            },
                        },
                    ),
                ),
            )
        }
    }
}

pub open spec fn is_system_msg_type(msg_type: u8) -> bool {
    msg_type == READ_PROC || msg_type == VALUE || msg_type == WRITE_PROC || msg_type == ACK
}

/// The system command that `data` starts with, sent by `process_identifier`,
/// for a message of type `msg_type`.
pub open spec fn spec_deserialize_system(data: Seq<u8>, process_identifier: u8, msg_type: u8) -> Result<
    RegisterCommandModel,
    DeserializeError,
> {
    if !is_system_msg_type(msg_type) {
        Err(DeserializeError::UnknownMessageType { msg_type })
    } else if data.len() < 32 {
        Err(DeserializeError::UnexpectedEnd)
    } else {
        let header = SystemCommandHeader {
            process_identifier,
            msg_ident: u128_from_be(data.subrange(0, 16)),
            read_ident: u64_from_be(data.subrange(16, 24)),
            sector_idx: u64_from_be(data.subrange(24, 32)),
        };
        if msg_type == READ_PROC {
            Ok(
                RegisterCommandModel::System(
                    SystemCommandModel { header, content: SystemContentModel::ReadProc },
                ),
            )
        } else if msg_type == ACK {
            Ok(RegisterCommandModel::System(SystemCommandModel { header, content: SystemContentModel::Ack }))
        } else if data.len() < 48 + SECTOR_VEC_SIZE {
            Err(DeserializeError::UnexpectedEnd)
        } else {
            let timestamp = u64_from_be(data.subrange(32, 40));
            let write_rank = data[47];
            let bytes = data.subrange(48, 48 + SECTOR_VEC_SIZE);
            if msg_type == VALUE {
                Ok(
                    RegisterCommandModel::System(
                        SystemCommandModel {
                            header,
                            content: SystemContentModel::Value {
                                timestamp,
                                write_rank,
                                sector_data: bytes,
                            },
                        },
                    ),
                )
            } else {
                Ok(
                    RegisterCommandModel::System(
                        SystemCommandModel {
                            header,
                            content: SystemContentModel::WriteProc {
                                timestamp,
                                write_rank,
                                data_to_write: bytes,
                            },
                        },
                    ),
                )
            }
        }
    }
}

/// The command that `data` starts with. The magic number and the padding
/// bytes are not checked; byte 6 is the sender's rank and byte 7 the type.
pub open spec fn spec_deserialize(data: Seq<u8>) -> Result<RegisterCommandModel, DeserializeError> {
    if data.len() < 8 {
        Err(DeserializeError::UnexpectedEnd)
    } else {
        let rest = data.subrange(8, data.len() as int);
        let msg_type = data[7];
        match spec_deserialize_client(rest, msg_type) {
            Some(r) => r,
            None => spec_deserialize_system(rest, data[6], msg_type),
        }
    }
}

/// `res` is the executable form of `expected`.
pub open spec fn decodes_as(
    res: Result<RegisterCommand, DeserializeError>,
    expected: Result<RegisterCommandModel, DeserializeError>,
) -> bool {
    match (res, expected) {
        (Ok(c), Ok(m)) => c@ == m,
        (Err(e), Err(f)) => e == f,
        _ => false,
    }
}

/// Every sector that the command carries has `SECTOR_VEC_SIZE` bytes.
pub open spec fn carries_whole_sectors(m: RegisterCommandModel) -> bool {
    match m {
        RegisterCommandModel::Client(c) => match c.content {
            ClientContentModel::Write { data } => data.len() == SECTOR_VEC_SIZE,
            ClientContentModel::Read => true,
        },
        RegisterCommandModel::System(s) => match s.content {
            SystemContentModel::Value { sector_data, .. } => sector_data.len() == SECTOR_VEC_SIZE,
            SystemContentModel::WriteProc { data_to_write, .. } => data_to_write.len()
                == SECTOR_VEC_SIZE,
            _ => true,
        },
    }
}

/// The bytes of a response to a client: magic number, two zero bytes, the
/// status byte, the request's message type plus 0x40, the request identifier
/// and, for a successful read that returned data, the data. A failed command
/// has empty content.
pub open spec fn spec_response(op: OperationCompleteModel, msg_type: u8) -> Seq<u8> {
    magic_number() + seq![0u8, 0u8, op.status_code.spec_byte(), (0x40 + msg_type) as u8] + u64_be(
        op.request_identifier,
    ) + match op.op_return {
        OperationReturnModel::Read { read_data: Some(d) } => if op.status_code == StatusCode::Success {
            d
        } else {
            Seq::<u8>::empty()
        },
        _ => Seq::<u8>::empty(),
    }
}

// ---------------------------------------------------------------------------
// Executable encoders and decoders
// ---------------------------------------------------------------------------

/// Appends the bytes of `cmd` that follow the magic number to `writer`.
pub fn serialize_client_command(cmd: &ClientRegisterCommand, writer: &mut Vec<u8>)
    ensures
        final(writer)@ == old(writer)@ + spec_client_body(cmd@),
{
    let msg_type = match &cmd.content {
        ClientRegisterCommandContent::Read => READ,
        ClientRegisterCommandContent::Write { .. } => WRITE,
    };
    writer.push(0u8);
    writer.push(0u8);
    writer.push(0u8);
    writer.push(msg_type);
    push_u64_be(writer, cmd.header.request_identifier);
    push_u64_be(writer, cmd.header.sector_idx);
    if let ClientRegisterCommandContent::Write { data } = &cmd.content {
        append_bytes(writer, data.0.as_slice());
    }
    assert(final(writer)@ =~= old(writer)@ + spec_client_body(cmd@));
}

/// Appends timestamp, padding, write rank and sector to `writer`.
fn serialize_stamped_sector(timestamp: u64, write_rank: u8, data: &SectorVec, writer: &mut Vec<u8>)
    ensures
        final(writer)@ == old(writer)@ + spec_stamped_sector(timestamp, write_rank, data@),
{
    push_u64_be(writer, timestamp);
    let mut i: usize = 0;
    while i < 7
        invariant
            i <= 7,
            writer@ == old(writer)@ + u64_be(timestamp) + Seq::new(i as nat, |k: int| 0u8),
        decreases 7 - i,
    {
        writer.push(0u8);
        i = i + 1;
        assert(writer@ =~= old(writer)@ + u64_be(timestamp) + Seq::new(i as nat, |k: int| 0u8));
    }
    writer.push(write_rank);
    append_bytes(writer, data.0.as_slice());
    assert(final(writer)@ =~= old(writer)@ + spec_stamped_sector(timestamp, write_rank, data@));
}

/// Appends the bytes of `cmd` that follow the magic number to `writer`.
pub fn serialize_system_command(cmd: &SystemRegisterCommand, writer: &mut Vec<u8>)
    ensures
        final(writer)@ == old(writer)@ + spec_system_body(cmd@),
{
    let msg_type = match &cmd.content {
        SystemRegisterCommandContent::ReadProc => READ_PROC,
        SystemRegisterCommandContent::Value { .. } => VALUE,
        SystemRegisterCommandContent::WriteProc { .. } => WRITE_PROC,
        SystemRegisterCommandContent::Ack => ACK,
    };
    writer.push(0u8);
    writer.push(0u8);
    writer.push(cmd.header.process_identifier);
    writer.push(msg_type);
    push_u128_be(writer, cmd.header.msg_ident);
    push_u64_be(writer, cmd.header.read_ident);
    push_u64_be(writer, cmd.header.sector_idx);
    let ghost fixed = writer@;
    match &cmd.content {
        SystemRegisterCommandContent::Value { timestamp, write_rank, sector_data } => {
            serialize_stamped_sector(*timestamp, *write_rank, sector_data, writer);
        },
        SystemRegisterCommandContent::WriteProc { timestamp, write_rank, data_to_write } => {
            serialize_stamped_sector(*timestamp, *write_rank, data_to_write, writer);
        },
        _ => {},
    }
    assert(final(writer)@ =~= old(writer)@ + spec_system_body(cmd@));
}

/// Appends the bytes of `cmd` on the wire to `writer`.
pub fn serialize_register_command(cmd: &RegisterCommand, writer: &mut Vec<u8>)
    ensures
        final(writer)@ == old(writer)@ + spec_serialize(cmd@),
{
    let ghost start = writer@;
    let magic = MAGIC_NUMBER;
    writer.push(magic[0]);
    writer.push(magic[1]);
    writer.push(magic[2]);
    writer.push(magic[3]);
    assert(writer@ =~= start + magic_number());
    match cmd {
        RegisterCommand::Client(client_cmd) => serialize_client_command(client_cmd, writer),
        RegisterCommand::System(system_cmd) => serialize_system_command(system_cmd, writer),
    }
    assert(final(writer)@ =~= start + spec_serialize(cmd@));
}

/// The sector of `SECTOR_VEC_SIZE` bytes that starts at `start` in `data`.
fn read_sector(data: &[u8], start: usize) -> (s: SectorVec)
    requires
        start + SECTOR_VEC_SIZE <= data.len(),
    ensures
        s@ == data@.subrange(start as int, start + SECTOR_VEC_SIZE),
{
    let mut v: Vec<u8> = Vec::with_capacity(SECTOR_VEC_SIZE);
    let mut i: usize = 0;
    while i < SECTOR_VEC_SIZE
        invariant
            i <= SECTOR_VEC_SIZE,
            start + SECTOR_VEC_SIZE <= data.len(),
            v@ == data@.subrange(start as int, start + i),
        decreases SECTOR_VEC_SIZE - i,
    {
        v.push(data[start + i]);
        i = i + 1;
        assert(v@ =~= data@.subrange(start as int, start + i));
    }
    SectorVec(v)
}

/// The client command that `data` starts with, for a message of type
/// `msg_type`; `None` when `msg_type` is not a client message type.
pub fn deserialize_client_command(data: &[u8], msg_type: u8) -> (res: Option<
    Result<RegisterCommand, DeserializeError>,
>)
    ensures
        match (res, spec_deserialize_client(data@, msg_type)) {
            (None, None) => true,
            (Some(r), Some(s)) => decodes_as(r, s),
            _ => false,
        },
{
    if msg_type != READ && msg_type != WRITE {
        return None;
    }
    if data.len() < 16 {
        return Some(Err(DeserializeError::UnexpectedEnd));
    }
    let request_identifier = read_u64_be(data, 0);
    let sector_idx = read_u64_be(data, 8);
    let header = ClientCommandHeader { request_identifier, sector_idx };
    if msg_type == READ {
        Some(
            Ok(
                RegisterCommand::Client(
                    ClientRegisterCommand { header, content: ClientRegisterCommandContent::Read },
                ),
            ),
        )
    } else {
        if data.len() < 16 + SECTOR_VEC_SIZE {
            return Some(Err(DeserializeError::UnexpectedEnd));
        }
        let content = read_sector(data, 16);
        Some(
            Ok(
                RegisterCommand::Client(
                    ClientRegisterCommand {
                        header,
                        content: ClientRegisterCommandContent::Write { data: content },
                    },
                ),
            ),
        )
    }
}

/// The system command that `data` starts with, sent by `process_identifier`,
/// for a message of type `msg_type`.
pub fn deserialize_system_command(data: &[u8], process_identifier: u8, msg_type: u8) -> (res: Result<
    RegisterCommand,
    DeserializeError,
>)
    ensures
        decodes_as(res, spec_deserialize_system(data@, process_identifier, msg_type)),
{
    if msg_type != READ_PROC && msg_type != VALUE && msg_type != WRITE_PROC && msg_type != ACK {
        return Err(DeserializeError::UnknownMessageType { msg_type });
    }
    if data.len() < 32 {
        return Err(DeserializeError::UnexpectedEnd);
    }
    let msg_ident = read_u128_be(data, 0);
    let read_ident = read_u64_be(data, 16);
    let sector_idx = read_u64_be(data, 24);
    let header = SystemCommandHeader { process_identifier, msg_ident, read_ident, sector_idx };
    if msg_type == READ_PROC {
        return Ok(
            RegisterCommand::System(
                SystemRegisterCommand { header, content: SystemRegisterCommandContent::ReadProc },
            ),
        );
    }
    if msg_type == ACK {
        return Ok(
            RegisterCommand::System(
                SystemRegisterCommand { header, content: SystemRegisterCommandContent::Ack },
            ),
        );
    }
    if data.len() < 48 + SECTOR_VEC_SIZE {
        return Err(DeserializeError::UnexpectedEnd);
    }
    let timestamp = read_u64_be(data, 32);
    let write_rank = data[47];
    let bytes = read_sector(data, 48);
    if msg_type == VALUE {
        Ok(
            RegisterCommand::System(
                SystemRegisterCommand {
                    header,
                    content: SystemRegisterCommandContent::Value {
                        timestamp,
                        write_rank,
                        sector_data: bytes,
                    },
                },
            ),
        )
    } else {
        Ok(
            RegisterCommand::System(
                SystemRegisterCommand {
                    header,
                    content: SystemRegisterCommandContent::WriteProc {
                        timestamp,
                        write_rank,
                        data_to_write: bytes,
                    },
                },
            ),
        )
    }
}

/// The command that `data` starts with.
pub fn deserialize_register_command(data: &[u8]) -> (res: Result<RegisterCommand, DeserializeError>)
    ensures
        decodes_as(res, spec_deserialize(data@)),
{
    if data.len() < 8 {
        return Err(DeserializeError::UnexpectedEnd);
    }
    let process_identifier = data[6];
    let msg_type = data[7];
    let rest = &data[8..data.len()];
    assert(rest@ == data@.subrange(8, data@.len() as int));
    match deserialize_client_command(rest, msg_type) {
        Some(r) => r,
        None => deserialize_system_command(rest, process_identifier, msg_type),
    }
}

/// The bytes of the response to a client request of type `msg_type` that
/// completed as `op_complete`.
pub fn serialize_response(op_complete: &OperationComplete, msg_type: u8) -> (msg: Vec<u8>)
    requires
        msg_type <= 0xbf,
    ensures
        msg@ == spec_response(op_complete@, msg_type),
{
    let mut msg: Vec<u8> = Vec::new();
    let magic = MAGIC_NUMBER;
    msg.push(magic[0]);
    msg.push(magic[1]);
    msg.push(magic[2]);
    msg.push(magic[3]);
    msg.push(0u8);
    msg.push(0u8);
    msg.push(op_complete.status_code.as_byte());
    msg.push(0x40u8 + msg_type);
    push_u64_be(&mut msg, op_complete.request_identifier);
    if let OperationReturn::Read(read_return) = &op_complete.op_return {
        if let Some(data) = &read_return.read_data {
            if let StatusCode::Success = op_complete.status_code {
                append_bytes(&mut msg, data.0.as_slice());
            }
        }
    }
    assert(msg@ =~= spec_response(op_complete@, msg_type));
    msg
}

// ---------------------------------------------------------------------------
// Laws
// ---------------------------------------------------------------------------

/// What `serialize_client_command` writes is read back by
/// `deserialize_client_command` as the command: its fourth byte is the
/// message type, and the bytes after it (whatever follows) decode to `c`.
pub proof fn lemma_deserialize_client_fields(c: ClientCommandModel, rest: Seq<u8>)
    requires
        carries_whole_sectors(RegisterCommandModel::Client(c)),
    ensures
        spec_client_body(c)[3] == client_msg_type(c.content),
        spec_deserialize_client(spec_client_body(c).subrange(4, spec_client_body(c).len() as int) + rest, client_msg_type(c.content))
            == Some(Ok::<RegisterCommandModel, DeserializeError>(RegisterCommandModel::Client(c))),
{
    let body = spec_client_body(c);
    let tail = body.subrange(4, body.len() as int) + rest;
    let h = c.header;
    lemma_u64_be_roundtrip(h.request_identifier);
    lemma_u64_be_roundtrip(h.sector_idx);
    assert(tail.subrange(0, 8) =~= u64_be(h.request_identifier));
    assert(tail.subrange(8, 16) =~= u64_be(h.sector_idx));
    match c.content {
        ClientContentModel::Read => {},
        ClientContentModel::Write { data: d } => {
            assert(tail.subrange(16, 16 + SECTOR_VEC_SIZE) =~= d);
        },
    }
}

/// What `serialize_system_command` writes is read back by
/// `deserialize_system_command` as the command: its third byte is the sender's
/// rank, its fourth the message type, and the bytes after them (whatever
/// follows) decode to `s` when given that rank and type.
pub proof fn lemma_deserialize_system_fields(s: SystemCommandModel, rest: Seq<u8>)
    requires
        carries_whole_sectors(RegisterCommandModel::System(s)),
    ensures
        spec_system_body(s)[2] == s.header.process_identifier,
        spec_system_body(s)[3] == system_msg_type(s.content),
        spec_deserialize_system(
            spec_system_body(s).subrange(4, spec_system_body(s).len() as int) + rest,
            s.header.process_identifier,
            system_msg_type(s.content),
        ) == Ok::<RegisterCommandModel, DeserializeError>(RegisterCommandModel::System(s)),
{
    let body = spec_system_body(s);
    let tail = body.subrange(4, body.len() as int) + rest;
    let h = s.header;
    lemma_u128_be_roundtrip(h.msg_ident);
    lemma_u64_be_roundtrip(h.read_ident);
    lemma_u64_be_roundtrip(h.sector_idx);
    assert(tail.subrange(0, 16) =~= u128_be(h.msg_ident));
    assert(tail.subrange(16, 24) =~= u64_be(h.read_ident));
    assert(tail.subrange(24, 32) =~= u64_be(h.sector_idx));
    match s.content {
        SystemContentModel::Value { timestamp, write_rank, sector_data } => {
            lemma_u64_be_roundtrip(timestamp);
            assert(tail.subrange(32, 40) =~= u64_be(timestamp));
            assert(tail[47] == write_rank);
            assert(tail.subrange(48, 48 + SECTOR_VEC_SIZE) =~= sector_data);
        },
        SystemContentModel::WriteProc { timestamp, write_rank, data_to_write } => {
            lemma_u64_be_roundtrip(timestamp);
            assert(tail.subrange(32, 40) =~= u64_be(timestamp));
            assert(tail[47] == write_rank);
            assert(tail.subrange(48, 48 + SECTOR_VEC_SIZE) =~= data_to_write);
        },
        _ => {},
    }
}

/// Deserializing the bytes of a command gives the command back, whatever
/// bytes follow it, provided every sector it carries is a whole sector.
#[verifier::spinoff_prover]
#[verifier::rlimit(50)]
pub proof fn lemma_deserialize_serialize(m: RegisterCommandModel, rest: Seq<u8>)
    requires
        carries_whole_sectors(m),
    ensures
        spec_deserialize(spec_serialize(m) + rest) == Ok::<RegisterCommandModel, DeserializeError>(m),
{
    let data = spec_serialize(m) + rest;
    let tail = data.subrange(8, data.len() as int);
    match m {
        RegisterCommandModel::Client(c) => {
            let body = spec_client_body(c);
            lemma_deserialize_client_fields(c, rest);
            assert(tail =~= body.subrange(4, body.len() as int) + rest);
            assert(data[7] == client_msg_type(c.content));
        },
        RegisterCommandModel::System(s) => {
            let body = spec_system_body(s);
            lemma_deserialize_system_fields(s, rest);
            assert(tail =~= body.subrange(4, body.len() as int) + rest);
            assert(data[6] == s.header.process_identifier);
            assert(data[7] == system_msg_type(s.content));
            assert(spec_deserialize_client(tail, data[7]) is None);
        },
    }
}


/// The layout of a response, byte by byte: the magic number, two zero bytes,
/// the status (0 for success, 1 for an authentication failure, 2 for a sector
/// outside the device), the request's message type plus 0x40, the request
/// identifier big-endian, then the sector read by a successful read, and
/// nothing for any other response.
pub proof fn lemma_response_layout(op: OperationCompleteModel, msg_type: u8)
    requires
        msg_type <= 0xbf,
    ensures
        ({
            let r = spec_response(op, msg_type);
            let content = match op.op_return {
                OperationReturnModel::Read { read_data: Some(d) } => if op.status_code is Success {
                    d
                } else {
                    Seq::<u8>::empty()
                },
                _ => Seq::<u8>::empty(),
            };
            &&& r.len() == 16 + content.len()
            &&& r[0] == 0x61 && r[1] == 0x74 && r[2] == 0x64 && r[3] == 0x64
            &&& r[4] == 0 && r[5] == 0
            &&& r[6] == match op.status_code {
                StatusCode::Success => 0u8,
                StatusCode::AuthFailure => 1u8,
                StatusCode::InvalidSectorIndex => 2u8,
            }
            &&& r[7] == msg_type + 0x40
            &&& u64_from_be(r.subrange(8, 16)) == op.request_identifier
            &&& r.subrange(16, r.len() as int) == content
        }),
{
    let r = spec_response(op, msg_type);
    lemma_u64_be_roundtrip(op.request_identifier);
    assert(r.subrange(8, 16) =~= u64_be(op.request_identifier));
    let content = match op.op_return {
        OperationReturnModel::Read { read_data: Some(d) } => if op.status_code is Success {
            d
        } else {
            Seq::<u8>::empty()
        },
        _ => Seq::<u8>::empty(),
    };
    assert(r.subrange(16, r.len() as int) =~= content);
}


/// The layout of a command on the wire, byte by byte, as the README draws it:
/// the magic number; for a client command three zero bytes, the type (0x01
/// for READ, 0x02 for WRITE), the request number and the sector index
/// big-endian, then the sector of a WRITE; for a command between processes
/// two zero bytes, the sender's rank, the type (0x03 READ_PROC, 0x04 VALUE,
/// 0x05 WRITE_PROC, 0x06 ACK), the round identifier, the round number and the
/// sector index big-endian, then for VALUE and WRITE_PROC the timestamp
/// big-endian, seven zero bytes, the write rank and the sector.
pub proof fn lemma_command_layout(m: RegisterCommandModel)
    ensures
        ({
            let b = spec_serialize(m);
            &&& b[0] == 0x61 && b[1] == 0x74 && b[2] == 0x64 && b[3] == 0x64
            &&& b[4] == 0 && b[5] == 0
            &&& match m {
                RegisterCommandModel::Client(c) => {
                    &&& b[6] == 0
                    &&& b[7] == match c.content {
                        ClientContentModel::Read => 0x01u8,
                        ClientContentModel::Write { .. } => 0x02u8,
                    }
                    &&& u64_from_be(b.subrange(8, 16)) == c.header.request_identifier
                    &&& u64_from_be(b.subrange(16, 24)) == c.header.sector_idx
                    &&& b.subrange(24, b.len() as int) == match c.content {
                        ClientContentModel::Read => Seq::<u8>::empty(),
                        ClientContentModel::Write { data } => data,
                    }
                },
                RegisterCommandModel::System(s) => {
                    &&& b[6] == s.header.process_identifier
                    &&& b[7] == match s.content {
                        SystemContentModel::ReadProc => 0x03u8,
                        SystemContentModel::Value { .. } => 0x04u8,
                        SystemContentModel::WriteProc { .. } => 0x05u8,
                        SystemContentModel::Ack => 0x06u8,
                    }
                    &&& u128_from_be(b.subrange(8, 24)) == s.header.msg_ident
                    &&& u64_from_be(b.subrange(24, 32)) == s.header.read_ident
                    &&& u64_from_be(b.subrange(32, 40)) == s.header.sector_idx
                    &&& match s.content {
                        SystemContentModel::Value { timestamp, write_rank, sector_data } => {
                            &&& u64_from_be(b.subrange(40, 48)) == timestamp
                            &&& b.subrange(48, 55) == Seq::new(7, |i: int| 0u8)
                            &&& b[55] == write_rank
                            &&& b.subrange(56, b.len() as int) == sector_data
                        },
                        SystemContentModel::WriteProc { timestamp, write_rank, data_to_write } => {
                            &&& u64_from_be(b.subrange(40, 48)) == timestamp
                            &&& b.subrange(48, 55) == Seq::new(7, |i: int| 0u8)
                            &&& b[55] == write_rank
                            &&& b.subrange(56, b.len() as int) == data_to_write
                        },
                        _ => b.len() == 40,
                    }
                },
            }
        }),
{
    let b = spec_serialize(m);
    match m {
        RegisterCommandModel::Client(c) => {
            lemma_u64_be_roundtrip(c.header.request_identifier);
            lemma_u64_be_roundtrip(c.header.sector_idx);
            assert(b.subrange(8, 16) =~= u64_be(c.header.request_identifier));
            assert(b.subrange(16, 24) =~= u64_be(c.header.sector_idx));
            assert(b.subrange(24, b.len() as int) =~= match c.content {
                ClientContentModel::Read => Seq::<u8>::empty(),
                ClientContentModel::Write { data } => data,
            });
        },
        RegisterCommandModel::System(s) => {
            lemma_u128_be_roundtrip(s.header.msg_ident);
            lemma_u64_be_roundtrip(s.header.read_ident);
            lemma_u64_be_roundtrip(s.header.sector_idx);
            assert(b.subrange(8, 24) =~= u128_be(s.header.msg_ident));
            assert(b.subrange(24, 32) =~= u64_be(s.header.read_ident));
            assert(b.subrange(32, 40) =~= u64_be(s.header.sector_idx));
            match s.content {
                SystemContentModel::Value { timestamp, write_rank, sector_data } => {
                    lemma_u64_be_roundtrip(timestamp);
                    assert(b.subrange(40, 48) =~= u64_be(timestamp));
                    assert(b.subrange(48, 55) =~= Seq::new(7, |i: int| 0u8));
                    assert(b.subrange(56, b.len() as int) =~= sector_data);
                },
                SystemContentModel::WriteProc { timestamp, write_rank, data_to_write } => {
                    lemma_u64_be_roundtrip(timestamp);
                    assert(b.subrange(40, 48) =~= u64_be(timestamp));
                    assert(b.subrange(48, 55) =~= Seq::new(7, |i: int| 0u8));
                    assert(b.subrange(56, b.len() as int) =~= data_to_write);
                },
                _ => {},
            }
        },
    }
}

} // verus!
