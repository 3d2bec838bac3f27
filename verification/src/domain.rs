//! The values that clients, processes and registers exchange, together with
//! their mathematical models.
use vstd::prelude::*;

verus! {

/// Number of bytes in one sector of the block device.
pub const SECTOR_VEC_SIZE: usize = 4096;

/// Every message on the wire starts with these four bytes.
pub const MAGIC_NUMBER: [u8; 4] = [0x61, 0x74, 0x64, 0x64];

/// Index of a sector of the block device.
pub type SectorIdx = u64;

/// Identifier of one round of messages exchanged on behalf of a client request;
/// a 128-bit value sent big-endian on the wire.
pub type MsgIdent = u128;

/// The bytes of the magic number, as a sequence.
pub open spec fn magic_number() -> Seq<u8> {
    seq![0x61u8, 0x74u8, 0x64u8, 0x64u8]
}

/// The content of one sector.
#[derive(Debug, Clone, PartialEq, Eq)]
pub struct SectorVec(pub Vec<u8>);

impl View for SectorVec {
    type V = Seq<u8>;

    open spec fn view(&self) -> Seq<u8> {
        self.0@
    }
}

/// A sector that holds only zero bytes.
pub open spec fn zero_sector() -> Seq<u8> {
    Seq::new(SECTOR_VEC_SIZE as nat, |i: int| 0u8)
}

/// A never written sector holds 4096 zero bytes.
pub proof fn lemma_zero_sector()
    ensures
        zero_sector().len() == 4096,
        forall|i: int| 0 <= i < 4096 ==> #[trigger] zero_sector()[i] == 0,
{
}

/// Copies a byte vector.
pub fn copy_bytes(src: &[u8]) -> (out: Vec<u8>)
    ensures
        out@ == src@,
{
    let mut out: Vec<u8> = Vec::with_capacity(src.len());
    let mut i: usize = 0;
    while i < src.len()
        invariant
            i <= src@.len(),
            out@ == src@.subrange(0, i as int),
        decreases src@.len() - i,
    {
        out.push(src[i]);
        i = i + 1;
        assert(out@ =~= src@.subrange(0, i as int));
    }
    assert(out@ =~= src@);
    out
}

impl SectorVec {
    /// A sector of `SECTOR_VEC_SIZE` zero bytes: what a never written sector holds.
    pub fn new() -> (s: SectorVec)
        ensures
            s@ == zero_sector(),
    {
        let mut v: Vec<u8> = Vec::with_capacity(SECTOR_VEC_SIZE);
        let mut i: usize = 0;
        while i < SECTOR_VEC_SIZE
            invariant
                i <= SECTOR_VEC_SIZE,
                v@ == Seq::new(i as nat, |k: int| 0u8),
            decreases SECTOR_VEC_SIZE - i,
        {
            v.push(0u8);
            i = i + 1;
            assert(v@ =~= Seq::new(i as nat, |k: int| 0u8));
        }
        SectorVec(v)
    }

    /// A second sector with the same bytes.
    pub fn duplicate(&self) -> (s: SectorVec)
        ensures
            s@ == self@,
    {
        SectorVec(copy_bytes(self.0.as_slice()))
    }
}

/// Header of a command sent by a client.
#[derive(Debug, Clone, Copy, PartialEq, Eq, Structural)]
pub struct ClientCommandHeader {
    pub request_identifier: u64,
    pub sector_idx: SectorIdx,
}

/// What a client asks for.
#[derive(Debug, Clone, PartialEq, Eq)]
pub enum ClientRegisterCommandContent {
    Read,
    Write { data: SectorVec },
}

/// A command sent by a client.
#[derive(Debug, Clone, PartialEq, Eq)]
pub struct ClientRegisterCommand {
    pub header: ClientCommandHeader,
    pub content: ClientRegisterCommandContent,
}

/// Header of a command exchanged between processes of the system.
#[derive(Debug, Clone, Copy, PartialEq, Eq, Structural)]
pub struct SystemCommandHeader {
    /// Rank of the process that sent the command; ranks start at 1.
    pub process_identifier: u8,
    pub msg_ident: MsgIdent,
    pub read_ident: u64,
    pub sector_idx: SectorIdx,
}

impl SystemCommandHeader {
    pub fn new(process_identifier: u8, msg_ident: MsgIdent, read_ident: u64, sector_idx: SectorIdx) -> (h: Self)
        ensures
            h == (SystemCommandHeader { process_identifier, msg_ident, read_ident, sector_idx }),
    {
        SystemCommandHeader { process_identifier, msg_ident, read_ident, sector_idx }
    }
}

/// The messages of the (N, N) atomic register algorithm.
#[derive(Debug, Clone, PartialEq, Eq)]
pub enum SystemRegisterCommandContent {
    ReadProc,
    Value { timestamp: u64, write_rank: u8, sector_data: SectorVec },
    WriteProc { timestamp: u64, write_rank: u8, data_to_write: SectorVec },
    Ack,
}

impl SystemRegisterCommandContent {
    pub fn new_value(timestamp: u64, write_rank: u8, sector_data: SectorVec) -> (c: Self)
        ensures
            c@ == (SystemContentModel::Value { timestamp, write_rank, sector_data: sector_data@ }),
    {
        SystemRegisterCommandContent::Value { timestamp, write_rank, sector_data }
    }

    pub fn new_write_proc(timestamp: u64, write_rank: u8, data_to_write: SectorVec) -> (c: Self)
        ensures
            c@ == (SystemContentModel::WriteProc { timestamp, write_rank, data_to_write: data_to_write@ }),
    {
        SystemRegisterCommandContent::WriteProc { timestamp, write_rank, data_to_write }
    }
}

/// A command exchanged between processes of the system.
#[derive(Debug, Clone, PartialEq, Eq)]
pub struct SystemRegisterCommand {
    pub header: SystemCommandHeader,
    pub content: SystemRegisterCommandContent,
}

/// Any command that travels on the wire.
#[derive(Debug, Clone, PartialEq, Eq)]
pub enum RegisterCommand {
    Client(ClientRegisterCommand),
    System(SystemRegisterCommand),
}

/// Status of a completed client command, sent as one byte (`Success` is 0).
#[derive(Debug, Clone, Copy, PartialEq, Eq, Structural)]
pub enum StatusCode {
    /// The command completed successfully.
    Success,
    /// The HMAC tag of the command was invalid.
    AuthFailure,
    /// The sector index was outside `0..max_sector`.
    InvalidSectorIndex,
}

impl StatusCode {
    /// The byte that stands for this status in a response.
    pub open spec fn spec_byte(self) -> u8 {
        match self {
            StatusCode::Success => 0,
            StatusCode::AuthFailure => 1,
            StatusCode::InvalidSectorIndex => 2,
        }
    }

    pub fn as_byte(&self) -> (b: u8)
        ensures
            b == self.spec_byte(),
    {
        match self {
            StatusCode::Success => 0,
            StatusCode::AuthFailure => 1,
            StatusCode::InvalidSectorIndex => 2,
        }
    }
}

/// Data returned by a completed read.
#[derive(Debug, Clone, PartialEq, Eq)]
pub struct ReadReturn {
    pub read_data: Option<SectorVec>,
}

/// What a completed client command returns.
#[derive(Debug, Clone, PartialEq, Eq)]
pub enum OperationReturn {
    Read(ReadReturn),
    Write,
}

/// Reported to a client when its command has completed.
#[derive(Debug, Clone, PartialEq, Eq)]
pub struct OperationComplete {
    pub status_code: StatusCode,
    pub request_identifier: u64,
    pub op_return: OperationReturn,
}

// ---------------------------------------------------------------------------
// Models
// ---------------------------------------------------------------------------

/// Model of `ClientRegisterCommandContent`.
pub enum ClientContentModel {
    Read,
    Write { data: Seq<u8> },
}

/// Model of `ClientRegisterCommand`.
pub struct ClientCommandModel {
    pub header: ClientCommandHeader,
    pub content: ClientContentModel,
}

/// Model of `SystemRegisterCommandContent`.
pub enum SystemContentModel {
    ReadProc,
    Value { timestamp: u64, write_rank: u8, sector_data: Seq<u8> },
    WriteProc { timestamp: u64, write_rank: u8, data_to_write: Seq<u8> },
    Ack,
}

/// Model of `SystemRegisterCommand`.
pub struct SystemCommandModel {
    pub header: SystemCommandHeader,
    pub content: SystemContentModel,
}

/// Model of `RegisterCommand`.
pub enum RegisterCommandModel {
    Client(ClientCommandModel),
    System(SystemCommandModel),
}

/// Model of `OperationReturn`.
pub enum OperationReturnModel {
    Read { read_data: Option<Seq<u8>> },
    Write,
}

/// Model of `OperationComplete`.
pub struct OperationCompleteModel {
    pub status_code: StatusCode,
    pub request_identifier: u64,
    pub op_return: OperationReturnModel,
}

impl View for ClientRegisterCommandContent {
    type V = ClientContentModel;

    open spec fn view(&self) -> ClientContentModel {
        match self {
            ClientRegisterCommandContent::Read => ClientContentModel::Read,
            ClientRegisterCommandContent::Write { data } => ClientContentModel::Write { data: data@ },
        }
    }
}

impl View for ClientRegisterCommand {
    type V = ClientCommandModel;

    open spec fn view(&self) -> ClientCommandModel {
        ClientCommandModel { header: self.header, content: self.content@ }
    }
}

impl View for SystemRegisterCommandContent {
    type V = SystemContentModel;

    open spec fn view(&self) -> SystemContentModel {
        match self {
            SystemRegisterCommandContent::ReadProc => SystemContentModel::ReadProc,
            SystemRegisterCommandContent::Value { timestamp, write_rank, sector_data } =>
                SystemContentModel::Value {
                    timestamp: *timestamp,
                    write_rank: *write_rank,
                    sector_data: sector_data@,
                },
            SystemRegisterCommandContent::WriteProc { timestamp, write_rank, data_to_write } =>
                SystemContentModel::WriteProc {
                    timestamp: *timestamp,
                    write_rank: *write_rank,
                    data_to_write: data_to_write@,
                },
            SystemRegisterCommandContent::Ack => SystemContentModel::Ack,
        }
    }
}

impl View for SystemRegisterCommand {
    type V = SystemCommandModel;

    open spec fn view(&self) -> SystemCommandModel {
        SystemCommandModel { header: self.header, content: self.content@ }
    }
}

impl View for RegisterCommand {
    type V = RegisterCommandModel;

    open spec fn view(&self) -> RegisterCommandModel {
        match self {
            RegisterCommand::Client(c) => RegisterCommandModel::Client(c@),
            RegisterCommand::System(s) => RegisterCommandModel::System(s@),
        }
    }
}

impl View for OperationReturn {
    type V = OperationReturnModel;

    open spec fn view(&self) -> OperationReturnModel {
        match self {
            OperationReturn::Read(r) => OperationReturnModel::Read {
                read_data: match r.read_data {
                    Some(d) => Some(d@),
                    None => None,
                },
            },
            OperationReturn::Write => OperationReturnModel::Write,
        }
    }
}

impl View for OperationComplete {
    type V = OperationCompleteModel;

    open spec fn view(&self) -> OperationCompleteModel {
        OperationCompleteModel {
            status_code: self.status_code,
            request_identifier: self.request_identifier,
            op_return: self.op_return@,
        }
    }
}

impl SystemRegisterCommand {
    /// A second command with the same model.
    pub fn duplicate(&self) -> (c: SystemRegisterCommand)
        ensures
            c@ == self@,
    {
        let content = match &self.content {
            SystemRegisterCommandContent::ReadProc => SystemRegisterCommandContent::ReadProc,
            SystemRegisterCommandContent::Value { timestamp, write_rank, sector_data } =>
                SystemRegisterCommandContent::Value {
                    timestamp: *timestamp,
                    write_rank: *write_rank,
                    sector_data: sector_data.duplicate(),
                },
            SystemRegisterCommandContent::WriteProc { timestamp, write_rank, data_to_write } =>
                SystemRegisterCommandContent::WriteProc {
                    timestamp: *timestamp,
                    write_rank: *write_rank,
                    data_to_write: data_to_write.duplicate(),
                },
            SystemRegisterCommandContent::Ack => SystemRegisterCommandContent::Ack,
        };
        SystemRegisterCommand { header: self.header, content }
    }
}

} // verus!
