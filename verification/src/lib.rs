//! A distributed block device: every sector is an (N, N) atomic register kept
//! by a fixed set of processes that talk over authenticated messages.
pub mod atomic_register;
pub mod auth;
pub mod bytes;
pub mod commands_executor;
pub mod domain;
pub mod metadata_laws;
pub mod register_client;
pub mod register_system;
pub mod run_register_process;
pub mod sectors_manager;
pub mod transfer;

pub use atomic_register::{
    AtomicRegisterImplementation, AtomicRegisterStorageState, Broadcast, DataWithHeader,
    LocalSector, RegisterActions, Send,
};
pub use domain::{
    copy_bytes, ClientCommandHeader, ClientRegisterCommand, ClientRegisterCommandContent, MsgIdent,
    OperationComplete, OperationReturn, ReadReturn, RegisterCommand, SectorIdx, SectorVec,
    StatusCode, SystemCommandHeader, SystemRegisterCommand, SystemRegisterCommandContent,
    MAGIC_NUMBER, SECTOR_VEC_SIZE,
};
pub use transfer::{
    deserialize_client_command, deserialize_register_command, deserialize_system_command,
    serialize_client_command, serialize_register_command, serialize_response,
    serialize_system_command, DeserializeError,
};
