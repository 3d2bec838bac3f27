//! Message authentication: every message on the wire is followed by its
//! HMAC-SHA256 tag, under the client key for client commands and responses
//! and under the system key for commands between processes.
use vstd::prelude::*;

use crate::bytes::append_bytes;
use crate::domain::{OperationComplete, RegisterCommand, RegisterCommandModel, SystemRegisterCommand};
use crate::transfer::{serialize_register_command, serialize_response, spec_response, spec_serialize};
use hmac::{Hmac, Mac, NewMac};
use sha2::Sha256;

verus! {

/// Number of bytes of an HMAC-SHA256 tag.
pub const HMAC_TAG_SIZE: usize = 32;

/// The HMAC-SHA256 tag of `data` under `key`, as the hmac and sha2 crates
/// compute it.
pub uninterp spec fn hmac_sha256(key: Seq<u8>, data: Seq<u8>) -> Seq<u8>;

/// Computes the HMAC-SHA256 tag of `data` under `key` with the hmac crate:
/// `Hmac::<Sha256>::new_varkey`, `Mac::update`, `Mac::finalize` and
/// `into_bytes`. Claimed: the result is `hmac_sha256(key, data)` and has the
/// 32 bytes of a SHA-256 output. `new_varkey` of `Hmac` accepts keys of any
/// length (longer keys are hashed first), so it does not fail.
#[verifier::external_body]
fn hmac_sha256_tag(key: &[u8], data: &[u8]) -> (tag: Vec<u8>)
    ensures
        tag@ == hmac_sha256(key@, data@),
        tag@.len() == HMAC_TAG_SIZE,
{
    let mut mac = Hmac::<Sha256>::new_varkey(key).expect("HMAC accepts keys of any length");
    mac.update(data);
    mac.finalize().into_bytes().to_vec()
}

/// Checks a tag with the hmac crate: `Hmac::<Sha256>::new_varkey`,
/// `Mac::update` and `Mac::verify`, which compares the computed tag with
/// `tag` in constant time (slices of another length never match). Claimed:
/// the result is true exactly when `tag` is `hmac_sha256(key, data)`.
#[verifier::external_body]
fn hmac_sha256_verify(key: &[u8], data: &[u8], tag: &[u8]) -> (ok: bool)
    ensures
        ok == (tag@ == hmac_sha256(key@, data@)),
{
    let mut mac = Hmac::<Sha256>::new_varkey(key).expect("HMAC accepts keys of any length");
    mac.update(data);
    mac.verify(tag).is_ok()
}

/// `data` followed by its tag under `key`.
pub open spec fn spec_signed(key: Seq<u8>, data: Seq<u8>) -> Seq<u8> {
    data + hmac_sha256(key, data)
}

/// Appends to `msg` the tag of its content under `key`.
pub fn append_hmac_tag(msg: &mut Vec<u8>, key: &[u8])
    ensures
        final(msg)@ == spec_signed(key@, old(msg)@),
{
    let tag = hmac_sha256_tag(key, msg.as_slice());
    append_bytes(msg, tag.as_slice());
}

/// Whether `tag` is the tag of `data` under `key`.
pub fn tag_is_valid(key: &[u8], data: &[u8], tag: &[u8]) -> (ok: bool)
    ensures
        ok == (tag@ == hmac_sha256(key@, data@)),
{
    hmac_sha256_verify(key, data, tag)
}

/// The bytes sent to another process for `cmd`: the command followed by its
/// tag under the system key.
pub fn frame_system_command(cmd: &SystemRegisterCommand, hmac_system_key: &[u8]) -> (msg: Vec<u8>)
    ensures
        msg@ == spec_signed(
            hmac_system_key@,
            spec_serialize(RegisterCommandModel::System(cmd@)),
        ),
{
    let mut data: Vec<u8> = Vec::new();
    let wrapped = RegisterCommand::System(cmd.duplicate());
    serialize_register_command(&wrapped, &mut data);
    assert(data@ =~= spec_serialize(RegisterCommandModel::System(cmd@)));
    append_hmac_tag(&mut data, hmac_system_key);
    data
}

/// The bytes of the response to a client request of type `msg_type`: the
/// response followed by its tag under the client key.
pub fn frame_response(op_complete: &OperationComplete, msg_type: u8, hmac_client_key: &[u8]) -> (msg: Vec<u8>)
    requires
        msg_type <= 0xbf,
    ensures
        msg@ == spec_signed(hmac_client_key@, spec_response(op_complete@, msg_type)),
{
    let mut msg = serialize_response(op_complete, msg_type);
    append_hmac_tag(&mut msg, hmac_client_key);
    msg
}

} // verus!
