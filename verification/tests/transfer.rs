use assignment_2_solution::auth::{append_hmac_tag, frame_response, frame_system_command, tag_is_valid};
use assignment_2_solution::run_register_process::{
    classify_command, decide_external_command, message_length, ExternalCommand, MagicNumberScanner,
};
use assignment_2_solution::{
    deserialize_client_command, deserialize_register_command, deserialize_system_command,
    serialize_register_command, serialize_response, ClientCommandHeader, ClientRegisterCommand,
    ClientRegisterCommandContent, DeserializeError, OperationComplete, OperationReturn, ReadReturn,
    RegisterCommand, SectorVec, StatusCode, SystemCommandHeader, SystemRegisterCommand,
    SystemRegisterCommandContent, MAGIC_NUMBER, SECTOR_VEC_SIZE,
};
use uuid::Uuid;

#[test]
fn serialize_deserialize_unknown_msg_type() {
    // given
    let mut sink = MAGIC_NUMBER.to_vec();
    let mut unknown_msg_type = vec![0, 0, 0, 0x12];
    sink.append(&mut unknown_msg_type);

    // when
    let res = deserialize_register_command(&sink[..]);

    // then
    res.err().expect("Should be error");
}

#[test]
fn serialize_deserialize_is_identity_client_read() {
    // given
    let request_identifier = 7;
    let sector_idx = 8;
    let register_cmd = RegisterCommand::Client(ClientRegisterCommand {
        header: ClientCommandHeader { request_identifier, sector_idx },
        content: ClientRegisterCommandContent::Read,
    });
    let mut sink: Vec<u8> = vec![];

    // when
    serialize_register_command(&register_cmd, &mut sink);
    let deserialized_cmd = deserialize_register_command(&sink[..]).expect("Could not deserialize");

    // then
    match deserialized_cmd {
        RegisterCommand::Client(ClientRegisterCommand {
            header,
            content: ClientRegisterCommandContent::Read,
        }) => {
            assert_eq!(header.sector_idx, sector_idx);
            assert_eq!(header.request_identifier, request_identifier);
        }
        _ => panic!("Expected Read command"),
    }
}

#[test]
fn serialize_deserialize_is_identity_client_write() {
    // given
    let request_identifier = 7;
    let sector_idx = 8;
    let content_data = SectorVec(vec![2; SECTOR_VEC_SIZE]);
    let register_cmd = RegisterCommand::Client(ClientRegisterCommand {
        header: ClientCommandHeader { request_identifier, sector_idx },
        content: ClientRegisterCommandContent::Write { data: content_data.clone() },
    });
    let mut sink: Vec<u8> = vec![];

    // when
    serialize_register_command(&register_cmd, &mut sink);
    let deserialized_cmd = deserialize_register_command(&sink[..]).expect("Could not deserialize");

    // then
    match deserialized_cmd {
        RegisterCommand::Client(ClientRegisterCommand {
            header,
            content: ClientRegisterCommandContent::Write { data },
        }) => {
            assert_eq!(header.sector_idx, sector_idx);
            assert_eq!(header.request_identifier, request_identifier);
            assert_eq!(data, content_data);
        }
        _ => panic!("Expected Read command"),
    }
}

#[test]
fn serialize_deserialize_is_identity_system_read_proc() {
    // given
    let process_identifier = 7;
    let msg_ident = Uuid::new_v4().as_u128();
    let read_ident = 123;
    let sector_idx = 8;

    let register_cmd = RegisterCommand::System(SystemRegisterCommand {
        header: SystemCommandHeader { process_identifier, msg_ident, read_ident, sector_idx },
        content: SystemRegisterCommandContent::ReadProc,
    });
    let mut sink = vec![];

    // when
    serialize_register_command(&register_cmd, &mut sink);
    let deserialized_cmd = deserialize_register_command(&sink[..]).expect("Could not deserialize");

    // then
    match deserialized_cmd {
        RegisterCommand::System(SystemRegisterCommand {
            header,
            content: SystemRegisterCommandContent::ReadProc,
        }) => {
            assert_eq!(header.process_identifier, process_identifier);
            assert_eq!(header.msg_ident, msg_ident);
            assert_eq!(header.read_ident, read_ident);
            assert_eq!(header.sector_idx, sector_idx);
        }
        _ => panic!("Expected Read command"),
    }
}

#[test]
fn serialize_deserialize_is_identity_system_value() {
    // given
    let process_identifier = 7;
    let msg_ident = Uuid::new_v4().as_u128();
    let read_ident = 123;
    let sector_idx = 8;

    let timestamp_ = 12;
    let write_rank_ = 198;
    let sector_data_ = SectorVec(vec![2; SECTOR_VEC_SIZE]);

    let register_cmd = RegisterCommand::System(SystemRegisterCommand {
        header: SystemCommandHeader { process_identifier, msg_ident, read_ident, sector_idx },
        content: SystemRegisterCommandContent::Value {
            timestamp: timestamp_,
            write_rank: write_rank_,
            sector_data: sector_data_.clone(),
        },
    });
    let mut sink = vec![];

    // when
    serialize_register_command(&register_cmd, &mut sink);
    let deserialized_cmd = deserialize_register_command(&sink[..]).expect("Could not deserialize");

    // then
    match deserialized_cmd {
        RegisterCommand::System(SystemRegisterCommand {
            header,
            content: SystemRegisterCommandContent::Value { timestamp, write_rank, sector_data },
        }) => {
            assert_eq!(header.process_identifier, process_identifier);
            assert_eq!(header.msg_ident, msg_ident);
            assert_eq!(header.read_ident, read_ident);
            assert_eq!(header.sector_idx, sector_idx);

            assert_eq!(timestamp, timestamp_);
            assert_eq!(write_rank, write_rank_);
            assert_eq!(sector_data, sector_data_);
        }
        _ => panic!("Expected Read command"),
    }
}

#[test]
fn serialize_deserialize_is_identity_system_write_proc() {
    // given
    let process_identifier = 7;
    let msg_ident = Uuid::new_v4().as_u128();
    let read_ident = 123;
    let sector_idx = 8;

    let timestamp_ = 12;
    let write_rank_ = 198;
    let data_to_write_ = SectorVec(vec![2; SECTOR_VEC_SIZE]);

    let register_cmd = RegisterCommand::System(SystemRegisterCommand {
        header: SystemCommandHeader { process_identifier, msg_ident, read_ident, sector_idx },
        content: SystemRegisterCommandContent::WriteProc {
            timestamp: timestamp_,
            write_rank: write_rank_,
            data_to_write: data_to_write_.clone(),
        },
    });
    let mut sink = vec![];

    // when
    serialize_register_command(&register_cmd, &mut sink);
    let deserialized_cmd = deserialize_register_command(&sink[..]).expect("Could not deserialize");

    // then
    match deserialized_cmd {
        RegisterCommand::System(SystemRegisterCommand {
            header,
            content: SystemRegisterCommandContent::WriteProc { timestamp, write_rank, data_to_write },
        }) => {
            assert_eq!(header.process_identifier, process_identifier);
            assert_eq!(header.msg_ident, msg_ident);
            assert_eq!(header.read_ident, read_ident);
            assert_eq!(header.sector_idx, sector_idx);

            assert_eq!(timestamp, timestamp_);
            assert_eq!(write_rank, write_rank_);
            assert_eq!(data_to_write, data_to_write_);
        }
        _ => panic!("Expected Read command"),
    }
}

fn client_read(request_identifier: u64, sector_idx: u64) -> RegisterCommand {
    RegisterCommand::Client(ClientRegisterCommand {
        header: ClientCommandHeader { request_identifier, sector_idx },
        content: ClientRegisterCommandContent::Read,
    })
}

#[test]
fn client_read_bytes_are_big_endian() {
    let mut sink = vec![];
    serialize_register_command(&client_read(0x0102030405060708, 0x1112131415161718), &mut sink);
    assert_eq!(
        sink,
        vec![
            0x61, 0x74, 0x64, 0x64, 0, 0, 0, 0x01, 1, 2, 3, 4, 5, 6, 7, 8, 0x11, 0x12, 0x13, 0x14, 0x15,
            0x16, 0x17, 0x18
        ]
    );
}

#[test]
fn value_bytes_have_padding_before_write_rank() {
    let cmd = RegisterCommand::System(SystemRegisterCommand {
        header: SystemCommandHeader { process_identifier: 3, msg_ident: 5, read_ident: 9, sector_idx: 4 },
        content: SystemRegisterCommandContent::Value {
            timestamp: 0x0a0b,
            write_rank: 0xee,
            sector_data: SectorVec(vec![7; SECTOR_VEC_SIZE]),
        },
    });
    let mut sink = vec![];
    serialize_register_command(&cmd, &mut sink);
    assert_eq!(sink.len(), 56 + SECTOR_VEC_SIZE);
    assert_eq!(&sink[0..8], &[0x61, 0x74, 0x64, 0x64, 0, 0, 3, 0x04]);
    let mut msg_ident = vec![0u8; 16];
    msg_ident[15] = 5;
    assert_eq!(&sink[8..24], &msg_ident[..]);
    assert_eq!(&sink[24..32], &[0, 0, 0, 0, 0, 0, 0, 9]);
    assert_eq!(&sink[32..40], &[0, 0, 0, 0, 0, 0, 0, 4]);
    assert_eq!(&sink[40..56], &[0, 0, 0, 0, 0, 0, 0x0a, 0x0b, 0, 0, 0, 0, 0, 0, 0, 0xee]);
    assert_eq!(&sink[56..], &vec![7u8; SECTOR_VEC_SIZE][..]);
}

#[test]
fn deserialize_unknown_type_reports_the_type() {
    let data = [0x61, 0x74, 0x64, 0x64, 0, 0, 0, 0x12, 0, 0, 0];
    assert_eq!(
        deserialize_register_command(&data[..]),
        Err(DeserializeError::UnknownMessageType { msg_type: 0x12 })
    );
}

#[test]
fn deserialize_truncated_command_reports_unexpected_end() {
    let mut sink = vec![];
    serialize_register_command(&client_read(1, 2), &mut sink);
    assert_eq!(deserialize_register_command(&sink[..7]), Err(DeserializeError::UnexpectedEnd));
    assert_eq!(deserialize_register_command(&sink[..23]), Err(DeserializeError::UnexpectedEnd));
    // a write whose sector is cut short
    let write = RegisterCommand::Client(ClientRegisterCommand {
        header: ClientCommandHeader { request_identifier: 1, sector_idx: 2 },
        content: ClientRegisterCommandContent::Write { data: SectorVec(vec![1; SECTOR_VEC_SIZE]) },
    });
    let mut sink = vec![];
    serialize_register_command(&write, &mut sink);
    assert_eq!(deserialize_register_command(&sink[..sink.len() - 1]), Err(DeserializeError::UnexpectedEnd));
}

#[test]
fn deserialize_client_command_rejects_system_types() {
    assert!(deserialize_client_command(&[0u8; 16], 0x03).is_none());
    assert!(matches!(deserialize_client_command(&[0u8; 15], 0x01), Some(Err(DeserializeError::UnexpectedEnd))));
    assert_eq!(
        deserialize_system_command(&[0u8; 40], 1, 0x02),
        Err(DeserializeError::UnknownMessageType { msg_type: 0x02 })
    );
}

#[test]
fn deserialize_ignores_magic_and_padding() {
    let data = [9, 9, 9, 9, 9, 9, 4, 0x06, 0, 0, 0, 0, 0, 0, 0, 0, 0, 0, 0, 0, 0, 0, 0, 1, 0, 0, 0, 0, 0, 0, 0, 2, 0, 0, 0, 0, 0, 0, 0, 3];
    match deserialize_register_command(&data[..]) {
        Ok(RegisterCommand::System(SystemRegisterCommand { header, content: SystemRegisterCommandContent::Ack })) => {
            assert_eq!(header, SystemCommandHeader { process_identifier: 4, msg_ident: 1, read_ident: 2, sector_idx: 3 });
        }
        other => panic!("unexpected {:?}", other),
    }
}

#[test]
fn response_bytes() {
    let op = OperationComplete {
        status_code: StatusCode::Success,
        request_identifier: 0x0102,
        op_return: OperationReturn::Read(ReadReturn { read_data: Some(SectorVec(vec![5; SECTOR_VEC_SIZE])) }),
    };
    let msg = serialize_response(&op, 0x01);
    assert_eq!(msg.len(), 16 + SECTOR_VEC_SIZE);
    assert_eq!(&msg[0..16], &[0x61, 0x74, 0x64, 0x64, 0, 0, 0, 0x41, 0, 0, 0, 0, 0, 0, 1, 2]);
    let err = OperationComplete {
        status_code: StatusCode::InvalidSectorIndex,
        request_identifier: 3,
        op_return: OperationReturn::Write,
    };
    assert_eq!(
        serialize_response(&err, 0x02),
        vec![0x61, 0x74, 0x64, 0x64, 0, 0, 2, 0x42, 0, 0, 0, 0, 0, 0, 0, 3]
    );
    let auth = OperationComplete { status_code: StatusCode::AuthFailure, request_identifier: 3, op_return: OperationReturn::Write };
    assert_eq!(serialize_response(&auth, 0x01)[6], 1);
    // a failed command has empty content, even with data at hand
    let failed_read = OperationComplete {
        status_code: StatusCode::AuthFailure,
        request_identifier: 4,
        op_return: OperationReturn::Read(ReadReturn { read_data: Some(SectorVec(vec![5; SECTOR_VEC_SIZE])) }),
    };
    assert_eq!(serialize_response(&failed_read, 0x01).len(), 16);
}

fn hex(s: &str) -> Vec<u8> {
    (0..s.len()).step_by(2).map(|i| u8::from_str_radix(&s[i..i + 2], 16).unwrap()).collect()
}

#[test]
fn hmac_tag_matches_reference_vector() {
    // HMAC-SHA256 with key "Jefe" (RFC 4231, test case 2)
    let mut msg = b"what do ya want for nothing?".to_vec();
    append_hmac_tag(&mut msg, b"Jefe");
    assert_eq!(&msg[..28], b"what do ya want for nothing?");
    assert_eq!(msg[28..].to_vec(), hex("5bdcc146bf60754e6a042426089575c75a003f089d2739839dec58b964ec3843"));
    assert!(tag_is_valid(b"Jefe", &msg[..28], &msg[28..]));
    assert!(!tag_is_valid(b"Jeff", &msg[..28], &msg[28..]));
    assert!(!tag_is_valid(b"Jefe", &msg[..28], &msg[28..59]));
}

#[test]
fn framed_messages_end_with_their_tag() {
    let key = [7u8; 64];
    let cmd = SystemRegisterCommand {
        header: SystemCommandHeader { process_identifier: 1, msg_ident: 2, read_ident: 3, sector_idx: 4 },
        content: SystemRegisterCommandContent::Ack,
    };
    let frame = frame_system_command(&cmd, &key);
    assert_eq!(frame.len(), 40 + 32);
    assert!(tag_is_valid(&key, &frame[..40], &frame[40..]));
    let client_key = [9u8; 32];
    let op = OperationComplete { status_code: StatusCode::Success, request_identifier: 1, op_return: OperationReturn::Write };
    let resp = frame_response(&op, 0x02, &client_key);
    assert_eq!(resp.len(), 16 + 32);
    assert!(tag_is_valid(&client_key, &resp[..16], &resp[16..]));
    assert!(!tag_is_valid(&key, &resp[..16], &resp[16..]));
}

#[test]
fn message_lengths_per_type() {
    assert_eq!(message_length(0x01), 24);
    assert_eq!(message_length(0x02), 24 + SECTOR_VEC_SIZE);
    assert_eq!(message_length(0x03), 40);
    assert_eq!(message_length(0x04), 56 + SECTOR_VEC_SIZE);
    assert_eq!(message_length(0x05), 56 + SECTOR_VEC_SIZE);
    assert_eq!(message_length(0x06), 40);
    assert_eq!(message_length(0x07), 0);
    assert_eq!(message_length(0x00), 0);
}

#[test]
fn magic_number_scanner_stops_after_magic() {
    let stream = [1u8, 0x61, 0x74, 0x61, 0x74, 0x64, 0x64, 5];
    let mut scanner = MagicNumberScanner::new();
    let found: Vec<bool> = stream.iter().map(|b| scanner.push(*b)).collect();
    assert_eq!(found, vec![false, false, false, false, false, false, true, false]);
}

fn signed(mut data: Vec<u8>, key: &[u8]) -> Vec<u8> {
    append_hmac_tag(&mut data, key);
    data
}

#[test]
fn external_commands_are_checked() {
    let system_key = [1u8; 64];
    let client_key = [2u8; 32];
    let mut read = vec![];
    serialize_register_command(&client_read(11, 5), &mut read);

    // valid client command in range
    let frame = signed(read.clone(), &client_key);
    match decide_external_command(&frame, &system_key, &client_key, 10) {
        ExternalCommand::Client(cmd) => assert_eq!(cmd.header, ClientCommandHeader { request_identifier: 11, sector_idx: 5 }),
        _ => panic!("expected a client command"),
    }
    // sector out of range
    assert!(matches!(
        decide_external_command(&frame, &system_key, &client_key, 5),
        ExternalCommand::Refused { status_code: StatusCode::InvalidSectorIndex, request_identifier: 11 }
    ));
    // signed with the wrong key
    let frame = signed(read, &system_key[..32]);
    assert!(matches!(
        decide_external_command(&frame, &system_key, &client_key, 10),
        ExternalCommand::Refused { status_code: StatusCode::AuthFailure, request_identifier: 11 }
    ));
    // system commands
    let ack = SystemRegisterCommand {
        header: SystemCommandHeader { process_identifier: 2, msg_ident: 11, read_ident: 1, sector_idx: 5 },
        content: SystemRegisterCommandContent::Ack,
    };
    let frame = frame_system_command(&ack, &system_key);
    match decide_external_command(&frame, &system_key, &client_key, 10) {
        ExternalCommand::System(cmd) => assert_eq!(cmd, ack),
        _ => panic!("expected a system command"),
    }
    let frame = frame_system_command(&ack, &[3u8; 64]);
    assert!(matches!(decide_external_command(&frame, &system_key, &client_key, 10), ExternalCommand::Rejected));
}

#[test]
fn classify_command_follows_tag_and_sector() {
    assert!(matches!(
        classify_command(client_read(7, 3), false, 10),
        ExternalCommand::Refused { status_code: StatusCode::AuthFailure, request_identifier: 7 }
    ));
    assert!(matches!(
        classify_command(client_read(7, 10), true, 10),
        ExternalCommand::Refused { status_code: StatusCode::InvalidSectorIndex, request_identifier: 7 }
    ));
    match classify_command(client_read(7, 9), true, 10) {
        ExternalCommand::Client(cmd) => assert_eq!(cmd.header, ClientCommandHeader { request_identifier: 7, sector_idx: 9 }),
        _ => panic!("expected a client command"),
    }
    let ack = SystemRegisterCommand {
        header: SystemCommandHeader { process_identifier: 1, msg_ident: 7, read_ident: 2, sector_idx: 3 },
        content: SystemRegisterCommandContent::Ack,
    };
    assert!(matches!(classify_command(RegisterCommand::System(ack.clone()), false, 10), ExternalCommand::Rejected));
    match classify_command(RegisterCommand::System(ack.clone()), true, 0) {
        ExternalCommand::System(cmd) => assert_eq!(cmd, ack),
        _ => panic!("expected a system command"),
    }
}
