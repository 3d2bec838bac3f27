use assignment_2_solution::{
    AtomicRegisterImplementation, AtomicRegisterStorageState, ClientCommandHeader, ClientRegisterCommand,
    ClientRegisterCommandContent, LocalSector, OperationReturn, RegisterActions, SectorVec, StatusCode,
    SystemCommandHeader, SystemRegisterCommand, SystemRegisterCommandContent,
};

fn read_cmd(request_identifier: u64, sector_idx: u64) -> ClientRegisterCommand {
    ClientRegisterCommand {
        header: ClientCommandHeader { request_identifier, sector_idx },
        content: ClientRegisterCommandContent::Read,
    }
}

fn write_cmd(request_identifier: u64, sector_idx: u64, byte: u8) -> ClientRegisterCommand {
    ClientRegisterCommand {
        header: ClientCommandHeader { request_identifier, sector_idx },
        content: ClientRegisterCommandContent::Write { data: SectorVec(vec![byte; 4096]) },
    }
}

fn system(process_identifier: u8, msg_ident: u128, read_ident: u64, content: SystemRegisterCommandContent) -> SystemRegisterCommand {
    SystemRegisterCommand {
        header: SystemCommandHeader { process_identifier, msg_ident, read_ident, sector_idx: 0 },
        content,
    }
}

fn value(process_identifier: u8, read_ident: u64, timestamp: u64, write_rank: u8, byte: u8) -> SystemRegisterCommand {
    system(
        process_identifier,
        7,
        read_ident,
        SystemRegisterCommandContent::Value { timestamp, write_rank, sector_data: SectorVec(vec![byte; 4096]) },
    )
}

fn copy_state(s: &AtomicRegisterStorageState) -> AtomicRegisterStorageState {
    s.duplicate()
}

fn broadcast_of(actions: &RegisterActions) -> SystemRegisterCommand {
    actions.broadcast.as_ref().expect("a broadcast").cmd.as_ref().clone()
}

fn assert_nothing(actions: &RegisterActions) {
    assert!(actions.store.is_none());
    assert!(actions.write_sector.is_none());
    assert!(actions.broadcast.is_none());
    assert!(actions.send.is_none());
    assert!(actions.complete.is_none());
}

#[test]
fn test_read_whole_procedure() {
    let (mut register, pending) = AtomicRegisterImplementation::new(1, 3, None);
    assert!(pending.is_none());

    let actions = register.client_command(read_cmd(7, 0));
    let cmd = broadcast_of(&actions);
    assert_eq!(cmd.header, SystemCommandHeader { process_identifier: 1, msg_ident: 7, read_ident: 1, sector_idx: 0 });
    assert_eq!(cmd.content, SystemRegisterCommandContent::ReadProc);
    let stored = actions.store.expect("state to store");
    assert_eq!(stored.read_ident, 1);
    assert!(!stored.writing);

    // a register recovered from that state continues with the next round
    let (mut recovered, pending) = AtomicRegisterImplementation::new(1, 1, Some(copy_state(&stored)));
    assert!(pending.is_none());
    assert_eq!(broadcast_of(&recovered.client_command(read_cmd(7, 0))).header.read_ident, 2);

    // one value is not a majority of three
    assert_nothing(&register.system_command(value(2, 1, 2, 4, 2), None));
    let actions = register.system_command(value(3, 1, 2, 6, 3), None);
    let cmd = broadcast_of(&actions);
    assert_eq!(cmd.header, SystemCommandHeader { process_identifier: 1, msg_ident: 7, read_ident: 2, sector_idx: 0 });
    assert_eq!(
        cmd.content,
        SystemRegisterCommandContent::WriteProc { timestamp: 2, write_rank: 6, data_to_write: SectorVec(vec![3; 4096]) }
    );
    assert_eq!(actions.store.expect("state to store").read_ident, 2);

    let ack = |p| system(p, 7, 2, SystemRegisterCommandContent::Ack);
    assert_nothing(&register.system_command(ack(2), None));
    let actions = register.system_command(ack(3), None);
    let done = actions.complete.expect("completion");
    assert_eq!(done.status_code, StatusCode::Success);
    assert_eq!(done.request_identifier, 7);
    match done.op_return {
        OperationReturn::Read(r) => assert_eq!(r.read_data.unwrap().0, vec![3; 4096]),
        OperationReturn::Write => panic!("not matching"),
    }
    assert!(actions.store.is_none());
}

#[test]
fn test_write_whole_procedure() {
    let (mut register, _) = AtomicRegisterImplementation::new(1, 3, None);
    let actions = register.client_command(write_cmd(7, 0, 2));
    assert_eq!(broadcast_of(&actions).header.read_ident, 1);
    let stored = actions.store.expect("state to store");
    assert!(stored.writing);

    // the write in progress survives a restart
    let (_, pending) = AtomicRegisterImplementation::new(1, 1, Some(copy_state(&stored)));
    let pending = pending.expect("pending write");
    assert_eq!(pending.header, ClientCommandHeader { request_identifier: 7, sector_idx: 0 });
    assert_eq!(pending.content, ClientRegisterCommandContent::Write { data: SectorVec(vec![2; 4096]) });

    assert_nothing(&register.system_command(value(2, 1, 2, 4, 9), None));
    let actions = register.system_command(value(3, 1, 2, 6, 9), None);
    assert_eq!(
        broadcast_of(&actions).content,
        SystemRegisterCommandContent::WriteProc { timestamp: 3, write_rank: 1, data_to_write: SectorVec(vec![2; 4096]) }
    );
    let stored = actions.store.expect("state to store");
    assert_eq!(stored.read_ident, 2);
    assert!(stored.writing);

    let ack = |p| system(p, 7, 2, SystemRegisterCommandContent::Ack);
    assert_nothing(&register.system_command(ack(3), None));
    // the same process acknowledging twice counts once
    assert_nothing(&register.system_command(ack(3), None));
    let actions = register.system_command(ack(2), None);
    let done = actions.complete.expect("completion");
    assert_eq!(done.status_code, StatusCode::Success);
    assert_eq!(done.request_identifier, 7);
    assert_eq!(done.op_return, OperationReturn::Write);
    let stored = actions.store.expect("state to store");
    assert!(!stored.writing);
    let (_, pending) = AtomicRegisterImplementation::new(1, 3, Some(stored));
    assert!(pending.is_none());
}

#[test]
fn test_write_proc_side_effects() {
    let (mut register, _) = AtomicRegisterImplementation::new(1, 1, None);
    let write = system(
        0,
        7,
        12,
        SystemRegisterCommandContent::WriteProc { timestamp: 1, write_rank: 2, data_to_write: SectorVec(vec![5; 4096]) },
    );
    let actions = register.system_command(write, Some(LocalSector { data: None, timestamp: 0, write_rank: 0 }));
    let (idx, data, ts, wr) = actions.write_sector.expect("sector write");
    assert_eq!((idx, ts, wr), (0, 1, 2));
    assert_eq!(data.0, vec![5; 4096]);
    let send = actions.send.expect("ack");
    assert_eq!(send.target, 0);
    assert_eq!(send.cmd.header, SystemCommandHeader { process_identifier: 1, msg_ident: 7, read_ident: 12, sector_idx: 0 });
    assert_eq!(send.cmd.content, SystemRegisterCommandContent::Ack);

    // an older value is not written but still acknowledged
    let older = system(
        0,
        7,
        12,
        SystemRegisterCommandContent::WriteProc { timestamp: 1, write_rank: 1, data_to_write: SectorVec(vec![6; 4096]) },
    );
    let actions = register.system_command(older, Some(LocalSector { data: None, timestamp: 1, write_rank: 2 }));
    assert!(actions.write_sector.is_none());
    assert!(actions.send.is_some());

    let read_proc = system(0, 7, 12, SystemRegisterCommandContent::ReadProc);
    let local = LocalSector { data: Some(SectorVec(vec![5; 4096])), timestamp: 1, write_rank: 2 };
    let actions = register.system_command(read_proc, Some(local));
    let send = actions.send.expect("value");
    assert_eq!(send.target, 0);
    assert_eq!(send.cmd.header.read_ident, 12);
    assert_eq!(
        send.cmd.content,
        SystemRegisterCommandContent::Value { timestamp: 1, write_rank: 2, sector_data: SectorVec(vec![5; 4096]) }
    );
    // the round number is untouched by the other processes' rounds
    assert_eq!(register.read_ident(), 0);
}

#[test]
fn stale_values_and_acks_are_ignored() {
    let (mut register, _) = AtomicRegisterImplementation::new(1, 1, None);
    register.client_command(read_cmd(4, 0));
    assert_nothing(&register.system_command(value(2, 5, 1, 1, 1), None));
    assert_nothing(&register.system_command(system(2, 4, 0, SystemRegisterCommandContent::Ack), None));
    // the current round still completes
    let actions = register.system_command(value(2, 1, 1, 1, 1), None);
    assert!(actions.broadcast.is_some());
}

#[test]
fn highest_value_wins_and_ties_keep_the_first() {
    let (mut register, _) = AtomicRegisterImplementation::new(1, 5, None);
    register.client_command(read_cmd(7, 0));
    assert_nothing(&register.system_command(value(2, 1, 3, 1, 1), None));
    assert_nothing(&register.system_command(value(3, 1, 5, 2, 2), None));
    let actions = register.system_command(value(4, 1, 5, 2, 3), None);
    assert_eq!(
        broadcast_of(&actions).content,
        SystemRegisterCommandContent::WriteProc { timestamp: 5, write_rank: 2, data_to_write: SectorVec(vec![2; 4096]) }
    );
}

#[test]
fn overflow_is_reported_before_it_happens() {
    let stored = AtomicRegisterStorageState { read_ident: u64::MAX, writing: false, writeval: None };
    let (mut register, _) = AtomicRegisterImplementation::new(1, 1, Some(stored));
    assert_eq!(register.read_ident(), u64::MAX);
    let v = value(2, u64::MAX, 1, 1, 1);
    // no operation is in progress: the value is only collected
    assert!(!register.system_command_overflows(&v));
    assert_nothing(&register.system_command(v, None));
}
