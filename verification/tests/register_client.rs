use assignment_2_solution::register_client::{
    after_peer_write, needs_connection, peer_send, reopened_connection_usable, route_send, PeerSend,
    PendingCommands, SendRoute,
};
use assignment_2_solution::{SystemCommandHeader, SystemRegisterCommand, SystemRegisterCommandContent};

fn cmd(msg_ident: u128, read_ident: u64) -> SystemRegisterCommand {
    SystemRegisterCommand {
        header: SystemCommandHeader { process_identifier: 1, msg_ident, read_ident, sector_idx: 0 },
        content: SystemRegisterCommandContent::ReadProc,
    }
}

#[test]
fn messages_to_self_skip_the_network() {
    assert_eq!(route_send(2, 2), SendRoute::ToSelf);
    assert_eq!(route_send(2, 1), SendRoute::ToPeer(0));
    assert_eq!(route_send(2, 3), SendRoute::ToPeer(2));
    assert!(!needs_connection(2, 1));
    assert!(needs_connection(2, 0));
    assert!(needs_connection(2, 2));
}

#[test]
fn pending_commands_keep_the_latest_of_each_round() {
    let mut pending = PendingCommands::new();
    pending.add_pending_cmd(cmd(1, 1));
    pending.add_pending_cmd(cmd(2, 1));
    pending.add_pending_cmd(cmd(1, 2));
    let mut cmds = pending.commands();
    cmds.sort_by_key(|c| c.header.msg_ident);
    assert_eq!(cmds, vec![cmd(1, 2), cmd(2, 1)]);
    pending.remove_pending_cmd(1);
    assert_eq!(pending.commands(), vec![cmd(2, 1)]);
    pending.remove_pending_cmd(5);
    assert_eq!(pending.commands(), vec![cmd(2, 1)]);
}

#[test]
fn failed_sends_are_queued_and_drop_the_connection() {
    assert_eq!(peer_send(true), PeerSend::Write);
    assert_eq!(peer_send(false), PeerSend::Queue);
    assert_eq!(after_peer_write(true), (true, false));
    assert_eq!(after_peer_write(false), (false, true));
    assert!(reopened_connection_usable(0));
    assert!(!reopened_connection_usable(2));
}
