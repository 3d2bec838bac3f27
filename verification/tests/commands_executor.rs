use assignment_2_solution::commands_executor::{SectorSchedule, SystemRoute};
use assignment_2_solution::{SectorVec, SystemRegisterCommandContent};

#[test]
fn commands_of_one_sector_run_in_turn() {
    let mut schedule = SectorSchedule::new();
    let t1 = schedule.take_ticket(2);
    let t2 = schedule.take_ticket(2);
    let other = schedule.take_ticket(15);
    assert_eq!((t1, t2, other), (0, 1, 0));
    assert!(schedule.may_proceed(2, t1));
    assert!(!schedule.may_proceed(2, t2));
    // a different sector does not wait
    assert!(schedule.may_proceed(15, other));

    schedule.assign(1, 0, 2);
    assert_eq!(schedule.sector_of(1), Some(2));
    assert_eq!(schedule.finish_client_command(1), Some(2));
    assert!(schedule.may_proceed(2, t2));
    assert!(!schedule.may_proceed(2, t1));
    assert_eq!(schedule.counters(2), (2, 1));
    // finishing an unknown command changes nothing
    assert_eq!(schedule.finish_client_command(1), None);
    assert_eq!(schedule.counters(2), (2, 1));
}

#[test]
fn system_commands_are_routed() {
    let mut schedule = SectorSchedule::new();
    let t = schedule.take_ticket(3);
    assert!(schedule.may_proceed(3, t));
    schedule.assign(9, 1, 3);
    let value = SystemRegisterCommandContent::Value { timestamp: 1, write_rank: 1, sector_data: SectorVec(vec![]) };
    assert_eq!(schedule.route(&SystemRegisterCommandContent::Ack, 9), SystemRoute::Register(1));
    assert_eq!(schedule.route(&value, 9), SystemRoute::Register(1));
    assert_eq!(schedule.route(&SystemRegisterCommandContent::Ack, 10), SystemRoute::Drop);
    assert_eq!(schedule.route(&SystemRegisterCommandContent::ReadProc, 10), SystemRoute::AnyRegister);
    schedule.finish_client_command(9);
    assert_eq!(schedule.route(&SystemRegisterCommandContent::Ack, 9), SystemRoute::Drop);
}
