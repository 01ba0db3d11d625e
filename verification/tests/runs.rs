use gbfr_logs::runs::{ConfluxBuffDelta, ConfluxRoom, ConfluxRun};

#[test]
fn room_without_an_index_is_room_zero() {
    let room = ConfluxRoom::from_row(7, None, Some(12), None, 3000, 123_456);
    assert_eq!(room.log_id, 7);
    assert_eq!(room.room_index, 0);
    assert_eq!(room.quest_id, Some(12));
    assert_eq!(room.primary_target, None);
    assert_eq!(room.duration, 3000);
    assert_eq!(room.total_damage, 123_456);

    let room = ConfluxRoom::from_row(8, Some(3), None, Some(44), 10, 0);
    assert_eq!(room.room_index, 3);
    assert_eq!(room.primary_target, Some(44));
}

#[test]
fn run_without_decoded_buffs_has_none() {
    let rooms = vec![ConfluxRoom::from_row(1, Some(0), None, None, 5, 9)];
    let run = ConfluxRun::from_row(2, 100, None, None, 1, None, None, rooms);
    assert!(run.buffs.is_empty());
    assert_eq!(run.rooms.len(), 1);
    assert_eq!(run.start_time, 100);
    assert_eq!(run.end_time, None);
}

#[test]
fn run_keeps_decoded_buffs() {
    let buffs = vec![ConfluxBuffDelta {
        room_index: 1,
        buff_ids: vec![5, 6],
    }];
    let run = ConfluxRun::from_row(2, 100, Some(400), Some(300), 2, Some(true), Some(buffs.clone()), vec![]);
    assert_eq!(run.buffs, buffs);
    assert_eq!(run.duration, Some(300));
    assert_eq!(run.completed, Some(true));
    assert_eq!(run.room_count, 2);
}
