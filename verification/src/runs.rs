use vstd::prelude::*;

verus! {

/// The buffs granted in one room of an Endless Mode run.
#[derive(Debug, Clone, PartialEq, Eq)]
pub struct ConfluxBuffDelta {
    pub room_index: u32,
    pub buff_ids: Vec<u32>,
}

/// One room of an Endless Mode run: the log recorded for it.
#[derive(Debug, Clone)]
pub struct ConfluxRoom {
    pub log_id: i64,
    pub room_index: u32,
    pub quest_id: Option<u32>,
    pub primary_target: Option<u32>,
    pub duration: i64,
    pub total_damage: i64,
}

/// An Endless Mode run with its buffs and rooms.
#[derive(Debug, Clone)]
pub struct ConfluxRun {
    pub id: i64,
    pub start_time: i64,
    pub end_time: Option<i64>,
    pub duration: Option<i64>,
    pub room_count: u32,
    pub completed: Option<bool>,
    pub buffs: Vec<ConfluxBuffDelta>,
    pub rooms: Vec<ConfluxRoom>,
}

impl ConfluxRoom {
    /// A room from a stored log row; a room without a stored index is room 0.
    pub fn from_row(
        log_id: i64,
        room_index: Option<u32>,
        quest_id: Option<u32>,
        primary_target: Option<u32>,
        duration: i64,
        total_damage: i64,
    ) -> (room: ConfluxRoom)
        ensures
            room.log_id == log_id,
            room.room_index == (match room_index {
                Some(index) => index,
                None => 0,
            }),
            room.quest_id == quest_id,
            room.primary_target == primary_target,
            room.duration == duration,
            room.total_damage == total_damage,
    {
        let room_index = match room_index {
            Some(index) => index,
            None => 0,
        };
        ConfluxRoom { log_id, room_index, quest_id, primary_target, duration, total_damage }
    }
}

impl ConfluxRun {
    /// A run from a stored run row and its rooms. `buffs` holds the decoded
    /// buff column, `None` where it is missing or does not decode: such a run
    /// has no buffs.
    pub fn from_row(
        id: i64,
        start_time: i64,
        end_time: Option<i64>,
        duration: Option<i64>,
        room_count: u32,
        completed: Option<bool>,
        buffs: Option<Vec<ConfluxBuffDelta>>,
        rooms: Vec<ConfluxRoom>,
    ) -> (run: ConfluxRun)
        ensures
            run.id == id,
            run.start_time == start_time,
            run.end_time == end_time,
            run.duration == duration,
            run.room_count == room_count,
            run.completed == completed,
            run.buffs@ == (match buffs {
                Some(decoded) => decoded@,
                None => Seq::empty(),
            }),
            run.rooms@ == rooms@,
    {
        let buffs = match buffs {
            Some(decoded) => decoded,
            None => Vec::new(),
        };
        ConfluxRun { id, start_time, end_time, duration, room_count, completed, buffs, rooms }
    }
}

} // verus!
