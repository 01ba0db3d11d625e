use vstd::prelude::*;

use crate::constants::CharacterType;

verus! {

/// What produced a hit, as the game reports it.
#[derive(Debug, Clone, Copy, PartialEq, Eq, Structural)]
pub enum ActionType {
    LinkAttack,
    SBA,
    SupplementaryDamage(u32),
    DamageOverTime(u32),
    Normal(u32),
}

/// The kind of multiplier a status applies to a hit.
#[derive(Debug, Clone, Copy, PartialEq, Eq, Structural)]
pub enum DamageModifierKind {
    Attack,
    Defense,
    Elemental,
    Amplify,
    Supplementary,
}

/// One side of a damage event: an actor and the actor that owns it.
#[derive(Debug, Clone, Copy, PartialEq, Eq, Structural)]
pub struct Actor {
    pub index: u32,
    pub actor_type: CharacterType,
    pub parent_actor_type: CharacterType,
    pub parent_index: u32,
}

/// The integer part of a damage event: who hit whom, with what, for how much.
#[derive(Debug, Clone, Copy, PartialEq, Eq, Structural)]
pub struct DamageEvent {
    pub source: Actor,
    pub target: Actor,
    pub action_id: ActionType,
    pub damage: i32,
    pub flags: u64,
}

/// A player entered a room of an Endless Mode run.
#[derive(Debug, Clone, Copy, PartialEq, Eq, Structural)]
pub struct ConfluxRoomEnterEvent {
    pub quest_id: u32,
    pub manager_ptr: u64,
}

/// A buff was granted during an Endless Mode run.
#[derive(Debug, Clone, Copy, PartialEq, Eq, Structural)]
pub struct ConfluxBuffAcquiredEvent {
    pub buff_id: u32,
}

/// The Endless Mode manager was torn down: the run is over.
#[derive(Debug, Clone, Copy, PartialEq, Eq, Structural)]
pub struct ConfluxRunEndEvent {
    pub manager_ptr: u64,
}

/// A message that the hook sends to the parser.
#[derive(Debug, Clone, Copy, PartialEq, Eq, Structural)]
pub enum Message {
    ConfluxRoomEnter(ConfluxRoomEnterEvent),
    ConfluxBuffAcquired(ConfluxBuffAcquiredEvent),
    ConfluxRunEnd(ConfluxRunEndEvent),
}

} // verus!
