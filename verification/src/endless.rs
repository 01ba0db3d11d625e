//! Decisions of the read-only, pass-through hooks on the Endless Mode
//! lifecycle.
//!
//! Every game-memory access goes through a reader that may fail. A failed read
//! of what an event reports (the flow type after a dispatch, the quest id, the
//! buff id) simply suppresses the event. Reading memory, calling the hooked function and
//! sending the messages are the caller's part; this module decides what to read
//! and what to send.

use vstd::prelude::*;

use crate::events::{ConfluxBuffAcquiredEvent, ConfluxRoomEnterEvent, ConfluxRunEndEvent, Message};

verus! {

/// The flow type of the reception manager while an Endless Mode run is active.
pub const ENDLESS_FLOW_TYPE: u32 = 0x887A_E0B0;

/// Offset of the reception manager's pointer to its current flow.
pub const FLOW_SLOT_OFFSET: usize = 0x210;

/// Offset of a flow's type.
pub const FLOW_TYPE_OFFSET: usize = 0x7C8;

/// Offset of the reception manager's quest id.
pub const QUEST_ID_OFFSET: usize = 0x1D8;

/// Offset of the first id slot of an Endless Mode buff.
pub const ENDLESS_BUFF_FIRST_SLOT: usize = 0xC0;

/// The address `offset` bytes past `base`, wrapping around as pointer
/// arithmetic with `wrapping_byte_add` does.
pub open spec fn address_at(base: usize, offset: usize) -> usize {
    vstd::wrapping::usize_specs::wrapping_add(base, offset)
}

/// The address `offset` bytes past `base` is their sum, wrapped around the
/// address space.
pub proof fn lemma_address_at(base: usize, offset: usize)
    ensures
        address_at(base, offset) as int == (base as int + offset as int) % (usize::MAX as int + 1),
{
    let sum = base as int + offset as int;
    let size = usize::MAX as int + 1;
    if sum > usize::MAX {
        assert((sum - size) % size == sum % size) by {
            vstd::arithmetic::div_mod::lemma_mod_sub_multiples_vanish(sum, size);
        }
        vstd::arithmetic::div_mod::lemma_small_mod((sum - size) as nat, size as nat);
    } else {
        vstd::arithmetic::div_mod::lemma_small_mod(sum as nat, size as nat);
    }
}

/// Reads the value `offset` bytes past `base` with `read`; a null `base` is
/// never read and gives `None`.
pub fn read_at<T, F: Fn(usize) -> Option<T>>(base: usize, offset: usize, read: F) -> (value: Option<T>)
    requires
        base != 0 ==> read.requires((address_at(base, offset),)),
    ensures
        base == 0 ==> value is None,
        base != 0 ==> read.ensures((address_at(base, offset),), value),
{
    if base == 0 {
        return None;
    }
    read(base.wrapping_add(offset))
}

/// The current flow type of the reception manager at `manager`: the flow
/// pointer is read from the manager, and the type from the flow it points to.
/// A null manager, a failed read or a null flow pointer give `None`.
pub fn flow_type<P: Fn(usize) -> Option<usize>, Q: Fn(usize) -> Option<u32>>(
    manager: usize,
    read_pointer: P,
    read_u32: Q,
) -> (flow_type: Option<u32>)
    requires
        forall|address: usize| read_pointer.requires((address,)),
        forall|address: usize| read_u32.requires((address,)),
    ensures
        manager == 0 ==> flow_type is None,
        manager != 0 ==> exists|flow: Option<usize>|
            {
                &&& #[trigger] read_pointer.ensures((address_at(manager, FLOW_SLOT_OFFSET),), flow)
                &&& match flow {
                    Some(pointer) => if pointer == 0 {
                        flow_type is None
                    } else {
                        read_u32.ensures((address_at(pointer, FLOW_TYPE_OFFSET),), flow_type)
                    },
                    None => flow_type is None,
                }
            },
{
    let flow = read_at(manager, FLOW_SLOT_OFFSET, read_pointer);
    match flow {
        None => None,
        Some(pointer) => read_at(pointer, FLOW_TYPE_OFFSET, read_u32),
    }
}

/// Hook on the reception flow dispatcher: reports entering an Endless Mode
/// room.
#[derive(Clone)]
pub struct OnReceptionFlowDispatchHook<Tx> {
    tx: Tx,
}

impl<Tx> OnReceptionFlowDispatchHook<Tx> {
    /// The channel the hook sends its messages on.
    pub closed spec fn sender(&self) -> Tx {
        self.tx
    }

    pub fn new(tx: Tx) -> (hook: Self)
        ensures
            hook.sender() == tx,
    {
        Self { tx }
    }

    pub fn tx(&self) -> (tx: &Tx)
        ensures
            *tx == self.sender(),
    {
        &self.tx
    }

    /// A dispatch enters an Endless Mode room when the flow type becomes that
    /// of Endless Mode: it was not before the dispatch and it is after. A flow
    /// type unknown before the dispatch is not Endless Mode's, so the change is
    /// still seen; one unknown after it suppresses the event.
    pub fn enters_endless_mode(&self, before: Option<u32>, after: Option<u32>) -> (enters: bool)
        ensures
            enters == (before != Some(ENDLESS_FLOW_TYPE) && after == Some(ENDLESS_FLOW_TYPE)),
    {
        before != Some(ENDLESS_FLOW_TYPE) && after == Some(ENDLESS_FLOW_TYPE)
    }

    /// The message for entering a room of the manager at `manager`, with the
    /// quest id read from the manager. A failed read of the quest id
    /// suppresses the message.
    pub fn room_enter_message(&self, quest_id: Option<u32>, manager: usize) -> (message: Option<Message>)
        ensures
            message == (match quest_id {
                Some(id) => Some(
                    Message::ConfluxRoomEnter(
                        ConfluxRoomEnterEvent { quest_id: id, manager_ptr: manager as u64 },
                    ),
                ),
                None => None,
            }),
    {
        match quest_id {
            Some(id) => Some(
                Message::ConfluxRoomEnter(ConfluxRoomEnterEvent { quest_id: id, manager_ptr: manager as u64 }),
            ),
            None => None,
        }
    }
}

/// Hook on the installation of an Endless Mode buff: reports the buff.
#[derive(Clone)]
pub struct OnEndlessBuffInstallHook<Tx> {
    tx: Tx,
}

impl<Tx> OnEndlessBuffInstallHook<Tx> {
    /// The channel the hook sends its messages on.
    pub closed spec fn sender(&self) -> Tx {
        self.tx
    }

    pub fn new(tx: Tx) -> (hook: Self)
        ensures
            hook.sender() == tx,
    {
        Self { tx }
    }

    pub fn tx(&self) -> (tx: &Tx)
        ensures
            *tx == self.sender(),
    {
        &self.tx
    }

    /// The message for a buff whose first id slot read `buff_id`: none where
    /// the read failed or the slot is empty (0).
    pub fn buff_acquired_message(&self, buff_id: Option<u32>) -> (message: Option<Message>)
        ensures
            message == (match buff_id {
                Some(id) => if id != 0 {
                    Some(Message::ConfluxBuffAcquired(ConfluxBuffAcquiredEvent { buff_id: id }))
                } else {
                    None
                },
                None => None,
            }),
    {
        match buff_id {
            Some(id) => if id != 0 {
                Some(Message::ConfluxBuffAcquired(ConfluxBuffAcquiredEvent { buff_id: id }))
            } else {
                None
            },
            None => None,
        }
    }
}

/// Hook on the destructor of the Endless Mode manager: reports the end of the
/// run.
#[derive(Clone)]
pub struct OnEndlessMgrDtorHook<Tx> {
    tx: Tx,
}

impl<Tx> OnEndlessMgrDtorHook<Tx> {
    /// The channel the hook sends its messages on.
    pub closed spec fn sender(&self) -> Tx {
        self.tx
    }

    pub fn new(tx: Tx) -> (hook: Self)
        ensures
            hook.sender() == tx,
    {
        Self { tx }
    }

    pub fn tx(&self) -> (tx: &Tx)
        ensures
            *tx == self.sender(),
    {
        &self.tx
    }

    /// The message for the destruction of the manager at `manager`: the run
    /// ends, whatever memory holds.
    pub fn run_end_message(&self, manager: usize) -> (message: Message)
        ensures
            message == Message::ConfluxRunEnd(ConfluxRunEndEvent { manager_ptr: manager as u64 }),
    {
        Message::ConfluxRunEnd(ConfluxRunEndEvent { manager_ptr: manager as u64 })
    }
}

} // verus!
