use gbfr_logs::endless::{
    flow_type, read_at, OnEndlessBuffInstallHook, OnEndlessMgrDtorHook, OnReceptionFlowDispatchHook,
    ENDLESS_FLOW_TYPE, FLOW_SLOT_OFFSET, FLOW_TYPE_OFFSET,
};
use gbfr_logs::events::{
    ConfluxBuffAcquiredEvent, ConfluxRoomEnterEvent, ConfluxRunEndEvent, Message,
};

#[test]
fn null_base_is_never_read() {
    let value = read_at(0, 0x10, |_address: usize| -> Option<u32> {
        panic!("a null base must not be read")
    });
    assert_eq!(value, None);
}

#[test]
fn read_at_reads_past_the_base() {
    let value = read_at(0x1000, 0x10, |address: usize| Some(address as u32));
    assert_eq!(value, Some(0x1010));
}

#[test]
fn read_at_wraps_around_the_address_space() {
    let value = read_at(usize::MAX, 2, |address: usize| Some(address));
    assert_eq!(value, Some(1));
}

#[test]
fn flow_type_follows_the_flow_pointer() {
    let manager = 0x4000usize;
    let flow = 0x9000usize;
    let read_pointer = |address: usize| {
        if address == manager + FLOW_SLOT_OFFSET {
            Some(flow)
        } else {
            None
        }
    };
    let read_u32 = |address: usize| {
        if address == flow + FLOW_TYPE_OFFSET {
            Some(ENDLESS_FLOW_TYPE)
        } else {
            None
        }
    };
    assert_eq!(flow_type(manager, read_pointer, read_u32), Some(ENDLESS_FLOW_TYPE));
}

#[test]
fn flow_type_of_a_null_flow_is_unknown() {
    let read_pointer = |_address: usize| Some(0usize);
    let read_u32 = |_address: usize| -> Option<u32> { panic!("a null flow must not be read") };
    assert_eq!(flow_type(0x4000, read_pointer, read_u32), None);
}

#[test]
fn flow_type_of_a_failed_read_is_unknown() {
    let read_pointer = |_address: usize| -> Option<usize> { None };
    let read_u32 = |_address: usize| Some(1u32);
    assert_eq!(flow_type(0x4000, read_pointer, read_u32), None);
    assert_eq!(flow_type(0, |_a: usize| Some(5usize), |_a: usize| Some(1u32)), None);
}

#[test]
fn entering_endless_mode_is_a_change_of_flow_type() {
    let hook = OnReceptionFlowDispatchHook::new(());
    assert!(hook.enters_endless_mode(None, Some(ENDLESS_FLOW_TYPE)));
    assert!(hook.enters_endless_mode(Some(1), Some(ENDLESS_FLOW_TYPE)));
    assert!(!hook.enters_endless_mode(Some(ENDLESS_FLOW_TYPE), Some(ENDLESS_FLOW_TYPE)));
    assert!(!hook.enters_endless_mode(Some(1), None));
    assert!(!hook.enters_endless_mode(Some(ENDLESS_FLOW_TYPE), Some(1)));
}

#[test]
fn room_enter_message_carries_quest_and_manager() {
    let hook = OnReceptionFlowDispatchHook::new(());
    assert_eq!(
        hook.room_enter_message(Some(4001), 0x7000),
        Some(Message::ConfluxRoomEnter(ConfluxRoomEnterEvent {
            quest_id: 4001,
            manager_ptr: 0x7000,
        }))
    );
}

#[test]
fn failed_quest_read_suppresses_room_enter() {
    let hook = OnReceptionFlowDispatchHook::new(());
    assert_eq!(hook.room_enter_message(None, 0x7000), None);
    let quest_id = read_at(0x7000, 0x1D8, |_address: usize| -> Option<u32> { None });
    assert_eq!(hook.room_enter_message(quest_id, 0x7000), None);
}

#[test]
fn buff_message_needs_a_buff_id() {
    let hook = OnEndlessBuffInstallHook::new(());
    assert_eq!(hook.buff_acquired_message(None), None);
    assert_eq!(hook.buff_acquired_message(Some(0)), None);
    assert_eq!(
        hook.buff_acquired_message(Some(31)),
        Some(Message::ConfluxBuffAcquired(ConfluxBuffAcquiredEvent { buff_id: 31 }))
    );
}

#[test]
fn destructor_ends_the_run() {
    let hook = OnEndlessMgrDtorHook::new(());
    assert_eq!(
        hook.run_end_message(0x5150),
        Message::ConfluxRunEnd(ConfluxRunEndEvent { manager_ptr: 0x5150 })
    );
}

#[test]
fn hooks_keep_their_channel() {
    assert_eq!(*OnReceptionFlowDispatchHook::new(3u8).tx(), 3);
    assert_eq!(*OnEndlessBuffInstallHook::new(4u8).tx(), 4);
    assert_eq!(*OnEndlessMgrDtorHook::new(5u8).tx(), 5);
}
