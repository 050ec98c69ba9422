use hardwave::multiplayer::{
    generate_invite_code, LogicalClock, LwwRegister, Permission, Presence, Room, RoomMember,
    SessionHistory, SyncMessage,
};

fn member(id: &str, perm: Permission) -> RoomMember {
    RoomMember {
        user_id: id.into(),
        display_name: format!("User {}", id),
        avatar_hint: "avatar-1".into(),
        permission: perm,
        presence: Presence::default(),
    }
}

#[derive(Debug, PartialEq)]
enum Kind {
    Heartbeat,
}

#[test]
fn invite_code_is_deterministic_per_room() {
    let a = generate_invite_code("room-1");
    let b = generate_invite_code("room-1");
    assert_eq!(a, b);
    assert_eq!(a.len(), 8);
    let c = generate_invite_code("room-2");
    assert_ne!(a, c);
}

#[test]
fn room_add_member_is_idempotent() {
    let mut r = Room::new("host", 1);
    r.add_member(member("host", Permission::Host));
    assert!(!r.add_member(member("host", Permission::Editor)));
    assert_eq!(r.members.len(), 1);
    r.add_member(member("guest", Permission::Editor));
    assert_eq!(r.members.len(), 2);
}

#[test]
fn permission_capabilities_are_correct() {
    assert!(Permission::Host.can_edit());
    assert!(Permission::Host.can_kick());
    assert!(Permission::Editor.can_edit());
    assert!(!Permission::Editor.can_kick());
    assert!(!Permission::Viewer.can_edit());
    assert!(!Permission::Viewer.can_kick());
}

#[test]
fn logical_clock_observe_jumps_ahead_of_remote() {
    let mut c = LogicalClock::new();
    c.tick();
    c.observe(10);
    assert_eq!(c.value(), 11);
    c.tick();
    assert_eq!(c.value(), 12);
}

#[test]
fn lww_register_newer_clock_wins() {
    let mut reg: LwwRegister<f32> = LwwRegister::new(0.0);
    assert!(reg.apply(0.5, 5, "alice"));
    assert!(!reg.apply(0.8, 3, "bob"));
    assert!(reg.apply(0.9, 6, "bob"));
    assert_eq!(reg.value, 0.9);
}

#[test]
fn lww_register_equal_clock_resolved_by_user_id() {
    let mut reg: LwwRegister<f32> = LwwRegister::new(0.0);
    reg.apply(0.5, 5, "alice");
    assert!(reg.apply(0.8, 5, "bob"));
    assert_eq!(reg.value, 0.8);
    assert!(!reg.apply(0.9, 5, "alice"));
}

#[test]
fn session_history_drops_oldest_when_over_capacity() {
    let mut h = SessionHistory::new(3);
    for i in 0..5 {
        h.record(SyncMessage { sender_user_id: "u".into(), logical_clock: i, kind: Kind::Heartbeat });
    }
    assert_eq!(h.len(), 3);
    assert_eq!(h.messages()[0].logical_clock, 2);
    assert_eq!(h.messages()[2].logical_clock, 4);
    assert_eq!(h.messages()[1].kind, Kind::Heartbeat);
}

#[test]
fn a_history_of_capacity_zero_still_keeps_the_last_message() {
    let mut h = SessionHistory::new(0);
    assert!(h.is_empty());
    h.record(1u32);
    h.record(2u32);
    assert_eq!(h.messages(), &[2u32][..]);
    h.clear();
    assert!(h.is_empty());
    h.record(3u32);
    assert_eq!(h.len(), 1);
}

#[test]
fn a_room_is_named_after_its_creation_time_and_invites_by_that_name() {
    let r = Room::new("host", 1_700_000_000);
    assert_eq!(r.room_id, "room-1700000000");
    assert_eq!(r.invite_code, generate_invite_code("room-1700000000"));
    assert!(r.invite_code.chars().all(|c| "ABCDEFGHJKLMNPQRSTUVWXYZ23456789".contains(c)));
}

#[test]
fn removing_a_member_and_finding_the_host() {
    let mut r = Room::new("host", 2);
    r.add_member(member("guest", Permission::Viewer));
    assert!(r.host().is_none());
    r.add_member(member("host", Permission::Host));
    assert_eq!(r.host().unwrap().user_id, "host");
    assert!(r.remove_member("guest"));
    assert!(!r.remove_member("guest"));
    assert_eq!(r.members.len(), 1);
    r.member_mut("host").unwrap().presence.cursor_tick = 480;
    assert_eq!(r.member("host").unwrap().presence.cursor_tick, 480);
}

#[test]
fn a_replayed_write_does_not_win_twice() {
    let mut reg: LwwRegister<u32> = LwwRegister::new(0);
    assert!(reg.apply(7, 3, "carol"));
    assert!(!reg.apply(7, 3, "carol"));
    assert_eq!(reg.value, 7);
}

#[test]
fn a_clock_ticks_by_one_and_observing_an_older_stamp_still_moves_on() {
    let mut c = LogicalClock::new();
    assert_eq!(c.tick(), 1);
    assert_eq!(c.tick(), 2);
    c.observe(1);
    assert_eq!(c.value(), 3);
}
