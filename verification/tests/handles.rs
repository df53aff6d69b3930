use bomber_lib::player_hotswap::{contains_id, PlayerHandle, PlayerHandles, RESPAWN_TICKS};
use bomber_lib::world::Ticks;

fn listed(list: &PlayerHandles) -> Vec<PlayerHandle> {
    (0..list.len()).map(|i| list.get(i).clone()).collect()
}

#[test]
fn handles_tell_their_module_and_state() {
    let ready = PlayerHandle::ReadyToSpawn(3);
    let banned = PlayerHandle::Misbehaved(4, "trap".to_string());
    let waiting = PlayerHandle::Respawning(5, Ticks(2));
    assert!(ready.is_ready_to_spawn());
    assert!(!banned.is_ready_to_spawn());
    assert!(!waiting.is_ready_to_spawn());
    assert_eq!((ready.inner(), banned.inner(), waiting.inner()), (3, 4, 5));
}

#[test]
fn invalidating_keeps_the_first_reason() {
    let mut handle = PlayerHandle::Respawning(5, Ticks(2));
    handle.invalidate("first".to_string());
    assert_eq!(handle, PlayerHandle::Misbehaved(5, "first".to_string()));
    handle.invalidate("second".to_string());
    assert_eq!(handle, PlayerHandle::Misbehaved(5, "first".to_string()));
}

#[test]
fn a_waiting_handle_is_ready_when_its_ticks_are_over() {
    for ticks in 1..6u32 {
        let mut handle = PlayerHandle::Respawning(1, Ticks(ticks));
        for elapsed in 1..ticks {
            handle.tick();
            assert_eq!(handle, PlayerHandle::Respawning(1, Ticks(ticks - elapsed)));
        }
        handle.tick();
        assert_eq!(handle, PlayerHandle::ReadyToSpawn(1));
        handle.tick();
        assert_eq!(handle, PlayerHandle::ReadyToSpawn(1));
    }
    let mut banned = PlayerHandle::Misbehaved(1, "trap".to_string());
    banned.tick();
    assert_eq!(banned, PlayerHandle::Misbehaved(1, "trap".to_string()));
    let mut spent = PlayerHandle::Respawning(1, Ticks(0));
    spent.tick();
    assert_eq!(spent, PlayerHandle::ReadyToSpawn(1));
}

#[test]
fn reconciling_keeps_states_and_order() {
    let mut list = PlayerHandles::new();
    list.reconcile(&vec![1, 2, 3]);
    assert!(list.ban(2, "trap".to_string()));
    assert!(list.kill(3));
    list.reconcile(&vec![3, 4, 2, 4, 3]);
    assert_eq!(
        listed(&list),
        vec![
            PlayerHandle::Misbehaved(2, "trap".to_string()),
            PlayerHandle::Respawning(3, Ticks(RESPAWN_TICKS)),
            PlayerHandle::ReadyToSpawn(4),
        ]
    );
    assert_eq!(list.position(3), Some(1));
    assert_eq!(list.position(1), None);
    list.reconcile(&vec![]);
    assert_eq!(list.len(), 0);
}

#[test]
fn only_misbehaved_handles_of_changed_modules_are_unbanned() {
    let mut list = PlayerHandles::new();
    list.reconcile(&vec![1, 2, 3, 4]);
    list.ban(1, "a".to_string());
    list.ban(2, "b".to_string());
    list.kill(3);
    list.unban(&vec![2, 3, 4, 9]);
    assert_eq!(
        listed(&list),
        vec![
            PlayerHandle::Misbehaved(1, "a".to_string()),
            PlayerHandle::ReadyToSpawn(2),
            PlayerHandle::Respawning(3, Ticks(RESPAWN_TICKS)),
            PlayerHandle::ReadyToSpawn(4),
        ]
    );
}

#[test]
fn banning_and_killing_tell_whether_the_module_is_listed() {
    let mut list = PlayerHandles::new();
    list.reconcile(&vec![1]);
    assert!(!list.ban(2, "nobody".to_string()));
    assert!(!list.kill(2));
    assert_eq!(listed(&list), vec![PlayerHandle::ReadyToSpawn(1)]);
    assert!(list.kill(1));
    list.tick();
    assert_eq!(listed(&list), vec![PlayerHandle::Respawning(1, Ticks(RESPAWN_TICKS - 1))]);
}

#[test]
fn lists_of_modules_can_be_searched() {
    assert!(contains_id(&vec![3, 1, 2], 1));
    assert!(!contains_id(&vec![3, 1, 2], 4));
    assert!(!contains_id(&vec![], 0));
}
