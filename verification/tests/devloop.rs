use sitegen::relay::reload_message;
use sitegen::watch::advance;
use sitegen::watch::WatchSignal;
use sitegen::watch::WatchState;
use sitegen::relay::Relay;
use sitegen::watch::count_rebuilds;
use sitegen::watch::step;
use sitegen::watch::WatchAction;
use sitegen::watch::WatchEvent;

#[test]
fn only_create_modify_remove_trigger_rebuilds() {
    assert_eq!(step(WatchEvent::Create), WatchAction::Rebuild);
    assert_eq!(step(WatchEvent::Modify), WatchAction::Rebuild);
    assert_eq!(step(WatchEvent::Remove), WatchAction::Rebuild);
    assert_eq!(step(WatchEvent::Other), WatchAction::Ignore);
    assert_eq!(step(WatchEvent::Error), WatchAction::LogError);
}

#[test]
fn a_burst_of_three_events_means_three_rebuilds() {
    let burst = vec![
        WatchEvent::Create,
        WatchEvent::Other,
        WatchEvent::Modify,
        WatchEvent::Error,
        WatchEvent::Remove,
    ];
    assert_eq!(count_rebuilds(&burst), 3);
}

#[test]
fn the_watcher_cycles_through_its_states() {
    let s = advance(WatchState::Idle, WatchSignal::Delivered(WatchEvent::Modify));
    assert_eq!(s, WatchState::Rebuilding);
    let s = advance(s, WatchSignal::RebuildDone(true));
    assert_eq!(s, WatchState::NotifyPending);
    let s = advance(s, WatchSignal::NotifyDone);
    assert_eq!(s, WatchState::Idle);

    let s = advance(WatchState::Idle, WatchSignal::Delivered(WatchEvent::Other));
    assert_eq!(s, WatchState::Idle);
    let s = advance(WatchState::Rebuilding, WatchSignal::RebuildDone(false));
    assert_eq!(s, WatchState::Idle);
}

#[test]
fn drain_hands_out_exactly_the_pending_connections() {
    let mut q: Relay<u64> = Relay::new();
    q.push(7);
    q.push(8);
    assert_eq!(q.len(), 2);
    let batch = q.drain();
    assert_eq!(batch, vec![7, 8]);
    assert_eq!(q.len(), 0);
}

#[test]
fn a_late_connection_waits_for_the_next_drain() {
    let mut q: Relay<u64> = Relay::new();
    q.push(1);
    let first = q.drain();
    assert_eq!(first, vec![1]);
    q.push(2);
    assert!(!first.contains(&2));
    let second = q.drain();
    assert_eq!(second, vec![2]);
    assert_eq!(q.len(), 0);
}

#[test]
fn the_reload_message_is_the_fixed_token() {
    assert_eq!(reload_message(), "reload");
}
