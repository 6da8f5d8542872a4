use tunes::library::PathInfo;
use tunes::watcher::{
    library_event, ChangeKind, DebounceAction, Debouncer, LibraryEvent, QueueEvent,
    POLL_INTERVAL_MS, QUIET_MIN_MS, QUIET_WINDOW_MS,
};

fn path(name: &str) -> PathInfo {
    PathInfo {
        path: format!("/music/tunes/{}", name),
        file_name: Some(name.to_string()),
        extension: name.rsplit_once('.').map(|(_, e)| e.to_string()),
    }
}

fn signal() -> QueueEvent {
    QueueEvent::Signal(LibraryEvent::Changed)
}

#[test]
fn changes_to_audio_files_matter() {
    for kind in [ChangeKind::Create, ChangeKind::Remove, ChangeKind::Modify] {
        assert_eq!(library_event(kind, &vec![path("a.mp3")]), Some(LibraryEvent::Changed));
        assert_eq!(library_event(kind, &vec![path("A.FLAC")]), Some(LibraryEvent::Changed));
    }
}

#[test]
fn other_kinds_of_event_do_not_matter() {
    for kind in [ChangeKind::Any, ChangeKind::Access, ChangeKind::Other] {
        assert_eq!(library_event(kind, &vec![path("a.mp3")]), None);
    }
}

#[test]
fn changes_to_other_files_do_not_matter() {
    assert_eq!(library_event(ChangeKind::Create, &vec![path("notes.txt")]), None);
    assert_eq!(library_event(ChangeKind::Modify, &vec![path("library.json")]), None);
    assert_eq!(library_event(ChangeKind::Remove, &vec![path("cover")]), None);
    assert_eq!(library_event(ChangeKind::Create, &Vec::new()), None);
}

#[test]
fn one_audio_file_among_the_paths_is_enough() {
    let paths = vec![path("notes.txt"), path("library.json"), path("b.ogg")];
    assert_eq!(library_event(ChangeKind::Modify, &paths), Some(LibraryEvent::Changed));
}

#[test]
fn debounce_constants() {
    assert_eq!(POLL_INTERVAL_MS, 100);
    assert_eq!(QUIET_MIN_MS, 500);
    assert_eq!(QUIET_WINDOW_MS, 700);
    assert_eq!(QUIET_WINDOW_MS, QUIET_MIN_MS + 2 * POLL_INTERVAL_MS);
}

#[test]
fn ten_rapid_signals_give_one_rescan_after_half_a_second_of_quiet() {
    let mut debouncer = Debouncer::new();
    let mut rescans: Vec<u64> = Vec::new();
    // Ten signals within 100 ms, the last at 1090.
    for i in 0..10u64 {
        let action = debouncer.step(signal(), 1000 + i * 10);
        assert_eq!(action, DebounceAction::Wait);
    }
    // Then two seconds of quiet: the loop looks at the clock every 100 ms.
    for tick in 1..=20u64 {
        let now: u64 = 1090 + tick * POLL_INTERVAL_MS;
        if debouncer.step(QueueEvent::Timeout, now) == DebounceAction::Rescan {
            rescans.push(now);
        }
    }
    // One scan, 500 ms after the tenth signal and not before.
    assert_eq!(rescans, vec![1590]);
}

#[test]
fn no_rescan_during_the_first_half_second() {
    let mut debouncer = Debouncer::new();
    debouncer.step(signal(), 0);
    for now in [0u64, 100, 200, 300, 400, 499] {
        assert_eq!(debouncer.step(QueueEvent::Timeout, now), DebounceAction::Wait, "{}", now);
    }
    assert_eq!(debouncer.step(QueueEvent::Timeout, 500), DebounceAction::Rescan);
}

#[test]
fn no_rescan_without_a_signal() {
    let mut debouncer = Debouncer::new();
    for tick in 0..20u64 {
        assert_eq!(debouncer.step(QueueEvent::Timeout, tick * 100), DebounceAction::Wait);
    }
}

#[test]
fn rescan_needs_the_minimum_of_quiet() {
    let mut debouncer = Debouncer::new();
    debouncer.step(signal(), 5000);
    assert_eq!(debouncer.step(QueueEvent::Timeout, 5000), DebounceAction::Wait);
    assert_eq!(debouncer.step(QueueEvent::Timeout, 5100), DebounceAction::Wait);
    assert_eq!(debouncer.step(QueueEvent::Timeout, 5499), DebounceAction::Wait);
    assert_eq!(debouncer.step(QueueEvent::Timeout, 5500), DebounceAction::Rescan);
}

#[test]
fn rescan_comes_within_the_window_only() {
    let mut late = Debouncer::new();
    late.step(signal(), 5000);
    assert_eq!(late.step(QueueEvent::Timeout, 5700), DebounceAction::Wait);
    assert_eq!(late.step(QueueEvent::Timeout, 9000), DebounceAction::Wait);

    let mut in_time = Debouncer::new();
    in_time.step(signal(), 5000);
    assert_eq!(in_time.step(QueueEvent::Timeout, 5699), DebounceAction::Rescan);
}

#[test]
fn a_missed_look_at_the_clock_still_finds_the_scan_due() {
    let mut debouncer = Debouncer::new();
    debouncer.step(signal(), 0);
    assert_eq!(debouncer.step(QueueEvent::Timeout, 400), DebounceAction::Wait);
    // The look at 500 is missed; the next one comes at 600.
    assert_eq!(debouncer.step(QueueEvent::Timeout, 600), DebounceAction::Rescan);
}

#[test]
fn rescan_is_not_repeated() {
    let mut debouncer = Debouncer::new();
    debouncer.step(signal(), 0);
    assert_eq!(debouncer.step(QueueEvent::Timeout, 500), DebounceAction::Rescan);
    assert_eq!(debouncer.step(QueueEvent::Timeout, 600), DebounceAction::Wait);
    assert_eq!(debouncer.step(QueueEvent::Timeout, 700), DebounceAction::Wait);
    // A new change is answered again.
    debouncer.step(signal(), 750);
    assert_eq!(debouncer.step(QueueEvent::Timeout, 1200), DebounceAction::Wait);
    assert_eq!(debouncer.step(QueueEvent::Timeout, 1250), DebounceAction::Rescan);
}

#[test]
fn a_signal_restarts_the_quiet_time() {
    let mut debouncer = Debouncer::new();
    debouncer.step(signal(), 0);
    debouncer.step(signal(), 400);
    assert_eq!(debouncer.step(QueueEvent::Timeout, 500), DebounceAction::Wait);
    assert_eq!(debouncer.step(QueueEvent::Timeout, 899), DebounceAction::Wait);
    assert_eq!(debouncer.step(QueueEvent::Timeout, 900), DebounceAction::Rescan);
}

#[test]
fn signals_that_keep_coming_put_the_scan_off() {
    let mut debouncer = Debouncer::new();
    let mut now: u64 = 0;
    // A change every 300 ms, with looks at the clock in between.
    for _ in 0..10u32 {
        assert_eq!(debouncer.step(signal(), now), DebounceAction::Wait);
        assert_eq!(debouncer.step(QueueEvent::Timeout, now + 100), DebounceAction::Wait);
        assert_eq!(debouncer.step(QueueEvent::Timeout, now + 200), DebounceAction::Wait);
        now += 300;
    }
    // The last change came at 2700.
    assert_eq!(debouncer.step(QueueEvent::Timeout, 3100), DebounceAction::Wait);
    assert_eq!(debouncer.step(QueueEvent::Timeout, 3200), DebounceAction::Rescan);
    assert_eq!(debouncer.step(QueueEvent::Timeout, 3300), DebounceAction::Wait);
}

#[test]
fn a_clock_that_ran_backwards_counts_as_no_time() {
    let mut debouncer = Debouncer::new();
    debouncer.step(signal(), 1000);
    assert_eq!(debouncer.step(QueueEvent::Timeout, 200), DebounceAction::Wait);
    assert_eq!(debouncer.step(QueueEvent::Timeout, 1500), DebounceAction::Rescan);
}

#[test]
fn a_closed_queue_ends_the_loop() {
    let mut debouncer = Debouncer::new();
    assert_eq!(debouncer.step(QueueEvent::Closed, 0), DebounceAction::Quit);
    debouncer.step(signal(), 10);
    assert_eq!(debouncer.step(QueueEvent::Closed, 550), DebounceAction::Quit);
    // Closing answers nothing: the change is still there.
    assert_eq!(debouncer.step(QueueEvent::Timeout, 560), DebounceAction::Rescan);
}

#[test]
fn times_near_the_end_of_the_clock() {
    let mut debouncer = Debouncer::new();
    debouncer.step(signal(), u64::MAX - 500);
    assert_eq!(debouncer.step(QueueEvent::Timeout, u64::MAX - 1), DebounceAction::Wait);
    assert_eq!(debouncer.step(QueueEvent::Timeout, u64::MAX), DebounceAction::Rescan);
}
