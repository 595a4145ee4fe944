use fuzzcore::executors::{ExitKind, MapWrite};
use fuzzcore::inputs::BytesInput;
use fuzzcore::map_observer::CustomMapObserver;
use fuzzcore::observer::{CustomObserver, Observer};

#[test]
fn map_observer_accessors() {
    let mut observer = CustomMapObserver::owned("signals", vec![0, 3, 0, 7]);
    assert_eq!(observer.name().as_str(), "signals");
    assert_eq!(observer.len(), 4);
    assert_eq!(observer.usable_count(), 4);
    assert_eq!(observer.initial(), 0);
    assert_eq!(observer.get(1), 3);
    observer.set(2, 9);
    assert_eq!(observer.get(2), 9);
    assert_eq!(observer.to_vec(), vec![0, 3, 9, 7]);
}

#[test]
fn count_bytes_counts_non_initial_cells() {
    let observer = CustomMapObserver::owned("signals", vec![0, 1, 0, 2, 0, 0, 3, 0]);
    assert_eq!(observer.count_bytes(), 3);
    let all_zero = CustomMapObserver::owned("zeros", vec![0; 5]);
    assert_eq!(all_zero.count_bytes(), 0);
}

#[test]
fn how_many_set_is_a_set_count() {
    let observer = CustomMapObserver::owned("signals", vec![0, 1, 0, 2]);
    assert_eq!(observer.how_many_set(&vec![0, 1, 3]), 2);
    // A duplicated index counts once.
    assert_eq!(observer.how_many_set(&vec![1, 1, 1]), 1);
    // An out-of-range index counts not at all.
    assert_eq!(observer.how_many_set(&vec![99, 0, 2]), 0);
    assert_eq!(observer.how_many_set(&vec![]), 0);
}

#[test]
fn reset_map_clears_every_cell() {
    let mut observer = CustomMapObserver::owned("signals", vec![5, 6, 7]);
    observer.reset_map().unwrap();
    assert_eq!(observer.to_vec(), vec![0, 0, 0]);
    assert_eq!(observer.len(), 3);
}

#[test]
fn pre_exec_resets_before_a_run() {
    let mut observer = CustomMapObserver::owned("signals", vec![9; 4]);
    let input = BytesInput::new(b"x".to_vec());
    observer.pre_exec(&input).unwrap();
    assert_eq!(observer.count_bytes(), 0);
    observer.post_exec(&input, &ExitKind::Okay).unwrap();
    assert_eq!(observer.count_bytes(), 0);
}

#[test]
fn hash_simple_is_stable_and_tracks_contents() {
    let mut observer = CustomMapObserver::owned("signals", vec![0; 8]);
    let h0 = observer.hash_simple();
    assert_eq!(h0, observer.hash_simple());
    observer.set(0, 1);
    let h1 = observer.hash_simple();
    assert_eq!(h1, observer.hash_simple());
    observer.set(0, 0);
    assert_eq!(observer.hash_simple(), h0);
}

#[test]
fn apply_writes_last_write_wins_and_out_of_range_ignored() {
    let mut observer = CustomMapObserver::owned("signals", vec![0; 4]);
    observer.apply_writes(&vec![
        MapWrite { index: 0, value: 1 },
        MapWrite { index: 3, value: 2 },
        MapWrite { index: 0, value: 5 },
        MapWrite { index: 100, value: 9 },
    ]);
    assert_eq!(observer.to_vec(), vec![5, 0, 0, 2]);
}

#[test]
fn observer_list_member_behaviour() {
    let mut map_member = Observer::MapObserver(CustomMapObserver::owned("m", vec![4; 2]));
    assert_eq!(map_member.name().as_str(), "m");
    let input = BytesInput::new(vec![]);
    map_member.pre_exec(&input).unwrap();
    match &map_member {
        Observer::MapObserver(o) => assert_eq!(o.to_vec(), vec![0, 0]),
        _ => panic!("variant changed"),
    }

    let mut plain = Observer::Plain(CustomObserver::new("plain"));
    assert_eq!(plain.name().as_str(), "plain");
    plain.reset().unwrap();
    plain.apply_writes(&vec![MapWrite { index: 0, value: 1 }]);
    plain.post_exec(&input, &ExitKind::Okay).unwrap();
}

#[test]
fn plain_observer_hooks_are_noops() {
    let mut observer = CustomObserver::new("plain");
    assert_eq!(observer.name().as_str(), "plain");
    let input = BytesInput::new(vec![1]);
    observer.flush().unwrap();
    observer.pre_exec(&input).unwrap();
    observer.post_exec(&input, &ExitKind::Crash).unwrap();
    observer.pre_exec_child(&input).unwrap();
    observer.post_exec_child(&input, &ExitKind::Okay).unwrap();
    assert!(!observer.observes_stdout());
    assert!(!observer.observes_stderr());
    observer.observe_stdout(b"out");
    observer.observe_stderr(b"err");
}
