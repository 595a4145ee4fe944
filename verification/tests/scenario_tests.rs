use fuzzcore::corpus::InMemoryCorpus;
use fuzzcore::engines::{StateMetadataValue, StdState};
use fuzzcore::events::SimpleEventManager;
use fuzzcore::executors::{ExitKind, MapWrite, ScriptedExecutor, ScriptedRule};
use fuzzcore::feedback::{CrashFeedback, Feedback, TimeoutFeedback};
use fuzzcore::inputs::BytesInput;
use fuzzcore::map_observer::CustomMapObserver;
use fuzzcore::max_map_feedback::{CustomMaxMapFeedback, MapFeedbackMetadata};
use fuzzcore::observer::Observer;

fn writes(pairs: &[(usize, u8)]) -> Vec<MapWrite> {
    pairs
        .iter()
        .map(|(index, value)| MapWrite { index: *index, value: *value })
        .collect()
}

fn scripted() -> ScriptedExecutor {
    let mut executor = ScriptedExecutor::new();
    executor.add_rule(ScriptedRule {
        pattern: b"a".to_vec(),
        writes: writes(&[(0, 1)]),
        exit_kind: ExitKind::Okay,
    });
    executor.add_rule(ScriptedRule {
        pattern: b"ab".to_vec(),
        writes: writes(&[(0, 1), (1, 1)]),
        exit_kind: ExitKind::Okay,
    });
    executor.add_rule(ScriptedRule {
        pattern: b"abcd".to_vec(),
        writes: writes(&[(0, 1), (1, 1), (2, 1), (3, 1)]),
        exit_kind: ExitKind::Crash,
    });
    executor.add_rule(ScriptedRule {
        pattern: vec![b'x'; 1000],
        writes: writes(&[]),
        exit_kind: ExitKind::Timeout,
    });
    executor
}

fn coverage_state() -> StdState<ScriptedExecutor> {
    let observer = CustomMapObserver::owned("signals", vec![0u8; 16]);
    let feedback = CustomMaxMapFeedback::with_tracking(&observer, true, true);
    let mut state = StdState::new(scripted(), 0);
    state.add_observer(Observer::MapObserver(observer));
    state.add_feedback(Feedback::MaxMap(feedback));
    state
}

fn history(state: &StdState<ScriptedExecutor>) -> MapFeedbackMetadata {
    let entry = state
        .metadatas()
        .iter()
        .find(|e| e.name == "signals")
        .expect("history installed");
    let StateMetadataValue::MapFeedback(ms) = &entry.value;
    ms.clone()
}

#[test]
fn first_execution_discovers_one_cell() {
    let mut state = coverage_state();
    let mut corpus = InMemoryCorpus::new();
    let mut events = SimpleEventManager::new();

    state
        .add_input(&mut corpus, &mut events, BytesInput::new(b"a".to_vec()))
        .unwrap();

    assert_eq!(corpus.count(), 1);
    let tc = corpus.get(0);
    assert_eq!(tc.fitness(), 1);
    assert_eq!(tc.input().as_ref().unwrap().bytes, b"a".to_vec());
    let indexes = tc.indexes_metadata().as_ref().expect("indexes attached");
    assert_eq!(indexes.list, vec![0]);
    assert_eq!(indexes.tcref, 0);
    let novelties = tc.novelties_metadata().as_ref().expect("novelties attached");
    assert_eq!(novelties.list, vec![0]);

    let ms = history(&state);
    assert_eq!(ms.history_map.len(), 16);
    assert_eq!(ms.history_map[0], 1);
    assert!(ms.history_map[1..].iter().all(|c| *c == 0));
    assert_eq!(ms.num_covered_map_indexes, 1);
}

#[test]
fn second_identical_input_is_not_novel() {
    let mut state = coverage_state();
    let mut corpus = InMemoryCorpus::new();
    let mut events = SimpleEventManager::new();

    state
        .add_input(&mut corpus, &mut events, BytesInput::new(b"a".to_vec()))
        .unwrap();
    let before = history(&state);
    state
        .add_input(&mut corpus, &mut events, BytesInput::new(b"a".to_vec()))
        .unwrap();

    // All observed cells were already covered: nothing stored, history kept.
    assert_eq!(corpus.count(), 1);
    let after = history(&state);
    assert_eq!(after.history_map, before.history_map);
    assert_eq!(after.num_covered_map_indexes, 1);
}

#[test]
fn second_input_with_partial_novelty() {
    let mut state = coverage_state();
    let mut corpus = InMemoryCorpus::new();
    let mut events = SimpleEventManager::new();

    state
        .add_input(&mut corpus, &mut events, BytesInput::new(b"a".to_vec()))
        .unwrap();
    state
        .add_input(&mut corpus, &mut events, BytesInput::new(b"ab".to_vec()))
        .unwrap();

    assert_eq!(corpus.count(), 2);
    let tc = corpus.get(1);
    assert_eq!(tc.fitness(), 1);
    assert_eq!(tc.indexes_metadata().as_ref().unwrap().list, vec![0, 1]);
    // Only cell 1 was novel on the second run.
    assert_eq!(tc.novelties_metadata().as_ref().unwrap().list, vec![1]);
    let ms = history(&state);
    assert_eq!(&ms.history_map[..2], &[1, 1]);
    assert!(ms.history_map[2..].iter().all(|c| *c == 0));
    assert_eq!(ms.num_covered_map_indexes, 2);
}

#[test]
fn crash_goes_to_the_crash_corpus() {
    // The main state tracks coverage; the crash state's only feedback is
    // the crash feedback, feeding a separate corpus.
    let mut crash_state = StdState::new(scripted(), 0);
    crash_state.add_feedback(Feedback::Crash(CrashFeedback::new()));
    let mut crash_corpus = InMemoryCorpus::new();
    let mut events = SimpleEventManager::new();

    crash_state
        .add_input(&mut crash_corpus, &mut events, BytesInput::new(b"abcd".to_vec()))
        .unwrap();
    assert_eq!(crash_corpus.count(), 1);
    assert_eq!(crash_corpus.get(0).fitness(), 1);
    assert_eq!(
        crash_corpus.get(0).input().as_ref().unwrap().bytes,
        b"abcd".to_vec()
    );

    // An input that exits cleanly is not a crash.
    crash_state
        .add_input(&mut crash_corpus, &mut events, BytesInput::new(b"a".to_vec()))
        .unwrap();
    assert_eq!(crash_corpus.count(), 1);

    // A coverage state evaluating the same crash input updates only its own
    // history; the crash feedback keeps no history at all.
    let mut state = coverage_state();
    let mut corpus = InMemoryCorpus::new();
    state
        .add_input(&mut corpus, &mut events, BytesInput::new(b"abcd".to_vec()))
        .unwrap();
    assert_eq!(history(&state).num_covered_map_indexes, 4);
    assert!(crash_state.metadatas().is_empty());
}

#[test]
fn timeout_is_preserved_like_a_crash() {
    let mut timeout_state = StdState::new(scripted(), 0);
    timeout_state.add_feedback(Feedback::Timeout(TimeoutFeedback::new()));
    let mut timeout_corpus = InMemoryCorpus::new();
    let mut events = SimpleEventManager::new();

    timeout_state
        .add_input(
            &mut timeout_corpus,
            &mut events,
            BytesInput::new(vec![b'x'; 1000]),
        )
        .unwrap();
    assert_eq!(timeout_corpus.count(), 1);
    assert_eq!(
        timeout_corpus.get(0).input().as_ref().unwrap().bytes,
        vec![b'x'; 1000]
    );

    timeout_state
        .add_input(&mut timeout_corpus, &mut events, BytesInput::new(b"a".to_vec()))
        .unwrap();
    assert_eq!(timeout_corpus.count(), 1);
}

#[test]
fn discard_leaves_history_counter_and_corpus_alone() {
    let mut state = coverage_state();
    let mut corpus = InMemoryCorpus::new();
    let mut events = SimpleEventManager::new();

    state
        .add_input(&mut corpus, &mut events, BytesInput::new(b"a".to_vec()))
        .unwrap();
    let before = history(&state);
    let corpus_before = corpus.count();

    state.discard_input(&BytesInput::new(b"zz".to_vec())).unwrap();

    let after = history(&state);
    assert_eq!(after.history_map, before.history_map);
    assert_eq!(after.num_covered_map_indexes, before.num_covered_map_indexes);
    assert_eq!(corpus.count(), corpus_before);
    assert_eq!(state.executions(), 1);
}

#[test]
fn covered_count_agrees_with_history() {
    let mut state = coverage_state();
    let mut corpus = InMemoryCorpus::new();
    let mut events = SimpleEventManager::new();

    for input in [b"a".to_vec(), b"ab".to_vec(), b"abcd".to_vec(), b"a".to_vec()] {
        state
            .add_input(&mut corpus, &mut events, BytesInput::new(input))
            .unwrap();
        let ms = history(&state);
        let covered = ms.history_map.iter().filter(|c| **c != 0).count();
        assert_eq!(ms.num_covered_map_indexes, covered);
    }
}

#[test]
fn history_monotone_across_runs() {
    let mut state = coverage_state();
    let mut corpus = InMemoryCorpus::new();
    let mut events = SimpleEventManager::new();

    let mut covered_before: Vec<usize> = Vec::new();
    for input in [b"a".to_vec(), b"ab".to_vec(), b"abcd".to_vec()] {
        state
            .add_input(&mut corpus, &mut events, BytesInput::new(input))
            .unwrap();
        let ms = history(&state);
        for idx in &covered_before {
            assert!(ms.history_map[*idx] != 0);
        }
        covered_before = (0..ms.history_map.len())
            .filter(|i| ms.history_map[*i] != 0)
            .collect();
    }
}

#[test]
fn novelty_without_tracking_still_reported() {
    // With novelty tracking off the walk may stop early, but the verdict is
    // the same.
    let observer = CustomMapObserver::owned("signals", vec![0u8; 16]);
    let feedback = CustomMaxMapFeedback::with_tracking(&observer, false, false);
    let mut state = StdState::new(scripted(), 0);
    state.add_observer(Observer::MapObserver(observer));
    state.add_feedback(Feedback::MaxMap(feedback));
    let mut corpus = InMemoryCorpus::new();
    let mut events = SimpleEventManager::new();

    state
        .add_input(&mut corpus, &mut events, BytesInput::new(b"ab".to_vec()))
        .unwrap();
    assert_eq!(corpus.count(), 1);
    let tc = corpus.get(0);
    assert_eq!(tc.fitness(), 1);
    // Neither record is attached without tracking.
    assert!(tc.indexes_metadata().is_none());
    assert!(tc.novelties_metadata().is_none());
}

#[test]
fn history_grown_to_observer_length() {
    let observer = CustomMapObserver::owned("signals", vec![0u8; 16]);
    let mut ms = MapFeedbackMetadata::new(4);
    let mut feedback = CustomMaxMapFeedback::with_tracking(&observer, false, false);
    let interesting = feedback.is_interesting_default(&mut ms, &observer);
    assert!(!interesting);
    assert_eq!(ms.history_map.len(), 16);
    assert!(ms.history_map.iter().all(|c| *c == 0));
    assert_eq!(ms.num_covered_map_indexes, 0);
}

#[test]
fn empty_observer_is_never_interesting() {
    let observer = CustomMapObserver::new("empty");
    assert_eq!(observer.len(), 0);
    assert_eq!(observer.count_bytes(), 0);
    let h1 = observer.hash_simple();
    let h2 = observer.hash_simple();
    assert_eq!(h1, h2);
    let mut ms = MapFeedbackMetadata::new(0);
    let mut feedback = CustomMaxMapFeedback::with_tracking(&observer, true, true);
    assert!(!feedback.is_interesting_default(&mut ms, &observer));
}
