use fuzzcore::corpus::{InMemoryCorpus, Scheduler, Testcase};
use fuzzcore::engines::{StateMetadata, StateMetadataValue, StdState};
use fuzzcore::events::{AggregatorOps, Event, SimpleEventManager, UserStatsValue};
use fuzzcore::executors::{bytes_eq, ExitKind, NoopExecutor, ScriptedExecutor, ScriptedRule};
use fuzzcore::inputs::BytesInput;
use fuzzcore::map_observer::CustomMapObserver;
use fuzzcore::max_map_feedback::{
    create_stats_name, CustomMapFeedback, HasRefCnt, MapFeedbackMetadata, MapIndexesMetadata,
    MapNoveltiesMetadata,
};
use fuzzcore::mutators::{mutation_bitflip, Mutation, StdScheduledMutator};
use fuzzcore::utils::StdRand;
use fuzzcore::Error;

#[test]
fn rand_is_deterministic_and_bounded() {
    let mut a = StdRand::new(123);
    let mut b = StdRand::new(123);
    for _ in 0..100 {
        assert_eq!(a.next(), b.next());
    }
    for _ in 0..100 {
        let v = a.below(7);
        assert!(v < 7);
    }
    // A zero seed is replaced; the stream is not stuck at zero.
    let mut z = StdRand::new(0);
    assert_ne!(z.next(), 0);
}

#[test]
fn queue_scheduler_round_robin() {
    let mut corpus = InMemoryCorpus::new();
    let mut rand = StdRand::new(1);
    assert_eq!(corpus.next(&mut rand), Err(Error::Empty));
    corpus.add(Testcase::new(BytesInput::new(vec![1])));
    corpus.add(Testcase::new(BytesInput::new(vec![2])));
    corpus.add(Testcase::new(BytesInput::new(vec![3])));
    assert_eq!(corpus.next(&mut rand), Ok(0));
    assert_eq!(corpus.next(&mut rand), Ok(1));
    assert_eq!(corpus.next(&mut rand), Ok(2));
    assert_eq!(corpus.next(&mut rand), Ok(0));
}

#[test]
fn random_scheduler_stays_in_range() {
    let mut corpus = InMemoryCorpus::with_scheduler(Scheduler::Random);
    for k in 0..5 {
        corpus.add(Testcase::new(BytesInput::new(vec![k])));
    }
    let mut rand = StdRand::new(99);
    for _ in 0..50 {
        let idx = corpus.next(&mut rand).unwrap();
        assert!(idx < 5);
    }
}

#[test]
fn corpus_load_testcase_in_memory() {
    let mut corpus = InMemoryCorpus::new();
    let idx = corpus.add(Testcase::new(BytesInput::new(vec![9])));
    assert_eq!(idx, 0);
    assert_eq!(corpus.load_testcase(0), Ok(()));
    corpus.get_mut(0).set_fitness(4);
    assert_eq!(corpus.get(0).fitness(), 4);
}

#[test]
fn metadata_records() {
    let mut indexes = MapIndexesMetadata::new(vec![1, 2]);
    assert_eq!(indexes.refcnt(), 0);
    *indexes.refcnt_mut() += 2;
    assert_eq!(indexes.refcnt(), 2);
    assert_eq!(indexes.name(), "MapIndexesMetadata");

    let novelties = MapNoveltiesMetadata::new(vec![3]);
    assert_eq!(novelties.list, vec![3]);
    assert_eq!(novelties.name(), "MapNoveltiesMetadata");

    let history = MapFeedbackMetadata::new(4);
    assert_eq!(history.name(), "MapFeedbackMetadata");
    assert_eq!(history.history_map, vec![0; 4]);
    assert_eq!(history.num_covered_map_indexes, 0);
}

#[test]
fn history_metadata_reset_and_counting() {
    let mut ms = MapFeedbackMetadata::with_history_map(vec![0, 2, 0, 5], 0);
    assert_eq!(ms.num_covered_map_indexes, 2);
    ms.reset_with_value(7).unwrap();
    assert_eq!(ms.history_map, vec![7; 4]);
    assert_eq!(ms.num_covered_map_indexes, 0);
    ms.reset().unwrap();
    assert_eq!(ms.history_map, vec![0; 4]);
    assert_eq!(ms.num_covered_map_indexes, 0);

    let against_seven = MapFeedbackMetadata::with_history_map(vec![7, 7, 1], 7);
    assert_eq!(against_seven.num_covered_map_indexes, 1);
}

#[test]
fn stats_name_lowercases_unless_already_lowercase() {
    assert_eq!(create_stats_name(&String::from("signals")), "signals");
    assert_eq!(create_stats_name(&String::from("SIGNALS")), "signals");
    assert_eq!(create_stats_name(&String::from("SharedMem")), "sharedmem");
}

#[test]
fn feedback_names_and_references() {
    let observer = CustomMapObserver::owned("MapA", vec![0; 4]);
    let feedback = CustomMapFeedback::<
        fuzzcore::max_map_feedback::MaxReducer,
        fuzzcore::max_map_feedback::DifferentIsNovel,
    >::new(&observer);
    assert_eq!(feedback.name().as_str(), "MapA");
    assert_eq!(feedback.observer_ref().as_str(), "MapA");

    let named = fuzzcore::max_map_feedback::CustomMaxMapFeedback::with_name("second", &observer);
    assert_eq!(named.name().as_str(), "second");
    assert_eq!(named.observer_ref().as_str(), "MapA");
}

#[test]
fn append_fires_covered_ratio_event() {
    let observer = CustomMapObserver::owned("signals", vec![0u8; 8]);
    let feedback = CustomMapFeedback::with_tracking(&observer, false, false);
    let mut executor = ScriptedExecutor::new();
    executor.add_rule(ScriptedRule {
        pattern: b"a".to_vec(),
        writes: vec![fuzzcore::executors::MapWrite { index: 1, value: 9 }],
        exit_kind: ExitKind::Okay,
    });
    let mut state = StdState::new(executor, 0);
    state.add_observer(fuzzcore::observer::Observer::MapObserver(observer));
    state.add_feedback(fuzzcore::feedback::Feedback::MaxMap(feedback));
    let mut corpus = InMemoryCorpus::new();
    let mut events = SimpleEventManager::new();
    state
        .add_input(&mut corpus, &mut events, BytesInput::new(b"a".to_vec()))
        .unwrap();
    let drained = events.process();
    let mut saw_ratio = false;
    let mut saw_new_testcase = false;
    for event in drained {
        match event {
            Event::UpdateUserStats { name, value, op } => {
                assert_eq!(name, "signals");
                assert_eq!(value, UserStatsValue::Ratio(1, 8));
                assert_eq!(op, AggregatorOps::Avg);
                saw_ratio = true;
            }
            Event::NewTestcase { index, fitness } => {
                assert_eq!(index, 0);
                assert_eq!(fitness, 1);
                saw_new_testcase = true;
            }
            _ => {}
        }
    }
    assert!(saw_ratio);
    assert!(saw_new_testcase);
}

#[test]
fn missing_observer_reference_is_fatal() {
    let observer = CustomMapObserver::owned("present", vec![0; 4]);
    let feedback = fuzzcore::max_map_feedback::CustomMaxMapFeedback::with_name("other", &observer);
    let mut state = StdState::new(NoopExecutor::new(), 0);
    // The feedback's observer reference is "present", but no observer is
    // registered at all.
    state.add_feedback(fuzzcore::feedback::Feedback::MaxMap(feedback));
    let mut corpus = InMemoryCorpus::new();
    let mut events = SimpleEventManager::new();
    let r = state.add_input(&mut corpus, &mut events, BytesInput::new(vec![1]));
    assert_eq!(r, Err(Error::KeyNotFound));
}

#[test]
fn bitflip_flips_exactly_one_bit() {
    let mut rand = StdRand::new(5);
    let mut input = BytesInput::new(vec![0b0000_0000, 0b1111_1111]);
    mutation_bitflip(&mut rand, &mut input).unwrap();
    let ones: u32 = input.bytes.iter().map(|b| b.count_ones()).sum();
    // One bit moved: the eight set bits became seven or nine.
    assert!(ones == 7 || ones == 9);
    assert_eq!(input.len(), 2);

    let mut empty = BytesInput::new(vec![]);
    mutation_bitflip(&mut rand, &mut empty).unwrap();
    assert_eq!(empty.len(), 0);
}

#[test]
fn scheduled_mutator_without_mutations_is_identity() {
    let mut mutator = StdScheduledMutator::new();
    let mut rand = StdRand::new(9);
    let mut input = BytesInput::new(vec![1, 2, 3]);
    mutator.mutate(&mut rand, &mut input).unwrap();
    assert_eq!(input.bytes, vec![1, 2, 3]);
    mutator.add_mutation(Mutation::Bitflip);
    mutator.mutate(&mut rand, &mut input).unwrap();
    assert_ne!(input.bytes, vec![1, 2, 3]);
    assert_eq!(input.len(), 3);
}

#[test]
fn scripted_executor_first_match_wins() {
    let mut executor = ScriptedExecutor::new();
    executor.add_rule(ScriptedRule {
        pattern: b"k".to_vec(),
        writes: vec![],
        exit_kind: ExitKind::Crash,
    });
    executor.add_rule(ScriptedRule {
        pattern: b"k".to_vec(),
        writes: vec![],
        exit_kind: ExitKind::Oom,
    });
    let run = executor.run_scripted(&BytesInput::new(b"k".to_vec()));
    assert_eq!(run.exit_kind, ExitKind::Crash);
    let fallthrough = executor.run_scripted(&BytesInput::new(b"zzz".to_vec()));
    assert_eq!(fallthrough.exit_kind, ExitKind::Okay);
    assert!(fallthrough.writes.is_empty());
}

#[test]
fn byte_comparison() {
    assert!(bytes_eq(&vec![1, 2], &vec![1, 2]));
    assert!(!bytes_eq(&vec![1, 2], &vec![1, 3]));
    assert!(!bytes_eq(&vec![1, 2], &vec![1, 2, 3]));
    assert!(bytes_eq(&vec![], &vec![]));
}

#[test]
fn error_descriptions() {
    assert_eq!(Error::Empty.description(), "empty container");
    assert_eq!(Error::KeyNotFound.description(), "key not found");
}

#[test]
fn add_metadata_replaces_by_name() {
    let mut state: StdState<NoopExecutor> = StdState::new(NoopExecutor::new(), 0);
    state.add_metadata(
        &String::from("hist"),
        StateMetadataValue::MapFeedback(MapFeedbackMetadata::new(2)),
    );
    state.add_metadata(
        &String::from("hist"),
        StateMetadataValue::MapFeedback(MapFeedbackMetadata::new(5)),
    );
    assert_eq!(state.metadatas().len(), 1);
    let StateMetadataValue::MapFeedback(ms) = &state.metadatas()[0].value;
    assert_eq!(ms.history_map.len(), 5);
}
