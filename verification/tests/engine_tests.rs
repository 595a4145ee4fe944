use fuzzcore::corpus::{InMemoryCorpus, Testcase};
use fuzzcore::engines::{stats_due, Engine, StdEngine, StdState};
use fuzzcore::events::SimpleEventManager;
use fuzzcore::executors::NoopExecutor;
use fuzzcore::inputs::BytesInput;
use fuzzcore::mutators::{Mutation, StdScheduledMutator};
use fuzzcore::stages::{Stage, StdMutationalStage};
use fuzzcore::utils::StdRand;

#[test]
fn test_engine() {
    let mut rand = StdRand::new(0);

    let mut corpus = InMemoryCorpus::new();
    let testcase = Testcase::new(BytesInput::new(vec![0; 4]));
    corpus.add(testcase);

    let executor = NoopExecutor::new();
    let mut state = StdState::new(executor, 0);

    let mut events_manager = SimpleEventManager::new();

    let mut engine = StdEngine::new();
    let mut mutator = StdScheduledMutator::new();
    mutator.add_mutation(Mutation::Bitflip);
    let stage = StdMutationalStage::new(mutator);
    engine.add_stage(Stage::Mutational(stage));

    for i in 0..1000 {
        engine
            .fuzz_one(&mut rand, &mut state, &mut corpus, &mut events_manager)
            .expect(&format!("Error in iter {}", i));
    }
}

#[test]
fn fuzz_one_reports_empty_corpus() {
    let mut rand = StdRand::new(7);
    let mut corpus = InMemoryCorpus::new();
    let mut state = StdState::new(NoopExecutor::new(), 0);
    let mut events = SimpleEventManager::new();
    let mut engine = StdEngine::new();
    let r = engine.fuzz_one(&mut rand, &mut state, &mut corpus, &mut events);
    assert_eq!(r, Err(fuzzcore::Error::Empty));
}

#[test]
fn reset_idempotence_thousand_iterations() {
    // A no-op harness and a no-op mutator: a thousand iterations leave the
    // corpus at the seed alone and count exactly one execution each.
    let mut rand = StdRand::new(0);
    let mut corpus = InMemoryCorpus::new();
    corpus.add(Testcase::new(BytesInput::new(vec![1, 2, 3])));

    let observer = fuzzcore::map_observer::CustomMapObserver::owned("signals", vec![0u8; 16]);
    let feedback = fuzzcore::max_map_feedback::CustomMaxMapFeedback::new(&observer);
    let mut state = StdState::new(NoopExecutor::new(), 0);
    state.add_observer(fuzzcore::observer::Observer::MapObserver(observer));
    state.add_feedback(fuzzcore::feedback::Feedback::MaxMap(feedback));

    let mut events = SimpleEventManager::new();
    let mut engine = StdEngine::new();
    // A mutator with no registered mutations leaves every candidate as it is.
    let stage = StdMutationalStage::new(StdScheduledMutator::new());
    engine.add_stage(Stage::Mutational(stage));

    for _ in 0..1000 {
        engine
            .fuzz_one(&mut rand, &mut state, &mut corpus, &mut events)
            .unwrap();
    }
    assert_eq!(state.executions(), 1000);
    assert_eq!(corpus.count(), 1);
    // The history map saw only all-initial observations: nothing covered.
    for entry in state.metadatas().iter() {
        let fuzzcore::engines::StateMetadataValue::MapFeedback(ms) = &entry.value;
        assert_eq!(ms.num_covered_map_indexes, 0);
        assert!(ms.history_map.iter().all(|c| *c == 0));
    }
}

#[test]
fn executions_over_seconds_formula() {
    let mut state = StdState::new(NoopExecutor::new(), 1000);
    state.set_executions(500);
    // During the first second the divisor is one: the rate is the count.
    assert_eq!(state.executions_over_seconds(1000), 500);
    assert_eq!(state.executions_over_seconds(1999), 500);
    assert_eq!(state.executions_over_seconds(3000), 250);
    // A clock reading before the start yields zero.
    assert_eq!(state.executions_over_seconds(500), 0);
    state.set_start_time(0);
    assert_eq!(state.start_time(), 0);
    assert_eq!(state.executions_over_seconds(5000), 100);
}

#[test]
fn stats_interval() {
    assert!(!stats_due(1000, 1000));
    assert!(!stats_due(1000, 7000));
    assert!(stats_due(1000, 7001));
    assert!(!stats_due(7001, 1000));
}

#[test]
fn generate_initial_inputs_seeds_corpus() {
    let mut rand = StdRand::new(3);
    let mut corpus = InMemoryCorpus::new();
    let observer = fuzzcore::map_observer::CustomMapObserver::owned("gen", vec![0u8; 4]);
    let feedback = fuzzcore::feedback::CustomFeedback::new("always");
    let _ = feedback.name();
    let mut state = StdState::new(NoopExecutor::new(), 0);
    state.add_observer(fuzzcore::observer::Observer::MapObserver(observer));
    state.add_feedback(fuzzcore::feedback::Feedback::Always(feedback));
    let mut events = SimpleEventManager::new();
    let mut generator = fuzzcore::generators::RandBytesGenerator::new(8);
    fuzzcore::engines::generate_initial_inputs(
        &mut rand,
        &mut state,
        &mut corpus,
        &mut generator,
        &mut events,
        5,
    )
    .unwrap();
    // The always-interested feedback keeps every generated seed.
    assert_eq!(corpus.count(), 5);
    assert_eq!(state.executions(), 5);
    for k in 0..5 {
        assert!(corpus.get(k).input().as_ref().unwrap().len() <= 8);
        assert_eq!(corpus.get(k).fitness(), 1);
    }
    // Each seed fired a load event, in order; processing drains the queue.
    let drained = events.process();
    assert!(drained.len() >= 5);
    for i in 0..5usize {
        assert!(drained.iter().any(|e| matches!(
            e,
            fuzzcore::events::Event::LoadInitial { index } if *index == i
        )));
    }
    assert_eq!(events.pending_count(), 0);
}
