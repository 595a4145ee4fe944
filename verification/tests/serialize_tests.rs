use fuzzcore::corpus::{InMemoryCorpus, Scheduler, Testcase, TestcaseMetadata};
use fuzzcore::inputs::BytesInput;
use fuzzcore::max_map_feedback::{MapIndexesMetadata, MapNoveltiesMetadata};
use fuzzcore::serialize::{decode_corpus, decode_testcase, encode_corpus, encode_testcase};
use fuzzcore::utils::StdRand;

fn rich_testcase() -> Testcase {
    let mut tc = Testcase::new(BytesInput::new(b"hello".to_vec()));
    tc.set_fitness(3);
    tc.add_metadata(TestcaseMetadata::Indexes(MapIndexesMetadata::new(vec![
        0, 2, 5,
    ])));
    tc.add_metadata(TestcaseMetadata::Novelties(MapNoveltiesMetadata::new(vec![
        2, 5,
    ])));
    tc
}

#[test]
fn testcase_round_trip() {
    let tc = rich_testcase();
    let bytes = encode_testcase(&tc);
    let (decoded, end) = decode_testcase(&bytes, 0).expect("decodes");
    assert_eq!(end, bytes.len());
    assert_eq!(decoded, tc);
}

#[test]
fn bare_testcase_round_trip() {
    let tc = Testcase::new(BytesInput::new(vec![]));
    let bytes = encode_testcase(&tc);
    let (decoded, end) = decode_testcase(&bytes, 0).expect("decodes");
    assert_eq!(end, bytes.len());
    assert_eq!(decoded, tc);
}

#[test]
fn truncated_testcase_is_rejected() {
    let tc = rich_testcase();
    let mut bytes = encode_testcase(&tc);
    bytes.pop();
    assert!(decode_testcase(&bytes, 0).is_none());
    assert!(decode_testcase(&vec![], 0).is_none());
}

#[test]
fn corpus_round_trip_preserves_observable_operations() {
    let mut corpus = InMemoryCorpus::with_scheduler(Scheduler::Queue { pos: 1 });
    corpus.add(rich_testcase());
    corpus.add(Testcase::new(BytesInput::new(b"second".to_vec())));
    corpus.add(Testcase::new(BytesInput::new(vec![0xff; 3])));

    let bytes = encode_corpus(&corpus);
    let mut reloaded = decode_corpus(&bytes).expect("decodes");

    assert_eq!(reloaded.count(), corpus.count());
    assert_eq!(reloaded.scheduler(), corpus.scheduler());
    for k in 0..corpus.count() {
        assert_eq!(reloaded.get(k), corpus.get(k));
    }

    // The reloaded corpus schedules exactly as the saved one would.
    let mut rand1 = StdRand::new(42);
    let mut rand2 = StdRand::new(42);
    for _ in 0..5 {
        assert_eq!(corpus.next(&mut rand1), reloaded.next(&mut rand2));
    }
}

#[test]
fn random_scheduler_round_trip() {
    let mut corpus = InMemoryCorpus::with_scheduler(Scheduler::Random);
    corpus.add(Testcase::new(BytesInput::new(b"only".to_vec())));
    let bytes = encode_corpus(&corpus);
    let reloaded = decode_corpus(&bytes).expect("decodes");
    assert_eq!(reloaded.scheduler(), Scheduler::Random);
    assert_eq!(reloaded.count(), 1);
}

#[test]
fn corrupted_corpus_is_rejected() {
    let mut corpus = InMemoryCorpus::new();
    corpus.add(rich_testcase());
    let mut bytes = encode_corpus(&corpus);
    bytes.truncate(bytes.len() - 2);
    assert!(decode_corpus(&bytes).is_none());
    assert!(decode_corpus(&vec![7]).is_none());
}
