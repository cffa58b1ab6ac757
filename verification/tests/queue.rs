use paper2voice::book::PageChunk;
use paper2voice::errors::Failure;
use paper2voice::mode::{ModeSettings, TtsBackend};
use paper2voice::queue::{
    collect_synthesized_results, plan_speech, worker_panicked, SpeechPlan, SynthesisQueue,
};

fn chunks_on(page_numbers: &[usize]) -> Vec<PageChunk> {
    page_numbers
        .iter()
        .map(|n| PageChunk { text: "x".to_string(), page_number: *n })
        .collect()
}

#[test]
fn chunks_are_handed_out_once_and_collected_in_order() {
    let settings = ModeSettings::new("super_quick", 900, Some(4));
    let mut queue = SynthesisQueue::new(&chunks_on(&[4, 1, 9, 2]), settings);
    let mut taken = Vec::new();
    while let Some(index) = queue.take_next() {
        taken.push(index);
    }
    assert_eq!(taken, vec![1, 3, 0, 2]);
    assert_eq!(queue.take_next(), None);
    for (k, index) in [2, 0, 3, 1].into_iter().enumerate() {
        assert_eq!(queue.finish(index, format!("audio {}", index)), k + 1);
    }
    let results = collect_synthesized_results(queue.into_results()).unwrap();
    assert_eq!(results, vec!["audio 0", "audio 1", "audio 2", "audio 3"]);
}

#[test]
fn the_first_missing_chunk_is_named() {
    let settings = ModeSettings::new("fast_export", 900, Some(4));
    let mut queue = SynthesisQueue::new(&chunks_on(&[1, 1, 1]), settings);
    while queue.take_next().is_some() {}
    assert_eq!(queue.finish(0, 'a'), 1);
    assert_eq!(queue.finish(2, 'c'), 2);
    let missing = collect_synthesized_results(queue.into_results());
    assert!(matches!(missing, Err(Failure::ChunkMissing { number: 2 })));
}

#[test]
fn an_empty_queue_has_nothing() {
    let settings = ModeSettings::new("quality", 900, None);
    let mut queue: SynthesisQueue<u8> = SynthesisQueue::new(&chunks_on(&[]), settings);
    assert_eq!(queue.take_next(), None);
    assert_eq!(collect_synthesized_results(queue.into_results()).unwrap(), Vec::<u8>::new());
}

#[test]
fn workers_are_planned() {
    let quality = ModeSettings::new("quality", 900, Some(1));
    assert_eq!(plan_speech(quality, 9), SpeechPlan { worker_count: 1, alone: true });
    let fast = ModeSettings::new("fast_export", 900, Some(5));
    assert_eq!(plan_speech(fast, 9), SpeechPlan { worker_count: 4, alone: false });
    assert_eq!(plan_speech(fast, 1), SpeechPlan { worker_count: 1, alone: true });
    let quick = ModeSettings::new("super_quick", 900, Some(5));
    assert_eq!(plan_speech(quick, 1), SpeechPlan { worker_count: 1, alone: false });
}

#[test]
fn panics_of_workers_are_told() {
    assert_eq!(
        worker_panicked(TtsBackend::MacosSay).message(),
        "A macOS speech worker panicked."
    );
    assert_eq!(worker_panicked(TtsBackend::Kokoro).message(), "A TTS worker panicked.");
}
