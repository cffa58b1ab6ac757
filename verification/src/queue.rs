//! The chunks that are still to be spoken, and the audio of those that are done.

use vstd::prelude::*;

use crate::book;
use crate::book_laws;
use crate::book::PageChunk;
use crate::errors::Failure;
use crate::mode::{ModeSettings, TtsBackend};

verus! {

/// Hands out each chunk once and keeps what was made of it. Workers that share
/// it may finish their chunks in any order.
pub struct SynthesisQueue<T> {
    order: Vec<usize>,
    next: usize,
    completed: usize,
    results: Vec<Option<T>>,
}

/// The number of chunks of which something was made.
pub open spec fn made<T>(results: Seq<Option<T>>) -> nat
    decreases results.len(),
{
    if results.len() == 0 {
        0
    } else if results.last() is Some {
        made(results.drop_last()) + 1
    } else {
        made(results.drop_last())
    }
}

impl<T> SynthesisQueue<T> {
    /// The order in which the chunks are handed out.
    pub closed spec fn order(&self) -> Seq<usize> {
        self.order@
    }

    /// The number of chunks that were handed out.
    pub closed spec fn handed_out(&self) -> nat {
        self.next as nat
    }

    /// The number of chunks that are done.
    pub closed spec fn done(&self) -> nat {
        self.completed as nat
    }

    /// What was made of each chunk.
    pub closed spec fn results(&self) -> Seq<Option<T>> {
        self.results@
    }

    /// Every chunk is handed out once, and what is done was handed out before.
    pub open spec fn wf(&self) -> bool {
        &&& self.order().len() == self.results().len() <= usize::MAX
        &&& self.order().no_duplicates()
        &&& forall|k: int|
            0 <= k < self.order().len() ==> (#[trigger] self.order()[k]) < self.order().len()
        &&& forall|i: int|
            0 <= i < self.order().len() ==> #[trigger] self.order().contains(i as usize)
        &&& self.handed_out() <= self.order().len()
        &&& self.done() == made(self.results())
        &&& forall|k: int|
            self.handed_out() <= k < self.order().len()
                ==> self.results()[#[trigger] self.order()[k] as int] is None
    }

    /// A queue of all chunks, in the order in which they are spoken.
    pub fn new(chunks: &Vec<PageChunk>, settings: ModeSettings) -> (r: Self)
        ensures
            r.wf(),
            r.order() == book::work_order(
                book::page_texts(chunks@),
                settings.initial_priority_pages as int,
            ),
            r.handed_out() == 0,
            r.done() == 0,
            r.results() == Seq::new(chunks@.len(), |i: int| None::<T>),
    {
        let order = book::prioritized_work_order(chunks, settings);
        let mut results: Vec<Option<T>> = Vec::new();
        let mut i: usize = 0;
        while i < chunks.len()
            invariant
                i <= chunks@.len(),
                results@ == Seq::new(i as nat, |k: int| None::<T>),
            decreases chunks@.len() - i,
        {
            results.push(None);
            i += 1;
            proof {
                assert(results@ =~= Seq::new(i as nat, |k: int| None::<T>));
            }
        }
        proof {
            book_laws::law_every_chunk_is_spoken_once(
                book::page_texts(chunks@),
                settings.initial_priority_pages as int,
            );
            lemma_none_made(results@);
        }
        SynthesisQueue { order, next: 0, completed: 0, results }
    }

    /// Hands out the next chunk.
    pub fn take_next(&mut self) -> (r: Option<usize>)
        requires
            old(self).wf(),
        ensures
            final(self).wf(),
            final(self).order() == old(self).order(),
            final(self).results() == old(self).results(),
            final(self).done() == old(self).done(),
            match r {
                Some(index) => {
                    &&& old(self).handed_out() < old(self).order().len()
                    &&& index == old(self).order()[old(self).handed_out() as int]
                    &&& final(self).handed_out() == old(self).handed_out() + 1
                    &&& index < old(self).results().len()
                    &&& old(self).results()[index as int] is None
                },
                None => {
                    &&& old(self).handed_out() == old(self).order().len()
                    &&& final(self).handed_out() == old(self).handed_out()
                },
            },
    {
        if self.next < self.order.len() {
            let index: usize = self.order[self.next];
            self.next = self.next + 1;
            Some(index)
        } else {
            None
        }
    }

    /// Keeps what was made of a chunk that was handed out. Returns the number
    /// of chunks that are done.
    pub fn finish(&mut self, index: usize, item: T) -> (r: usize)
        requires
            old(self).wf(),
            old(self).order().take(old(self).handed_out() as int).contains(index),
            old(self).results()[index as int] is None,
        ensures
            final(self).wf(),
            final(self).order() == old(self).order(),
            final(self).handed_out() == old(self).handed_out(),
            final(self).results() == old(self).results().update(index as int, Some(item)),
            final(self).done() == old(self).done() + 1,
            r == final(self).done(),
    {
        proof {
            let k = choose|k: int|
                0 <= k < self.handed_out() && self.order().take(self.handed_out() as int)[k]
                    == index;
            assert(self.order()[k] == index);
            lemma_one_more_made(self.results@, index as int, item);
            lemma_made_at_most(self.results@.update(index as int, Some(item)));
        }
        self.results.set(index, Some(item));
        self.completed = self.completed + 1;
        proof {
            assert forall|k: int| self.handed_out() <= k < self.order().len() implies self.results()[
            #[trigger] self.order()[k] as int] is None by {
                assert(self.order()[k] != index);
            }
        }
        self.completed
    }

    /// What was made of each chunk.
    pub fn into_results(self) -> (r: Vec<Option<T>>)
        ensures
            r@ == self.results(),
    {
        self.results
    }
}

/// Who speaks the chunks of a paper.
#[derive(Clone, Copy, Debug, PartialEq, Eq, Structural)]
pub struct SpeechPlan {
    pub worker_count: usize,
    /// One worker speaks all chunks, and tells of each before it is spoken.
    pub alone: bool,
}

/// Who speaks the chunks of a paper: no more workers than there are chunks. The
/// speech model with one worker needs no thread for it.
pub fn plan_speech(settings: ModeSettings, chunk_count: usize) -> (r: SpeechPlan)
    ensures
        r.worker_count == vstd::math::min(
            settings.worker_count as int,
            vstd::math::max(chunk_count as int, 1),
        ),
        r.alone == (settings.tts_backend is Kokoro && r.worker_count == 1),
{
    let worker_count: usize = settings.workers_for(chunk_count);
    let alone = match settings.tts_backend {
        TtsBackend::MacosSay => false,
        TtsBackend::Kokoro => worker_count == 1,
    };
    SpeechPlan { worker_count, alone }
}

/// What is said of a worker that panicked.
pub fn worker_panicked(backend: TtsBackend) -> (r: Failure)
    ensures
        match backend {
            TtsBackend::MacosSay => r is SpeechWorkerPanicked,
            TtsBackend::Kokoro => r is ModelWorkerPanicked,
        },
{
    match backend {
        TtsBackend::MacosSay => Failure::SpeechWorkerPanicked,
        TtsBackend::Kokoro => Failure::ModelWorkerPanicked,
    }
}

/// What was made of the chunks, in the order of the text. Fails at the first
/// chunk of which nothing was made.
pub fn collect_synthesized_results<T>(results: Vec<Option<T>>) -> (r: Result<Vec<T>, Failure>)
    ensures
        match r {
            Ok(items) => {
                &&& items@.len() == results@.len()
                &&& forall|i: int|
                    0 <= i < items@.len() ==> results@[i] == Some(#[trigger] items@[i])
            },
            Err(Failure::ChunkMissing { number }) => {
                &&& 1 <= number <= results@.len()
                &&& results@[number - 1] is None
                &&& forall|i: int| 0 <= i < number - 1 ==> (#[trigger] results@[i]) is Some
            },
            Err(_) => false,
        },
{
    let ghost all = results@;
    let count: usize = results.len();
    let mut items: Vec<T> = Vec::new();
    for result in it: results
        invariant
            it.seq() == all,
            items@.len() == it.index(),
            it.index() <= all.len() == count,
            forall|i: int| 0 <= i < items@.len() ==> all[i] == Some(#[trigger] items@[i]),
    {
        match result {
            Some(item) => {
                items.push(item);
            },
            None => {
                proof {
                    assert forall|i: int| 0 <= i < items@.len() implies (
                    #[trigger] all[i]) is Some by {
                        assert(all[i] == Some(items@[i]));
                    }
                }
                return Err(Failure::ChunkMissing { number: items.len() + 1 });
            },
        }
    }
    Ok(items)
}

// ---------------------------------------------------------------------------
// Laws
// ---------------------------------------------------------------------------

proof fn lemma_none_made<T>(results: Seq<Option<T>>)
    requires
        forall|i: int| 0 <= i < results.len() ==> (#[trigger] results[i]) is None,
    ensures
        made(results) == 0,
    decreases results.len(),
{
    if results.len() > 0 {
        lemma_none_made(results.drop_last());
    }
}

proof fn lemma_made_at_most<T>(results: Seq<Option<T>>)
    ensures
        made(results) <= results.len(),
    decreases results.len(),
{
    if results.len() > 0 {
        lemma_made_at_most(results.drop_last());
    }
}

proof fn lemma_one_more_made<T>(results: Seq<Option<T>>, index: int, item: T)
    requires
        0 <= index < results.len(),
        results[index] is None,
    ensures
        made(results.update(index, Some(item))) == made(results) + 1,
    decreases results.len(),
{
    let after = results.update(index, Some(item));
    if index == results.len() - 1 {
        assert(after.drop_last() =~= results.drop_last());
    } else {
        assert(after.drop_last() =~= results.drop_last().update(index, Some(item)));
        lemma_one_more_made(results.drop_last(), index, item);
    }
}

/// No chunk is handed out twice: two calls that hand out a chunk hand out
/// different ones.
pub proof fn law_no_chunk_is_handed_out_twice<T>(queue: SynthesisQueue<T>, a: int, b: int)
    requires
        queue.wf(),
        0 <= a < b < queue.order().len(),
    ensures
        queue.order()[a] != queue.order()[b],
{
}

/// Once as many chunks are done as there are, there is something of each of
/// them: no chunk of the text is left out of the audiobook.
pub proof fn law_all_done_means_none_missing<T>(queue: SynthesisQueue<T>)
    requires
        queue.wf(),
        queue.done() == queue.order().len(),
    ensures
        forall|i: int| 0 <= i < queue.results().len() ==> (#[trigger] queue.results()[i]) is Some,
{
    lemma_all_made(queue.results());
}

proof fn lemma_all_made<T>(results: Seq<Option<T>>)
    requires
        made(results) == results.len(),
    ensures
        forall|i: int| 0 <= i < results.len() ==> (#[trigger] results[i]) is Some,
    decreases results.len(),
{
    if results.len() > 0 {
        lemma_made_at_most(results.drop_last());
        lemma_all_made(results.drop_last());
        assert forall|i: int| 0 <= i < results.len() implies (#[trigger] results[i]) is Some by {
            if i < results.len() - 1 {
                assert(results.drop_last()[i] == results[i]);
            }
        }
    }
}

/// Once all chunks were handed out and each of them was finished, there is
/// something of each of them.
pub proof fn law_what_was_handed_out_is_everything<T>(queue: SynthesisQueue<T>)
    requires
        queue.wf(),
        queue.handed_out() == queue.order().len(),
        forall|k: int|
            0 <= k < queue.handed_out() ==> queue.results()[#[trigger] queue.order()[k] as int] is Some,
    ensures
        forall|i: int| 0 <= i < queue.results().len() ==> (#[trigger] queue.results()[i]) is Some,
{
    assert forall|i: int| 0 <= i < queue.results().len() implies (
    #[trigger] queue.results()[i]) is Some by {
        assert(queue.order().contains(i as usize));
        let k = choose|k: int| 0 <= k < queue.order().len() && queue.order()[k] == i as usize;
        assert(queue.results()[queue.order()[k] as int] is Some);
    }
}

/// The chunks of which something was made are counted one by one.
pub proof fn law_finished_chunks_are_counted<T>(a: Seq<Option<T>>, b: Seq<Option<T>>, item: T)
    ensures
        made(a + b) == made(a) + made(b),
        made(seq![Some(item)]) == 1,
        made(seq![None::<T>]) == 0,
    decreases b.len(),
{
    let one = seq![Some(item)];
    let none = seq![None::<T>];
    assert(one.drop_last().len() == 0);
    assert(none.drop_last().len() == 0);
    assert(made(one.drop_last()) == 0);
    assert(made(none.drop_last()) == 0);
    if b.len() == 0 {
        assert(a + b =~= a);
    } else {
        assert((a + b).drop_last() =~= a + b.drop_last());
        law_finished_chunks_are_counted(a, b.drop_last(), item);
    }
}

} // verus!
