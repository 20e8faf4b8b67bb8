//! The download pool's shared state and decisions. Workers drain a
//! shared queue one pop at a time under mutual exclusion; each pop is
//! one atomic step of `pop_task`, so the combined hand-out order over
//! all workers is `pop_order` of the initial list, whatever the
//! interleaving. Per segment, `plan_segment` decides between skipping
//! (idempotent resume) and fetching, and `next_fetch_step` fixes how
//! each fetch outcome is handled.

use crate::m3u8_download::{basename_spec, resolve_spec, M3U8Download};
use crate::text::contains_str;
use vstd::prelude::*;

verus! {

/// The shared list of pending segment URLs, drained once per run.
pub struct TaskQueue {
    pub tasks: Vec<String>,
}

/// The order in which successive pops hand the items out: last first.
pub open spec fn pop_order(tasks: Seq<String>) -> Seq<String> {
    tasks.reverse()
}

impl TaskQueue {
    /// Fill the queue once, from the parsed segment list.
    pub fn new(tasks: Vec<String>) -> (q: TaskQueue)
        ensures
            q.tasks@ == tasks@,
    {
        TaskQueue { tasks }
    }

    /// One atomic hand-out: remove and return the last pending URL, or
    /// report the queue empty and leave it unchanged. A worker that
    /// receives `None` terminates.
    pub fn pop_task(&mut self) -> (r: Option<String>)
        ensures
            old(self).tasks@.len() == 0 ==> r is None && final(self).tasks@ == old(self).tasks@,
            old(self).tasks@.len() > 0 ==> r == Some(old(self).tasks@.last())
                && final(self).tasks@ == old(self).tasks@.drop_last(),
    {
        let r = self.tasks.pop();
        proof {
            if old(self).tasks@.len() > 0 {
                assert(old(self).tasks@.subrange(0, old(self).tasks@.len() - 1) =~= old(
                    self,
                ).tasks@.drop_last());
            }
        }
        r
    }

    /// Pop until empty, in one control flow: the hand-out order every
    /// run of the pool realizes collectively, here realized alone.
    pub fn drain_all(&mut self) -> (r: Vec<String>)
        ensures
            final(self).tasks@.len() == 0,
            r@ == pop_order(old(self).tasks@),
    {
        let mut r: Vec<String> = Vec::new();
        let mut done = false;
        proof {
            assert(r@ + old(self).tasks@.reverse() =~= old(self).tasks@.reverse());
        }
        while !done
            invariant
                old(self).tasks@.reverse() == r@ + self.tasks@.reverse(),
                done ==> self.tasks@.len() == 0,
            decreases self.tasks@.len() + (if done {
                0int
            } else {
                1int
            }),
        {
            let ghost pre = self.tasks@;
            match self.pop_task() {
                None => {
                    done = true;
                },
                Some(t) => {
                    r.push(t);
                    proof {
                        assert(pre.reverse() =~= seq![pre.last()] + pre.drop_last().reverse());
                        assert((r@.drop_last() + seq![pre.last()]) + pre.drop_last().reverse()
                            =~= r@.drop_last() + (seq![pre.last()] + pre.drop_last().reverse()));
                        assert(r@ =~= r@.drop_last() + seq![pre.last()]);
                    }
                },
            }
        }
        proof {
            assert(self.tasks@.reverse() =~= Seq::<String>::empty());
            assert(r@ + Seq::<String>::empty() =~= r@);
        }
        r
    }
}

/// Draining the queue attempts every segment exactly once over all
/// workers combined: the hand-out order carries the same multiset as
/// the parsed list, and distinct URLs are never handed out twice.
pub proof fn lemma_pool_attempts_each_once(tasks: Seq<String>)
    ensures
        pop_order(tasks).to_multiset() == tasks.to_multiset(),
        pop_order(tasks).len() == tasks.len(),
        tasks.no_duplicates() ==> pop_order(tasks).no_duplicates(),
{
    tasks.lemma_reverse_to_multiset();
    assert(pop_order(tasks).to_multiset() =~= tasks.to_multiset());
    if tasks.no_duplicates() {
        assert forall|i: int, j: int|
            0 <= i < j < pop_order(tasks).len() implies pop_order(tasks)[i] != pop_order(
            tasks,
        )[j] by {
            assert(pop_order(tasks)[i] == tasks[tasks.len() - 1 - i]);
            assert(pop_order(tasks)[j] == tasks[tasks.len() - 1 - j]);
        }
    }
}

/// What to do for one popped segment URL.
pub enum SegmentPlan {
    /// Nothing to fetch: the URL is empty, or its local file already
    /// exists. No network request is made.
    AlreadyDone,
    /// Fetch `url` and store the body under `name` in the output
    /// directory.
    Fetch { url: String, name: String },
}

/// Decide one segment: skip an empty URL, skip a URL whose local name
/// is already among `files` on disk, and otherwise fetch its resolved
/// URL. The skip paths are what make a re-run issue no new requests.
pub fn plan_segment(base_url: &str, url: &str, files: &Vec<String>) -> (p: SegmentPlan)
    ensures
        (match p {
            SegmentPlan::AlreadyDone => url@.len() == 0 || contains_str(
                files@,
                basename_spec(url@),
            ),
            SegmentPlan::Fetch { url: u, name } => url@.len() > 0 && !contains_str(
                files@,
                basename_spec(url@),
            ) && u@ == resolve_spec(base_url@, url@) && name@ == basename_spec(url@),
        }),
{
    if url.unicode_len() == 0 {
        return SegmentPlan::AlreadyDone;
    }
    let name = M3U8Download::parse_name(url);
    if crate::text::vec_contains_string(files, &name) {
        return SegmentPlan::AlreadyDone;
    }
    let resolved = M3U8Download::parse_url(base_url, url);
    SegmentPlan::Fetch { url: resolved, name }
}

/// Decide the key fetch: nothing to do when the local key file is
/// already present, else fetch the resolved key URI and store it under
/// the fixed local key name.
pub fn plan_key(base_url: &str, key_uri: &str, key_file_exists: bool) -> (p: SegmentPlan)
    ensures
        (match p {
            SegmentPlan::AlreadyDone => key_file_exists,
            SegmentPlan::Fetch { url: u, name } => !key_file_exists && u@ == resolve_spec(
                base_url@,
                key_uri@,
            ) && name@ == key_name_spec(),
        }),
{
    if key_file_exists {
        return SegmentPlan::AlreadyDone;
    }
    let resolved = M3U8Download::parse_url(base_url, key_uri);
    proof {
        reveal_strlit("key.m3u8");
        assert("key.m3u8"@ =~= key_name_spec());
    }
    SegmentPlan::Fetch { url: resolved, name: String::from_str("key.m3u8") }
}

/// The fixed local file name the key is stored under.
pub open spec fn key_name_spec() -> Seq<char> {
    seq!['k', 'e', 'y', '.', 'm', '3', 'u', '8']
}

/// What the network reported for one fetch attempt of a segment.
pub enum FetchEvent {
    /// The request itself failed (connection error, timeout): the
    /// response never arrived.
    RequestFailed,
    /// The request succeeded but reading the body failed midway.
    BodyFailed,
    /// The whole body arrived.
    BodyReceived,
}

/// What the worker does next with the same segment.
pub enum FetchStep {
    /// Issue the same request again, without advancing.
    RetrySame,
    /// Leave this segment undownloaded and move to the next item.
    SkipSegment,
    /// Write the body to the segment's local file, then move on.
    StoreSegment,
}

/// The pool's failure discipline: a failed request is retried on the
/// same URL without bound; a failure while reading an established
/// response body is logged and the segment abandoned; a full body is
/// stored.
pub fn next_fetch_step(e: &FetchEvent) -> (s: FetchStep)
    ensures
        (match e {
            FetchEvent::RequestFailed => s is RetrySame,
            FetchEvent::BodyFailed => s is SkipSegment,
            FetchEvent::BodyReceived => s is StoreSegment,
        }),
{
    match e {
        FetchEvent::RequestFailed => FetchStep::RetrySame,
        FetchEvent::BodyFailed => FetchStep::SkipSegment,
        FetchEvent::BodyReceived => FetchStep::StoreSegment,
    }
}

} // verus!
