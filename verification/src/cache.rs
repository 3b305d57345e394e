//! The fold state of the thread that is shown, kept per thread.
//!
//! Loading and saving a thread's fold state is input and output that the
//! caller performs. This module decides when a thread's saved state must be
//! loaded, what the cache holds afterwards, and which thread's state must be
//! saved after an update.

use vstd::prelude::*;

use crate::fold_state::TranscriptFoldState;
use crate::message::TranscriptMessageId;

verus! {

/// Where, relative to the Codex home, the fold state of a thread is saved:
/// one file per thread, named by the thread id.
pub open spec fn fold_state_path_spec(thread_id: Seq<char>) -> Seq<char> {
    "ui-state/transcript-folds/"@ + thread_id + ".json"@
}

/// The path, relative to the Codex home, of the file that holds the fold
/// state of a thread.
pub fn fold_state_path(thread_id: &str) -> (res: String)
    ensures
        res@ == fold_state_path_spec(thread_id@),
{
    let mut path = String::new();
    path.append("ui-state/transcript-folds/");
    path.append(thread_id);
    path.append(".json");
    path
}

/// Fold state is kept separately per thread: two threads never share a
/// saved file.
pub proof fn lemma_fold_state_paths_distinct(a: Seq<char>, b: Seq<char>)
    requires
        a != b,
    ensures
        fold_state_path_spec(a) != fold_state_path_spec(b),
{
    let pre = "ui-state/transcript-folds/"@;
    let suf = ".json"@;
    if fold_state_path_spec(a) == fold_state_path_spec(b) {
        assert(fold_state_path_spec(a).len() == pre.len() + a.len() + suf.len());
        assert(fold_state_path_spec(b).len() == pre.len() + b.len() + suf.len());
        assert(a.len() == b.len());
        assert(a =~= fold_state_path_spec(a).subrange(pre.len() as int, (pre.len() + a.len()) as int));
        assert(b =~= fold_state_path_spec(b).subrange(pre.len() as int, (pre.len() + b.len()) as int));
    }
}

/// The thread id as text.
pub open spec fn thread_view(thread_id: Option<String>) -> Option<Seq<char>> {
    match thread_id {
        Some(t) => Some(t@),
        None => None,
    }
}

/// The state of the cache: the thread it holds, and that thread's folded
/// messages.
pub type FoldCacheView = (Option<Seq<char>>, Set<TranscriptMessageId>);

/// The cache after it is asked about `thread`: unchanged when it already
/// holds that thread; otherwise it holds `thread` with the state that was
/// loaded for it, or nothing folded where there is no thread or the load
/// failed.
pub open spec fn refreshed(
    cache: FoldCacheView,
    thread: Option<Seq<char>>,
    loaded: Option<Set<TranscriptMessageId>>,
) -> FoldCacheView {
    if cache.0 == thread {
        cache
    } else {
        (
            thread,
            match (thread, loaded) {
                (Some(_), Some(state)) => state,
                _ => Set::empty(),
            },
        )
    }
}

/// The cache after `state` is written for `thread`.
pub open spec fn updated(
    cache: FoldCacheView,
    thread: Option<Seq<char>>,
    loaded: Option<Set<TranscriptMessageId>>,
    state: Set<TranscriptMessageId>,
) -> FoldCacheView {
    (refreshed(cache, thread, loaded).0, state)
}

/// The view of a loaded state.
pub open spec fn loaded_view(loaded: Option<TranscriptFoldState>) -> Option<
    Set<TranscriptMessageId>,
> {
    match loaded {
        Some(s) => Some(s@),
        None => None,
    }
}

/// The fold state of the thread that was shown last.
pub struct TranscriptFoldCache {
    thread_id: Option<String>,
    state: TranscriptFoldState,
}

impl View for TranscriptFoldCache {
    type V = FoldCacheView;

    closed spec fn view(&self) -> FoldCacheView {
        (thread_view(self.thread_id), self.state@)
    }
}

fn same_thread(a: &Option<String>, b: &Option<String>) -> (res: bool)
    ensures
        res == (thread_view(*a) == thread_view(*b)),
{
    match (a, b) {
        (Some(x), Some(y)) => x.eq(y),
        (None, None) => true,
        _ => false,
    }
}

impl TranscriptFoldCache {
    /// A cache that holds no thread.
    pub fn new() -> (res: Self)
        ensures
            res@ == (None::<Seq<char>>, Set::<TranscriptMessageId>::empty()),
    {
        TranscriptFoldCache { thread_id: None, state: TranscriptFoldState::new() }
    }

    /// The thread whose saved state must be loaded before the cache can
    /// answer for `thread_id`: that thread when the cache holds another one,
    /// none otherwise.
    pub fn thread_to_load(&self, thread_id: &Option<String>) -> (res: Option<String>)
        ensures
            thread_view(res) == if thread_view(*thread_id) != self@.0 {
                thread_view(*thread_id)
            } else {
                None
            },
    {
        if same_thread(&self.thread_id, thread_id) {
            None
        } else {
            match thread_id {
                Some(t) => Some(t.clone()),
                None => None,
            }
        }
    }

    /// Makes the cache hold `thread_id`. `loaded` is the state loaded for
    /// the thread that `thread_to_load` named, `None` when that load failed;
    /// it is not read when the cache already holds the thread.
    pub fn refresh_transcript_fold_cache(
        &mut self,
        thread_id: Option<String>,
        loaded: Option<TranscriptFoldState>,
    )
        ensures
            final(self)@ == refreshed(old(self)@, thread_view(thread_id), loaded_view(loaded)),
    {
        if same_thread(&self.thread_id, &thread_id) {
            return;
        }
        let state = match (&thread_id, loaded) {
            (Some(_), Some(state)) => state,
            _ => TranscriptFoldState::new(),
        };
        self.thread_id = thread_id;
        self.state = state;
    }

    /// The fold state of `thread_id`, after the cache is made to hold it.
    pub fn current_transcript_fold_state(
        &mut self,
        thread_id: Option<String>,
        loaded: Option<TranscriptFoldState>,
    ) -> (res: TranscriptFoldState)
        ensures
            final(self)@ == refreshed(old(self)@, thread_view(thread_id), loaded_view(loaded)),
            res@ == final(self)@.1,
    {
        self.refresh_transcript_fold_cache(thread_id, loaded);
        self.state.clone()
    }

    /// Replaces the fold state of `thread_id` with `state`, after the cache
    /// is made to hold that thread. Returns the thread whose saved state must
    /// now be written, none when there is no thread.
    pub fn update_transcript_fold_state(
        &mut self,
        thread_id: Option<String>,
        loaded: Option<TranscriptFoldState>,
        state: TranscriptFoldState,
    ) -> (persist: Option<String>)
        ensures
            final(self)@ == updated(old(self)@, thread_view(thread_id), loaded_view(loaded), state@),
            thread_view(persist) == final(self)@.0,
    {
        self.refresh_transcript_fold_cache(thread_id, loaded);
        self.state = state;
        match &self.thread_id {
            Some(t) => Some(t.clone()),
            None => None,
        }
    }
}

impl Default for TranscriptFoldCache {
    fn default() -> (res: Self)
        ensures
            res@ == (None::<Seq<char>>, Set::<TranscriptMessageId>::empty()),
    {
        Self::new()
    }
}

/// What was written for a thread is what is read back for it, whatever a
/// load would have given.
pub proof fn lemma_read_after_write(
    cache: FoldCacheView,
    thread: Option<Seq<char>>,
    loaded: Option<Set<TranscriptMessageId>>,
    state: Set<TranscriptMessageId>,
    later_loaded: Option<Set<TranscriptMessageId>>,
)
    ensures
        refreshed(updated(cache, thread, loaded, state), thread, later_loaded).1 == state,
{
}

/// Asking again about the thread that is held changes nothing.
pub proof fn lemma_refresh_idempotent(
    cache: FoldCacheView,
    thread: Option<Seq<char>>,
    loaded: Option<Set<TranscriptMessageId>>,
    later_loaded: Option<Set<TranscriptMessageId>>,
)
    ensures
        refreshed(refreshed(cache, thread, loaded), thread, later_loaded) == refreshed(
            cache,
            thread,
            loaded,
        ),
{
}

/// Switching threads never carries fold state over: the new thread gets
/// its own saved state, or nothing folded.
pub proof fn lemma_switch_does_not_leak(
    cache: FoldCacheView,
    thread: Option<Seq<char>>,
    loaded: Option<Set<TranscriptMessageId>>,
)
    requires
        cache.0 != thread,
    ensures
        refreshed(cache, thread, loaded).0 == thread,
        refreshed(cache, thread, loaded).1 == match (thread, loaded) {
            (Some(_), Some(state)) => state,
            _ => Set::<TranscriptMessageId>::empty(),
        },
{
}

} // verus!
