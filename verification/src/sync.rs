//! The synchronisation of one thread.
//!
//! Fetching and storing are not done here. The engine hands out one
//! request at a time, an [`Action`], and is told what came of it, an
//! [`Event`]; from that it decides the next request. A driver performs a
//! synchronisation by starting an engine, carrying out each action and
//! passing its outcome to [`ThreadSync::step`], until the action is
//! [`Action::Finish`].

use vstd::prelude::*;
use crate::api::{remote_post_views, RemotePostView, ThreadThreadsThreadPost};
use crate::content::{attachment_id, content_id, extension_of, file_extension, put};
use crate::db::{post_views, File, Post, Thread, ThreadView};
use crate::diff::vecdiff;
use crate::error::SyncError;
use crate::reconcile::{
    added_ids, archived_all, archived_file, attach, job_views, jobs_of, lemma_jobs_in_range,
    lemma_sync_idempotent, lemma_with_outcomes_keeps_posts, mark_deleted, marked, markers_valid, materialize, merged,
    new_posts, old_posts, remote_numbers, removed_ids, snapshot_id, stored_ids, with_outcomes,
    AttachmentJob, JobView,
};

verus! {

/// What the engine is waiting for.
#[derive(Clone, Copy, Debug, PartialEq, Eq, Structural)]
pub enum Phase {
    /// The posts of the remote thread.
    AwaitThread,
    /// The stored snapshot.
    AwaitSnapshot,
    /// The bytes of an attachment.
    AwaitAttachment,
    /// Whether the blob of an attachment is in the store already.
    AwaitBlobCheck,
    /// Whether the blob of an attachment was written.
    AwaitBlobWrite,
    /// Whether the snapshot was written.
    AwaitSnapshotWrite,
    /// Nothing: the synchronisation is over.
    Done,
}

/// What a synchronisation that succeeded has done.
#[derive(Clone, Copy, Debug, PartialEq, Eq, Structural)]
pub struct SyncSummary {
    /// Whether the thread had no stored snapshot.
    pub discovered: bool,
    /// How many ids the remote thread has that the snapshot lacked.
    pub added: usize,
    /// How many ids the snapshot has that the remote thread lacks.
    pub removed_flagged: usize,
}

/// A request of the engine to its driver.
#[derive(Debug, PartialEq, Eq)]
pub enum Action {
    /// Fetch the posts of the thread from the remote service.
    FetchThread,
    /// Read the stored snapshot of the thread.
    ReadSnapshot,
    /// Fetch the bytes at `path` from the remote service.
    FetchAttachment { path: String },
    /// Look whether the content store holds a blob named `id`.
    CheckBlob { id: String },
    /// Write `bytes` to the content store under the name `id`.
    WriteBlob { id: String, bytes: Vec<u8> },
    /// Replace the stored snapshot of the thread by `snapshot`.
    WriteSnapshot { snapshot: Thread },
    /// Stop: the synchronisation ended with `outcome`.
    Finish { outcome: Result<SyncSummary, SyncError> },
}

/// Mathematical form of an [`Action`].
pub ghost enum ActionView {
    FetchThread,
    ReadSnapshot,
    FetchAttachment { path: Seq<char> },
    CheckBlob { id: Seq<char> },
    WriteBlob { id: Seq<char>, bytes: Seq<u8> },
    WriteSnapshot { snapshot: ThreadView },
    Finish { outcome: Result<SyncSummary, SyncError> },
}

impl View for Action {
    type V = ActionView;

    open spec fn view(&self) -> ActionView {
        match *self {
            Action::FetchThread => ActionView::FetchThread,
            Action::ReadSnapshot => ActionView::ReadSnapshot,
            Action::FetchAttachment { path } => ActionView::FetchAttachment { path: path@ },
            Action::CheckBlob { id } => ActionView::CheckBlob { id: id@ },
            Action::WriteBlob { id, bytes } => ActionView::WriteBlob { id: id@, bytes: bytes@ },
            Action::WriteSnapshot { snapshot } => ActionView::WriteSnapshot { snapshot: snapshot@ },
            Action::Finish { outcome } => ActionView::Finish { outcome },
        }
    }
}

/// What came of a request.
#[derive(Debug, PartialEq, Eq)]
pub enum Event {
    /// The remote thread, or `None` where it could not be fetched.
    ThreadFetched { thread: Option<crate::api::Thread> },
    /// The stored snapshot, or `None` where the store has none.
    SnapshotRead { snapshot: Option<Thread> },
    /// The bytes of the attachment, or `None` where the fetch failed.
    AttachmentFetched { bytes: Option<Vec<u8>> },
    /// Whether the content store holds the blob.
    BlobChecked { present: bool },
    /// Whether the blob was written.
    BlobWritten { written: bool },
    /// Whether the snapshot was written.
    SnapshotWritten { written: bool },
}

/// Mathematical form of an [`Event`].
pub ghost enum EventView {
    ThreadFetched { thread: Option<Seq<RemotePostView>> },
    SnapshotRead { snapshot: Option<ThreadView> },
    AttachmentFetched { bytes: Option<Seq<u8>> },
    BlobChecked { present: bool },
    BlobWritten { written: bool },
    SnapshotWritten { written: bool },
}

/// The view of a remote thread that may be missing.
pub open spec fn remote_view(thread: Option<crate::api::Thread>) -> Option<Seq<RemotePostView>> {
    match thread {
        Some(t) => Some(t@),
        None => None,
    }
}

/// The view of a snapshot that may be missing.
pub open spec fn snapshot_view(snapshot: Option<Thread>) -> Option<ThreadView> {
    match snapshot {
        Some(t) => Some(t@),
        None => None,
    }
}

/// The view of bytes that may be missing.
pub open spec fn bytes_view(bytes: Option<Vec<u8>>) -> Option<Seq<u8>> {
    match bytes {
        Some(b) => Some(b@),
        None => None,
    }
}

impl View for Event {
    type V = EventView;

    open spec fn view(&self) -> EventView {
        match *self {
            Event::ThreadFetched { thread } => EventView::ThreadFetched {
                thread: remote_view(thread),
            },
            Event::SnapshotRead { snapshot } => EventView::SnapshotRead {
                snapshot: snapshot_view(snapshot),
            },
            Event::AttachmentFetched { bytes } => EventView::AttachmentFetched {
                bytes: bytes_view(bytes),
            },
            Event::BlobChecked { present } => EventView::BlobChecked { present },
            Event::BlobWritten { written } => EventView::BlobWritten { written },
            Event::SnapshotWritten { written } => EventView::SnapshotWritten { written },
        }
    }
}

/// What an engine knows: the thread it synchronises, what it waits for,
/// and what it has been told so far.
pub ghost struct SyncState {
    pub phase: Phase,
    pub thread_id: u64,
    /// The posts of the remote thread; empty until they are fetched.
    pub remote: Seq<RemotePostView>,
    /// The stored snapshot; `None` until it is read, and where there is none.
    pub stored: Option<ThreadView>,
    /// For each attachment dealt with, in the order of `jobs`, its bytes,
    /// or `None` where they could not be fetched.
    pub outcomes: Seq<Option<Seq<u8>>>,
    /// The bytes of the attachment that is being stored; empty otherwise.
    pub pending: Seq<u8>,
}

impl SyncState {
    /// The state of an engine that was just started.
    pub open spec fn initial(thread_id: u64) -> SyncState {
        SyncState {
            phase: Phase::AwaitThread,
            thread_id,
            remote: Seq::empty(),
            stored: None,
            outcomes: Seq::empty(),
            pending: Seq::empty(),
        }
    }

    /// The attachments of the new posts, in the order in which they are
    /// fetched.
    pub open spec fn jobs(self) -> Seq<JobView> {
        jobs_of(new_posts(self.stored, self.remote))
    }

    /// The content id of the attachment in hand, made of `bytes`.
    pub open spec fn blob_id(self, bytes: Seq<u8>) -> Seq<char> {
        content_id(bytes, extension_of(self.jobs()[self.outcomes.len() as int].path))
    }

    /// What a synchronisation from this state reports when it succeeds.
    pub open spec fn summary(self) -> SyncSummary {
        SyncSummary {
            discovered: self.stored is None,
            added: added_ids(self.stored, self.remote).len() as usize,
            removed_flagged: removed_ids(self.stored, self.remote).len() as usize,
        }
    }

    /// Whether there is a stored snapshot and the remote thread has the
    /// same ids as it.
    pub open spec fn nothing_new(self) -> bool {
        &&& self.stored is Some
        &&& added_ids(self.stored, self.remote).len() == 0
        &&& removed_ids(self.stored, self.remote).len() == 0
    }

    /// The end of the synchronisation.
    pub open spec fn finish(self, outcome: Result<SyncSummary, SyncError>) -> (SyncState, ActionView) {
        (
            SyncState { phase: Phase::Done, pending: Seq::empty(), ..self },
            ActionView::Finish { outcome },
        )
    }

    /// The next attachment is asked for; when none is left, the merged
    /// snapshot is handed out to be written.
    pub open spec fn proceed(self) -> (SyncState, ActionView) {
        if self.outcomes.len() < self.jobs().len() {
            (
                SyncState { phase: Phase::AwaitAttachment, pending: Seq::empty(), ..self },
                ActionView::FetchAttachment { path: self.jobs()[self.outcomes.len() as int].path },
            )
        } else {
            (
                SyncState { phase: Phase::AwaitSnapshotWrite, pending: Seq::empty(), ..self },
                ActionView::WriteSnapshot {
                    snapshot: merged(self.thread_id, self.stored, self.remote, self.outcomes),
                },
            )
        }
    }

    /// The attachment in hand is done with, with the given outcome.
    pub open spec fn record(self, fetched: Option<Seq<u8>>) -> (SyncState, ActionView) {
        (SyncState { outcomes: self.outcomes.push(fetched), ..self }).proceed()
    }

    /// The remote thread has arrived, or has not.
    pub open spec fn thread_fetched(self, thread: Option<Seq<RemotePostView>>) -> (
        SyncState,
        ActionView,
    ) {
        match thread {
            None => self.finish(Err(SyncError::FetchError)),
            Some(remote) => (
                SyncState { phase: Phase::AwaitSnapshot, remote, ..self },
                ActionView::ReadSnapshot,
            ),
        }
    }

    /// The stored snapshot has been read. With nothing new the
    /// synchronisation ends at once; a new post with an opening mark other
    /// than 0 and 1 ends it in failure; otherwise the attachments of the
    /// new posts are fetched.
    pub open spec fn snapshot_read(self, snapshot: Option<ThreadView>) -> (SyncState, ActionView) {
        let known = SyncState { stored: snapshot, ..self };
        if known.nothing_new() {
            known.finish(Ok(known.summary()))
        } else if !markers_valid(new_posts(known.stored, known.remote)) {
            known.finish(Err(SyncError::ProtocolInvariantViolation))
        } else {
            known.proceed()
        }
    }

    /// The bytes of the attachment in hand have arrived, or have not. An
    /// attachment that could not be fetched is left out.
    pub open spec fn attachment_fetched(self, bytes: Option<Seq<u8>>) -> (SyncState, ActionView) {
        match bytes {
            None => self.record(None),
            Some(b) => (
                SyncState { phase: Phase::AwaitBlobCheck, pending: b, ..self },
                ActionView::CheckBlob { id: self.blob_id(b) },
            ),
        }
    }

    /// The content store has been asked for the blob. One that is there is
    /// not written again.
    pub open spec fn blob_checked(self, present: bool) -> (SyncState, ActionView) {
        if present {
            self.record(Some(self.pending))
        } else {
            (
                SyncState { phase: Phase::AwaitBlobWrite, ..self },
                ActionView::WriteBlob { id: self.blob_id(self.pending), bytes: self.pending },
            )
        }
    }

    /// The blob has been written, or has not.
    pub open spec fn blob_written(self, written: bool) -> (SyncState, ActionView) {
        if written {
            self.record(Some(self.pending))
        } else {
            self.finish(Err(SyncError::StoreWriteError))
        }
    }

    /// The snapshot has been written, or has not.
    pub open spec fn snapshot_written(self, written: bool) -> (SyncState, ActionView) {
        if written {
            self.finish(Ok(self.summary()))
        } else {
            self.finish(Err(SyncError::StoreWriteError))
        }
    }

    /// Whether `event` answers the request that is open in this state.
    pub open spec fn expects(self, event: EventView) -> bool {
        match event {
            EventView::ThreadFetched { .. } => self.phase == Phase::AwaitThread,
            EventView::SnapshotRead { .. } => self.phase == Phase::AwaitSnapshot,
            EventView::AttachmentFetched { .. } => self.phase == Phase::AwaitAttachment,
            EventView::BlobChecked { .. } => self.phase == Phase::AwaitBlobCheck,
            EventView::BlobWritten { .. } => self.phase == Phase::AwaitBlobWrite,
            EventView::SnapshotWritten { .. } => self.phase == Phase::AwaitSnapshotWrite,
        }
    }

    /// The state and the request that follow `event`. Meant for an event
    /// that `expects` holds of.
    pub open spec fn next(self, event: EventView) -> (SyncState, ActionView) {
        match event {
            EventView::ThreadFetched { thread } => self.thread_fetched(thread),
            EventView::SnapshotRead { snapshot } => self.snapshot_read(snapshot),
            EventView::AttachmentFetched { bytes } => self.attachment_fetched(bytes),
            EventView::BlobChecked { present } => self.blob_checked(present),
            EventView::BlobWritten { written } => self.blob_written(written),
            EventView::SnapshotWritten { written } => self.snapshot_written(written),
        }
    }
}

/// A content store after the driver has carried out `action`: a blob that
/// was to be written is there under its name; no other action touches the
/// store.
pub open spec fn store_after(store: Map<Seq<char>, Seq<u8>>, action: ActionView) -> Map<
    Seq<char>,
    Seq<u8>,
> {
    match action {
        ActionView::WriteBlob { id, bytes } => store.insert(id, bytes),
        _ => store,
    }
}

/// The engine stores an attachment as `put` says: it asks for the blob by
/// the content id of the bytes, writes it under that id where the store
/// lacks it, and leaves the store alone where the blob is there.
pub proof fn lemma_attachment_is_put(
    state: SyncState,
    bytes: Seq<u8>,
    store: Map<Seq<char>, Seq<u8>>,
)
    ensures
        ({
            let id = state.blob_id(bytes);
            let asked = state.attachment_fetched(Some(bytes));
            let answered = asked.0.blob_checked(store.contains_key(id));
            &&& asked.1 == ActionView::CheckBlob { id }
            &&& store_after(store, answered.1) == put(store, id, bytes)
        }),
{
}

/// Idempotence, as the engine goes: started again on the snapshot that a
/// synchronisation left, against the same remote thread, it asks for no
/// attachment; it either ends at once with nothing added, or hands out
/// that very snapshot to be written.
pub proof fn lemma_sync_again(
    thread_id: u64,
    stored: Option<ThreadView>,
    remote: Seq<RemotePostView>,
    outcomes: Seq<Option<Seq<u8>>>,
)
    ensures
        ({
            let first = merged(thread_id, stored, remote, outcomes);
            let again = (SyncState { remote, ..SyncState::initial(thread_id) }).snapshot_read(
                Some(first),
            );
            ||| again.1 == ActionView::Finish {
                outcome: Ok(SyncSummary { discovered: false, added: 0, removed_flagged: 0 }),
            }
            ||| again.1 == ActionView::WriteSnapshot { snapshot: first }
        }),
{
    lemma_sync_idempotent(thread_id, stored, remote, outcomes);
}

/// The engine that synchronises one thread.
pub struct ThreadSync {
    thread_id: u64,
    phase: Phase,
    remote: Vec<ThreadThreadsThreadPost>,
    stored: Ghost<Option<ThreadView>>,
    outcomes: Ghost<Seq<Option<Seq<u8>>>>,
    pending: Ghost<Seq<u8>>,
    snapshot_id: u64,
    kept: Vec<Post>,
    fresh: Vec<Post>,
    jobs: Vec<AttachmentJob>,
    done: usize,
    blob_id: String,
    blob: Vec<u8>,
    summary: SyncSummary,
}

impl View for ThreadSync {
    type V = SyncState;

    closed spec fn view(&self) -> SyncState {
        SyncState {
            phase: self.phase,
            thread_id: self.thread_id,
            remote: remote_post_views(self.remote@),
            stored: self.stored@,
            outcomes: self.outcomes@,
            pending: self.pending@,
        }
    }
}

impl ThreadSync {
    /// What links the working data of the engine to what it has been told,
    /// from the reading of the snapshot to the writing of the new one.
    spec fn working(&self) -> bool {
        let s = self@;
        let fresh = new_posts(s.stored, s.remote);
        &&& self.snapshot_id == snapshot_id(self.thread_id, s.stored)
        &&& post_views(self.kept@) == marked(
            old_posts(s.stored),
            removed_ids(s.stored, s.remote),
        )
        &&& job_views(self.jobs@) == jobs_of(fresh)
        &&& post_views(self.fresh@) == with_outcomes(archived_all(fresh), jobs_of(fresh), s.outcomes)
        &&& self.done == s.outcomes.len()
        &&& self.done <= self.jobs@.len()
        &&& self.summary == s.summary()
    }

    /// Whether the engine is in a state that `start` and `step` lead to.
    pub closed spec fn wf(&self) -> bool {
        let s = self@;
        match self.phase {
            Phase::AwaitThread => s == SyncState::initial(self.thread_id),
            Phase::AwaitSnapshot => {
                &&& s.stored is None
                &&& s.outcomes == Seq::<Option<Seq<u8>>>::empty()
                &&& s.pending == Seq::<u8>::empty()
            },
            Phase::AwaitAttachment => {
                &&& self.working()
                &&& self.done < self.jobs@.len()
                &&& s.pending == Seq::<u8>::empty()
            },
            Phase::AwaitBlobCheck => {
                &&& self.working()
                &&& self.done < self.jobs@.len()
                &&& self.blob@ == s.pending
                &&& self.blob_id@ == s.blob_id(s.pending)
            },
            Phase::AwaitBlobWrite => {
                &&& self.working()
                &&& self.done < self.jobs@.len()
                &&& self.blob_id@ == s.blob_id(s.pending)
            },
            Phase::AwaitSnapshotWrite => {
                &&& self.summary == s.summary()
                &&& s.pending == Seq::<u8>::empty()
            },
            Phase::Done => s.pending == Seq::<u8>::empty(),
        }
    }

    /// A new engine for the thread `thread_id`, and its first request: the
    /// posts of the remote thread.
    pub fn start(thread_id: u64) -> (r: (ThreadSync, Action))
        ensures
            r.0.wf(),
            r.0@ == SyncState::initial(thread_id),
            r.1@ == ActionView::FetchThread,
    {
        let engine = ThreadSync {
            thread_id,
            phase: Phase::AwaitThread,
            remote: Vec::new(),
            stored: Ghost(None),
            outcomes: Ghost(Seq::empty()),
            pending: Ghost(Seq::empty()),
            snapshot_id: thread_id,
            kept: Vec::new(),
            fresh: Vec::new(),
            jobs: Vec::new(),
            done: 0,
            blob_id: String::new(),
            blob: Vec::new(),
            summary: SyncSummary { discovered: false, added: 0, removed_flagged: 0 },
        };
        assert(engine@.remote =~= Seq::<RemotePostView>::empty());
        (engine, Action::FetchThread)
    }

    /// What the engine is waiting for.
    pub fn phase(&self) -> (phase: Phase)
        ensures
            phase == self@.phase,
    {
        self.phase
    }

    /// The thread that the engine synchronises.
    pub fn thread_id(&self) -> (id: u64)
        ensures
            id == self@.thread_id,
    {
        self.thread_id
    }

    /// Whether `event` answers the request that is open.
    pub fn expects(&self, event: &Event) -> (expected: bool)
        ensures
            expected == self@.expects(event@),
    {
        match event {
            Event::ThreadFetched { .. } => self.phase == Phase::AwaitThread,
            Event::SnapshotRead { .. } => self.phase == Phase::AwaitSnapshot,
            Event::AttachmentFetched { .. } => self.phase == Phase::AwaitAttachment,
            Event::BlobChecked { .. } => self.phase == Phase::AwaitBlobCheck,
            Event::BlobWritten { .. } => self.phase == Phase::AwaitBlobWrite,
            Event::SnapshotWritten { .. } => self.phase == Phase::AwaitSnapshotWrite,
        }
    }

    fn finish(&mut self, outcome: Result<SyncSummary, SyncError>) -> (action: Action)
        ensures
            final(self).wf(),
            (final(self)@, action@) == old(self)@.finish(outcome),
    {
        self.phase = Phase::Done;
        self.pending = Ghost(Seq::empty());
        Action::Finish { outcome }
    }

    fn proceed(&mut self) -> (action: Action)
        requires
            old(self).working(),
        ensures
            final(self).wf(),
            (final(self)@, action@) == old(self)@.proceed(),
    {
        self.pending = Ghost(Seq::empty());
        if self.done < self.jobs.len() {
            self.phase = Phase::AwaitAttachment;
            let path = self.jobs[self.done].path.clone();
            assert(path@ == job_views(self.jobs@)[self.done as int].path);
            Action::FetchAttachment { path }
        } else {
            self.phase = Phase::AwaitSnapshotWrite;
            let mut posts: Vec<Post> = Vec::new();
            let mut fresh: Vec<Post> = Vec::new();
            std::mem::swap(&mut posts, &mut self.kept);
            std::mem::swap(&mut fresh, &mut self.fresh);
            let ghost kept = posts@;
            let ghost added = fresh@;
            posts.append(&mut fresh);
            let snapshot = Thread { id: self.snapshot_id, posts };
            proof {
                assert(job_views(self.jobs@).len() == self.jobs@.len());
                assert(post_views(kept + added) =~= post_views(kept) + post_views(added));
            }
            Action::WriteSnapshot { snapshot }
        }
    }

    fn record(&mut self, file: Option<File>) -> (action: Action)
        requires
            old(self).working(),
            old(self).done < old(self).jobs@.len(),
            file matches Some(f) ==> f@ == archived_file(
                old(self)@.jobs()[old(self)@.outcomes.len() as int],
                old(self)@.pending,
            ),
        ensures
            final(self).wf(),
            (final(self)@, action@) == old(self)@.record(
                if file is Some {
                    Some(old(self)@.pending)
                } else {
                    None
                },
            ),
    {
        let ghost before = self@;
        let ghost fresh = new_posts(before.stored, before.remote);
        let ghost fetched: Option<Seq<u8>> = if file is Some {
            Some(before.pending)
        } else {
            None
        };
        proof {
            lemma_jobs_in_range(fresh);
            lemma_with_outcomes_keeps_posts(archived_all(fresh), jobs_of(fresh), before.outcomes);
            assert(before.outcomes.push(fetched).drop_last() == before.outcomes);
            assert(job_views(self.jobs@)[self.done as int] == self.jobs@[self.done as int]@);
        }
        match file {
            Some(f) => {
                let k = self.jobs[self.done].post;
                attach(&mut self.fresh, k, f);
            },
            None => {},
        }
        self.outcomes = Ghost(before.outcomes.push(fetched));
        assert(self.done < self.jobs.len());
        self.done = self.done + 1;
        self.proceed()
    }

    fn on_thread(&mut self, thread: Option<crate::api::Thread>) -> (action: Action)
        requires
            old(self).wf(),
            old(self)@.phase == Phase::AwaitThread,
        ensures
            final(self).wf(),
            (final(self)@, action@) == old(self)@.thread_fetched(remote_view(thread)),
    {
        match thread {
            None => self.finish(Err(SyncError::FetchError)),
            Some(t) => {
                self.remote = t.threads.thread.posts;
                self.phase = Phase::AwaitSnapshot;
                Action::ReadSnapshot
            },
        }
    }

    fn on_snapshot(&mut self, snapshot: Option<Thread>) -> (action: Action)
        requires
            old(self).wf(),
            old(self)@.phase == Phase::AwaitSnapshot,
        ensures
            final(self).wf(),
            (final(self)@, action@) == old(self)@.snapshot_read(snapshot_view(snapshot)),
    {
        let ghost stored = snapshot_view(snapshot);
        let (discovered, id, mut kept) = match snapshot {
            Some(t) => (false, t.id, t.posts),
            None => (true, self.thread_id, Vec::new()),
        };
        assert(post_views(kept@) =~= old_posts(stored));
        self.stored = Ghost(stored);
        let old_ids = stored_ids(&kept);
        let new_ids = remote_numbers(&self.remote);
        let (deleted, added) = vecdiff(old_ids, new_ids);
        let summary = SyncSummary {
            discovered,
            added: added.len(),
            removed_flagged: deleted.len(),
        };
        if !discovered && deleted.len() == 0 && added.len() == 0 {
            return self.finish(Ok(summary));
        }
        match materialize(&self.remote, &added) {
            Err(e) => self.finish(Err(e)),
            Ok((fresh, jobs)) => {
                mark_deleted(&mut kept, &deleted);
                self.kept = kept;
                self.fresh = fresh;
                self.jobs = jobs;
                self.done = 0;
                self.snapshot_id = id;
                self.summary = summary;
                self.proceed()
            },
        }
    }

    fn on_attachment(&mut self, bytes: Option<Vec<u8>>) -> (action: Action)
        requires
            old(self).wf(),
            old(self)@.phase == Phase::AwaitAttachment,
        ensures
            final(self).wf(),
            (final(self)@, action@) == old(self)@.attachment_fetched(bytes_view(bytes)),
    {
        match bytes {
            None => self.record(None),
            Some(b) => {
                assert(job_views(self.jobs@)[self.done as int] == self.jobs@[self.done as int]@);
                let extension = file_extension(self.jobs[self.done].path.as_str());
                let id = attachment_id(b.as_slice(), extension.as_str());
                self.blob_id = id.clone();
                self.pending = Ghost(b@);
                self.blob = b;
                self.phase = Phase::AwaitBlobCheck;
                Action::CheckBlob { id }
            },
        }
    }

    fn archive(&mut self) -> (action: Action)
        requires
            old(self).working(),
            old(self).done < old(self).jobs@.len(),
            old(self).blob_id@ == old(self)@.blob_id(old(self)@.pending),
        ensures
            final(self).wf(),
            (final(self)@, action@) == old(self)@.record(Some(old(self)@.pending)),
    {
        assert(job_views(self.jobs@)[self.done as int] == self.jobs@[self.done as int]@);
        let file = File { id: self.blob_id.clone(), name: self.jobs[self.done].name.clone() };
        self.blob = Vec::new();
        self.record(Some(file))
    }

    fn on_blob_checked(&mut self, present: bool) -> (action: Action)
        requires
            old(self).wf(),
            old(self)@.phase == Phase::AwaitBlobCheck,
        ensures
            final(self).wf(),
            (final(self)@, action@) == old(self)@.blob_checked(present),
    {
        if present {
            self.archive()
        } else {
            let mut bytes: Vec<u8> = Vec::new();
            std::mem::swap(&mut bytes, &mut self.blob);
            self.phase = Phase::AwaitBlobWrite;
            Action::WriteBlob { id: self.blob_id.clone(), bytes }
        }
    }

    fn on_blob_written(&mut self, written: bool) -> (action: Action)
        requires
            old(self).wf(),
            old(self)@.phase == Phase::AwaitBlobWrite,
        ensures
            final(self).wf(),
            (final(self)@, action@) == old(self)@.blob_written(written),
    {
        if written {
            self.archive()
        } else {
            self.finish(Err(SyncError::StoreWriteError))
        }
    }

    fn on_snapshot_written(&mut self, written: bool) -> (action: Action)
        requires
            old(self).wf(),
            old(self)@.phase == Phase::AwaitSnapshotWrite,
        ensures
            final(self).wf(),
            (final(self)@, action@) == old(self)@.snapshot_written(written),
    {
        if written {
            let summary = self.summary;
            self.finish(Ok(summary))
        } else {
            self.finish(Err(SyncError::StoreWriteError))
        }
    }

    /// Takes in what came of the open request and gives the next request.
    /// An event that does not answer the open request is refused: the
    /// result is `None` and the engine stays as it is.
    pub fn step(&mut self, event: Event) -> (action: Option<Action>)
        requires
            old(self).wf(),
        ensures
            final(self).wf(),
            action is Some <==> old(self)@.expects(event@),
            action is None ==> final(self)@ == old(self)@,
            action matches Some(a) ==> (final(self)@, a@) == old(self)@.next(event@),
    {
        if !self.expects(&event) {
            return None;
        }
        let action = match event {
            Event::ThreadFetched { thread } => self.on_thread(thread),
            Event::SnapshotRead { snapshot } => self.on_snapshot(snapshot),
            Event::AttachmentFetched { bytes } => self.on_attachment(bytes),
            Event::BlobChecked { present } => self.on_blob_checked(present),
            Event::BlobWritten { written } => self.on_blob_written(written),
            Event::SnapshotWritten { written } => self.on_snapshot_written(written),
        };
        Some(action)
    }
}

} // verus!
