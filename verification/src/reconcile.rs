//! Reconciling a stored snapshot with a fetched thread.

use vstd::prelude::*;
use crate::api::{remote_ids, remote_post_views, RemoteFileView, RemotePostView, ThreadThreadsThreadPost};
use crate::content::{content_id, extension_of};
use crate::db::{file_views, post_ids, post_views, File, FileView, Post, PostView, ThreadView};
use crate::diff::{
    ascending, difference, first_index, first_place, lemma_difference_contains,
    lemma_difference_no_duplicates, lemma_first_place, lemma_rising, lemma_rising_len, rising,
    sort_ids,
};
use crate::error::SyncError;

verus! {

/// One attachment still to be fetched: the new post it belongs to, by its
/// place among the new posts, the path of its bytes and its display name.
#[derive(Clone, Debug, PartialEq, Eq)]
pub struct AttachmentJob {
    pub post: usize,
    pub path: String,
    pub name: String,
}

/// Mathematical form of an [`AttachmentJob`].
pub ghost struct JobView {
    pub post: int,
    pub path: Seq<char>,
    pub name: Seq<char>,
}

impl View for AttachmentJob {
    type V = JobView;

    open spec fn view(&self) -> JobView {
        JobView { post: self.post as int, path: self.path@, name: self.name@ }
    }
}

/// The views of a sequence of jobs, in order.
pub open spec fn job_views(jobs: Seq<AttachmentJob>) -> Seq<JobView> {
    Seq::new(jobs.len(), |i: int| jobs[i]@)
}

/// The posts of a stored snapshot; none where there is no snapshot yet.
pub open spec fn old_posts(stored: Option<ThreadView>) -> Seq<PostView> {
    match stored {
        Some(thread) => thread.posts,
        None => Seq::empty(),
    }
}

/// The ids that the stored snapshot has and the remote thread lacks.
pub open spec fn removed_ids(stored: Option<ThreadView>, remote: Seq<RemotePostView>) -> Seq<u64> {
    difference(post_ids(old_posts(stored)), remote_ids(remote))
}

/// The ids that the remote thread has and the stored snapshot lacks.
pub open spec fn added_ids(stored: Option<ThreadView>, remote: Seq<RemotePostView>) -> Seq<u64> {
    difference(remote_ids(remote), post_ids(old_posts(stored)))
}

/// The remote posts with the numbers `nums`, in the order of `nums`: for
/// each number the first post of the remote thread that carries it. A
/// number that no remote post carries gives no post.
pub open spec fn picked(remote: Seq<RemotePostView>, nums: Seq<u64>) -> Seq<RemotePostView>
    decreases nums.len(),
{
    if nums.len() == 0 {
        Seq::empty()
    } else if first_place(remote_ids(remote), nums.last()) >= 0 {
        picked(remote, nums.drop_last()).push(
            remote[first_place(remote_ids(remote), nums.last())],
        )
    } else {
        picked(remote, nums.drop_last())
    }
}

/// Whether every post carries an opening mark of 0 or 1.
pub open spec fn markers_valid(posts: Seq<RemotePostView>) -> bool {
    forall|i: int| 0 <= i < posts.len() ==> (#[trigger] posts[i]).op <= 1
}

/// A remote post as it enters the archive, before any attachment is there:
/// its fields copied, the opening mark read as a truth value, not deleted.
pub open spec fn archived(post: RemotePostView) -> PostView {
    PostView {
        id: post.num,
        timestamp: post.timestamp,
        name: post.name,
        email: post.email,
        subject: post.subject,
        message: post.comment,
        op: post.op == 1,
        files: Seq::empty(),
        deleted: false,
    }
}

/// `archived` of each post, in order.
pub open spec fn archived_all(posts: Seq<RemotePostView>) -> Seq<PostView> {
    Seq::new(posts.len(), |i: int| archived(posts[i]))
}

/// The jobs for the attachments of the new post at place `k`.
pub open spec fn post_jobs(k: int, files: Seq<RemoteFileView>) -> Seq<JobView> {
    Seq::new(files.len(), |i: int| JobView { post: k, path: files[i].path, name: files[i].name })
}

/// The jobs for all attachments of the new posts: post by post, and in the
/// order of each post's files.
pub open spec fn jobs_of(posts: Seq<RemotePostView>) -> Seq<JobView>
    decreases posts.len(),
{
    if posts.len() == 0 {
        Seq::empty()
    } else {
        jobs_of(posts.drop_last()) + post_jobs(posts.len() - 1, posts.last().files)
    }
}

/// The archived form of an attachment whose bytes were fetched: named by
/// its content, under the extension of the path it came from.
pub open spec fn archived_file(job: JobView, bytes: Seq<u8>) -> FileView {
    FileView { id: content_id(bytes, extension_of(job.path)), name: job.name }
}

/// The posts with `file` added behind the files of the post at place `k`.
pub open spec fn with_file(posts: Seq<PostView>, k: int, file: FileView) -> Seq<PostView> {
    if 0 <= k < posts.len() {
        posts.update(k, PostView { files: posts[k].files.push(file), ..posts[k] })
    } else {
        posts
    }
}

/// The posts after one job: with its file where the bytes were fetched,
/// unchanged where the fetch failed.
pub open spec fn with_outcome(posts: Seq<PostView>, job: JobView, fetched: Option<Seq<u8>>) -> Seq<
    PostView,
> {
    match fetched {
        Some(bytes) => with_file(posts, job.post, archived_file(job, bytes)),
        None => posts,
    }
}

/// The posts after the first `outcomes.len()` jobs, each job taken with the
/// outcome at its place.
pub open spec fn with_outcomes(
    posts: Seq<PostView>,
    jobs: Seq<JobView>,
    outcomes: Seq<Option<Seq<u8>>>,
) -> Seq<PostView>
    decreases outcomes.len(),
{
    if outcomes.len() == 0 || outcomes.len() > jobs.len() {
        posts
    } else {
        with_outcome(
            with_outcomes(posts, jobs, outcomes.drop_last()),
            jobs[outcomes.len() - 1],
            outcomes.last(),
        )
    }
}

/// The id under which the snapshot is kept: that of the stored snapshot,
/// or the thread's where there is none yet.
pub open spec fn snapshot_id(thread_id: u64, stored: Option<ThreadView>) -> u64 {
    match stored {
        Some(thread) => thread.id,
        None => thread_id,
    }
}

/// The remote posts that the stored snapshot lacks, in rising order of
/// their numbers, one post for each number.
pub open spec fn new_posts(stored: Option<ThreadView>, remote: Seq<RemotePostView>) -> Seq<
    RemotePostView,
> {
    picked(remote, rising(added_ids(stored, remote)))
}

/// The snapshot after a synchronisation: the stored posts in their order,
/// flagged where the remote thread lacks them, then the new posts in
/// rising order of their ids, each with the attachments that were
/// fetched. `outcomes` holds, for each job of `jobs_of`, the bytes fetched
/// or `None`.
pub open spec fn merged(
    thread_id: u64,
    stored: Option<ThreadView>,
    remote: Seq<RemotePostView>,
    outcomes: Seq<Option<Seq<u8>>>,
) -> ThreadView {
    let fresh = new_posts(stored, remote);
    ThreadView {
        id: snapshot_id(thread_id, stored),
        posts: marked(old_posts(stored), removed_ids(stored, remote)) + with_outcomes(
            archived_all(fresh),
            jobs_of(fresh),
            outcomes,
        ),
    }
}

/// A post as it is kept once the ids in `deleted` have left the thread:
/// flagged if its id is among them, untouched otherwise.
pub open spec fn marked_post(post: PostView, deleted: Seq<u64>) -> PostView {
    if deleted.contains(post.id) {
        PostView { deleted: true, ..post }
    } else {
        post
    }
}

/// Stored posts with a deletion flag on each whose id is in `deleted`.
/// No post is dropped or moved.
pub open spec fn marked(posts: Seq<PostView>, deleted: Seq<u64>) -> Seq<PostView> {
    Seq::new(posts.len(), |i: int| marked_post(posts[i], deleted))
}

fn holds(ids: &Vec<u64>, id: u64) -> (found: bool)
    ensures
        found == ids@.contains(id),
{
    let mut i: usize = 0;
    while i < ids.len()
        invariant
            i <= ids.len(),
            forall|j: int| 0 <= j < i ==> ids@[j] != id,
        decreases ids.len() - i,
    {
        if ids[i] == id {
            return true;
        }
        i += 1;
    }
    false
}

/// Flags every post whose id is in `deleted`. Posts are neither dropped
/// nor moved, and nothing else of a post changes.
pub fn mark_deleted(posts: &mut Vec<Post>, deleted: &Vec<u64>)
    ensures
        post_views(final(posts)@) == marked(post_views(old(posts)@), deleted@),
{
    let mut i: usize = 0;
    while i < posts.len()
        invariant
            i <= posts.len(),
            posts.len() == old(posts).len(),
            forall|j: int| 0 <= j < i ==> posts@[j]@ == marked_post(old(posts)@[j]@, deleted@),
            forall|j: int| i <= j < posts.len() ==> posts@[j] == old(posts)@[j],
        decreases posts.len() - i,
    {
        if holds(deleted, posts[i].id) {
            posts[i].deleted = true;
        }
        i += 1;
    }
    assert(post_views(posts@) =~= marked(post_views(old(posts)@), deleted@));
}

/// Attaching files changes nothing of a post but its files, and neither
/// adds, drops nor moves a post.
pub proof fn lemma_with_outcomes_keeps_posts(
    posts: Seq<PostView>,
    jobs: Seq<JobView>,
    outcomes: Seq<Option<Seq<u8>>>,
)
    ensures
        with_outcomes(posts, jobs, outcomes).len() == posts.len(),
        forall|i: int|
            0 <= i < posts.len() ==> (#[trigger] with_outcomes(posts, jobs, outcomes)[i])
                == (PostView { files: with_outcomes(posts, jobs, outcomes)[i].files, ..posts[i] }),
    decreases outcomes.len(),
{
    if !(outcomes.len() == 0 || outcomes.len() > jobs.len()) {
        lemma_with_outcomes_keeps_posts(posts, jobs, outcomes.drop_last());
    }
}

/// Every job belongs to one of the posts it was made for.
pub proof fn lemma_jobs_in_range(posts: Seq<RemotePostView>)
    ensures
        forall|j: int|
            0 <= j < jobs_of(posts).len() ==> 0 <= (#[trigger] jobs_of(posts)[j]).post
                < posts.len(),
    decreases posts.len(),
{
    if posts.len() > 0 {
        let head = jobs_of(posts.drop_last());
        let tail = post_jobs(posts.len() - 1, posts.last().files);
        lemma_jobs_in_range(posts.drop_last());
        assert forall|j: int| 0 <= j < jobs_of(posts).len() implies 0 <= (#[trigger] jobs_of(
            posts,
        )[j]).post < posts.len() by {
            if j < head.len() {
                assert(jobs_of(posts)[j] == head[j]);
            } else {
                assert(jobs_of(posts)[j] == tail[j - head.len()]);
            }
        }
    }
}

/// Each picked post is a post of the remote thread whose number is in
/// `nums`. Where the remote thread has every number of `nums`, the picked
/// posts carry exactly the numbers `nums`, in that order.
pub proof fn lemma_picked(remote: Seq<RemotePostView>, nums: Seq<u64>)
    ensures
        forall|j: int|
            0 <= j < picked(remote, nums).len() ==> remote.contains(
                #[trigger] picked(remote, nums)[j],
            ) && nums.contains(picked(remote, nums)[j].num),
        (forall|i: int| 0 <= i < nums.len() ==> remote_ids(remote).contains(#[trigger] nums[i]))
            ==> remote_ids(picked(remote, nums)) == nums,
    decreases nums.len(),
{
    if nums.len() > 0 {
        let head = nums.drop_last();
        let rest = picked(remote, head);
        let all = picked(remote, nums);
        let ids = remote_ids(remote);
        let place = first_place(ids, nums.last());
        lemma_picked(remote, head);
        lemma_first_place(ids, nums.last());
        assert forall|j: int| 0 <= j < all.len() implies remote.contains(#[trigger] all[j])
            && nums.contains(all[j].num) by {
            if j < rest.len() {
                assert(all[j] == rest[j]);
                let k = choose|k: int| 0 <= k < head.len() && head[k] == rest[j].num;
                assert(nums[k] == all[j].num);
            } else {
                assert(all[j] == remote[place]);
                assert(ids[place] == remote[place].num);
                assert(nums[nums.len() - 1] == all[j].num);
            }
        }
        if forall|i: int| 0 <= i < nums.len() ==> ids.contains(#[trigger] nums[i]) {
            assert forall|i: int| 0 <= i < head.len() implies ids.contains(#[trigger] head[i]) by {
                assert(head[i] == nums[i]);
            }
            assert(ids.contains(nums[nums.len() - 1]));
            assert(ids[place] == remote[place].num);
            assert(remote_ids(rest) == head);
            assert forall|i: int| 0 <= i < nums.len() implies remote_ids(all)[i] == nums[i] by {
                if i < head.len() {
                    assert(remote_ids(rest)[i] == head[i]);
                }
            }
            assert(remote_ids(all) =~= nums);
        }
    }
}

/// A number of `nums` that the remote thread has picks the first post that
/// carries it.
pub proof fn lemma_picked_holds(remote: Seq<RemotePostView>, nums: Seq<u64>, i: int)
    requires
        0 <= i < nums.len(),
        first_place(remote_ids(remote), nums[i]) >= 0,
    ensures
        picked(remote, nums).contains(remote[first_place(remote_ids(remote), nums[i])]),
    decreases nums.len(),
{
    let all = picked(remote, nums);
    if i == nums.len() - 1 {
        assert(all[all.len() - 1] == remote[first_place(remote_ids(remote), nums[i])]);
    } else {
        let rest = picked(remote, nums.drop_last());
        lemma_picked_holds(remote, nums.drop_last(), i);
        let j = choose|j: int|
            0 <= j < rest.len() && rest[j] == remote[first_place(remote_ids(remote), nums[i])];
        assert(all[j] == rest[j]);
    }
}

/// The posts that a synchronisation appends carry the added ids in rising
/// order, each id once, and each of them is a post of the remote thread.
/// There are as many of them as there are added ids.
pub proof fn lemma_new_posts(stored: Option<ThreadView>, remote: Seq<RemotePostView>)
    ensures
        remote_ids(new_posts(stored, remote)) == rising(added_ids(stored, remote)),
        new_posts(stored, remote).len() == added_ids(stored, remote).len(),
        ascending(remote_ids(new_posts(stored, remote))),
        forall|x: u64|
            #[trigger] remote_ids(new_posts(stored, remote)).contains(x) <==> remote_ids(
                remote,
            ).contains(x) && !post_ids(old_posts(stored)).contains(x),
        forall|j: int|
            0 <= j < new_posts(stored, remote).len() ==> remote.contains(
                #[trigger] new_posts(stored, remote)[j],
            ),
{
    let added = added_ids(stored, remote);
    let nums = rising(added);
    lemma_rising(added);
    lemma_difference_no_duplicates(remote_ids(remote), post_ids(old_posts(stored)));
    lemma_rising_len(added);
    assert forall|i: int| 0 <= i < nums.len() implies remote_ids(remote).contains(
        #[trigger] nums[i],
    ) by {
        assert(nums.contains(nums[i]));
        lemma_difference_contains(remote_ids(remote), post_ids(old_posts(stored)), nums[i]);
    }
    lemma_picked(remote, nums);
    assert forall|x: u64|
        #[trigger] remote_ids(new_posts(stored, remote)).contains(x) <==> remote_ids(
            remote,
        ).contains(x) && !post_ids(old_posts(stored)).contains(x) by {
        lemma_difference_contains(remote_ids(remote), post_ids(old_posts(stored)), x);
    }
}

/// Whether `after` holds every post of `before` at its place, with its id
/// and all its fields, a deletion flag that was set being set still, and
/// has its other posts behind these.
pub open spec fn extends(before: Seq<PostView>, after: Seq<PostView>) -> bool {
    &&& before.len() <= after.len()
    &&& forall|i: int|
        0 <= i < before.len() ==> {
            &&& (#[trigger] after[i]) == (PostView { deleted: after[i].deleted, ..before[i] })
            &&& before[i].deleted ==> after[i].deleted
        }
}

/// Monotonic archive: a synchronisation keeps every stored post at its
/// place, with its id and all its fields; at most its deletion flag goes
/// from unset to set. New posts only follow the stored ones.
pub proof fn lemma_archive_grows(
    thread_id: u64,
    stored: Option<ThreadView>,
    remote: Seq<RemotePostView>,
    outcomes: Seq<Option<Seq<u8>>>,
)
    ensures
        extends(old_posts(stored), merged(thread_id, stored, remote, outcomes).posts),
        post_ids(merged(thread_id, stored, remote, outcomes).posts).take(
            old_posts(stored).len() as int,
        ) == post_ids(old_posts(stored)),
{
    let kept = marked(old_posts(stored), removed_ids(stored, remote));
    let after = merged(thread_id, stored, remote, outcomes).posts;
    assert forall|i: int| 0 <= i < kept.len() implies after[i] == kept[i] by {}
    assert(post_ids(after).take(old_posts(stored).len() as int) =~= post_ids(old_posts(stored)));
}

/// What one synchronisation met: the remote thread, and what came of each
/// attachment that it fetched.
pub ghost struct Round {
    pub remote: Seq<RemotePostView>,
    pub outcomes: Seq<Option<Seq<u8>>>,
}

/// The snapshot after a run of synchronisations, each starting from what
/// the one before it left.
pub open spec fn after_rounds(thread_id: u64, stored: Option<ThreadView>, rounds: Seq<Round>) -> Option<
    ThreadView,
>
    decreases rounds.len(),
{
    if rounds.len() == 0 {
        stored
    } else {
        Some(
            merged(
                thread_id,
                after_rounds(thread_id, stored, rounds.drop_last()),
                rounds.last().remote,
                rounds.last().outcomes,
            ),
        )
    }
}

/// Monotonic archive, over any run of synchronisations: whatever the
/// remote thread shows from round to round, no post that was ever stored
/// leaves the snapshot or changes its place, and no deletion flag is
/// cleared.
pub proof fn lemma_archive_grows_over_rounds(
    thread_id: u64,
    stored: Option<ThreadView>,
    rounds: Seq<Round>,
)
    ensures
        extends(old_posts(stored), old_posts(after_rounds(thread_id, stored, rounds))),
    decreases rounds.len(),
{
    if rounds.len() > 0 {
        let before = after_rounds(thread_id, stored, rounds.drop_last());
        lemma_archive_grows_over_rounds(thread_id, stored, rounds.drop_last());
        lemma_archive_grows(thread_id, before, rounds.last().remote, rounds.last().outcomes);
        let first = old_posts(stored);
        let middle = old_posts(before);
        let last = old_posts(after_rounds(thread_id, stored, rounds));
        assert forall|i: int| 0 <= i < first.len() implies {
            &&& (#[trigger] last[i]) == (PostView { deleted: last[i].deleted, ..first[i] })
            &&& first[i].deleted ==> last[i].deleted
        } by {
            assert(middle[i] == (PostView { deleted: middle[i].deleted, ..first[i] }));
        }
    }
}

/// The ids of the merged snapshot are the stored ids in their order, then
/// the added ids in rising order, each once.
pub proof fn lemma_merged_ids(
    thread_id: u64,
    stored: Option<ThreadView>,
    remote: Seq<RemotePostView>,
    outcomes: Seq<Option<Seq<u8>>>,
)
    ensures
        post_ids(merged(thread_id, stored, remote, outcomes).posts) == post_ids(old_posts(stored))
            + rising(added_ids(stored, remote)),
{
    let old = old_posts(stored);
    let fresh = new_posts(stored, remote);
    let filed = with_outcomes(archived_all(fresh), jobs_of(fresh), outcomes);
    let ids = post_ids(merged(thread_id, stored, remote, outcomes).posts);
    let expected = post_ids(old) + rising(added_ids(stored, remote));
    lemma_with_outcomes_keeps_posts(archived_all(fresh), jobs_of(fresh), outcomes);
    lemma_new_posts(stored, remote);
    assert(ids.len() == expected.len());
    assert forall|i: int| 0 <= i < ids.len() implies ids[i] == expected[i] by {
        if i >= old.len() {
            let a = i - old.len();
            assert(ids[i] == filed[a].id);
            assert(remote_ids(fresh)[a] == fresh[a].num);
        }
    }
    assert(ids =~= expected);
}

/// No id comes to stand twice: where no stored id is repeated, no id of the
/// merged snapshot is, whatever the remote thread lists and in whatever
/// order.
pub proof fn lemma_merged_no_duplicates(
    thread_id: u64,
    stored: Option<ThreadView>,
    remote: Seq<RemotePostView>,
    outcomes: Seq<Option<Seq<u8>>>,
)
    requires
        post_ids(old_posts(stored)).no_duplicates(),
    ensures
        post_ids(merged(thread_id, stored, remote, outcomes).posts).no_duplicates(),
{
    let old_ids = post_ids(old_posts(stored));
    let added = added_ids(stored, remote);
    let ids = post_ids(merged(thread_id, stored, remote, outcomes).posts);
    lemma_merged_ids(thread_id, stored, remote, outcomes);
    lemma_rising(added);
    assert forall|i: int, j: int| 0 <= i < j < ids.len() implies ids[i] != ids[j] by {
        if j >= old_ids.len() {
            let b = j - old_ids.len();
            assert(ids[j] == rising(added)[b]);
            if i >= old_ids.len() {
                assert(rising(added)[i - old_ids.len()] < rising(added)[b]);
            } else {
                assert(rising(added).contains(ids[j]));
                lemma_difference_contains(remote_ids(remote), old_ids, ids[j]);
                assert(old_ids[i] == ids[i]);
            }
        } else {
            assert(old_ids[i] != old_ids[j]);
        }
    }
}

/// The order of a snapshot is kept: where the stored ids rise and every
/// remote post that the snapshot lacks is numbered above all stored posts,
/// the ids of the merged snapshot rise too, so that none occurs twice. The
/// remote posts may come in any order.
pub proof fn lemma_merged_ascending(
    thread_id: u64,
    stored: Option<ThreadView>,
    remote: Seq<RemotePostView>,
    outcomes: Seq<Option<Seq<u8>>>,
)
    requires
        ascending(post_ids(old_posts(stored))),
        forall|i: int, j: int|
            0 <= i < old_posts(stored).len() && 0 <= j < remote.len() && !post_ids(
                old_posts(stored),
            ).contains(#[trigger] remote[j].num) ==> (#[trigger] old_posts(stored)[i]).id
                < remote[j].num,
    ensures
        ascending(post_ids(merged(thread_id, stored, remote, outcomes).posts)),
{
    let old = old_posts(stored);
    let old_ids = post_ids(old);
    let new_ids = remote_ids(remote);
    let fresh = new_posts(stored, remote);
    let filed = with_outcomes(archived_all(fresh), jobs_of(fresh), outcomes);
    let ids = post_ids(merged(thread_id, stored, remote, outcomes).posts);
    lemma_with_outcomes_keeps_posts(archived_all(fresh), jobs_of(fresh), outcomes);
    lemma_new_posts(stored, remote);
    assert forall|i: int, j: int| 0 <= i < j < ids.len() implies ids[i] < ids[j] by {
        if j < old.len() {
            assert(old_ids[i] < old_ids[j]);
        } else if i >= old.len() {
            let a = i - old.len();
            let b = j - old.len();
            assert(ids[i] == filed[a].id);
            assert(ids[j] == filed[b].id);
            assert(remote_ids(fresh)[a] < remote_ids(fresh)[b]);
        } else {
            let b = j - old.len();
            assert(ids[j] == filed[b].id);
            assert(ids[i] == old[i].id);
            assert(remote_ids(fresh)[b] == fresh[b].num);
            assert(remote_ids(fresh).contains(fresh[b].num));
            let k = choose|k: int| 0 <= k < new_ids.len() && new_ids[k] == fresh[b].num;
            assert(remote[k].num == fresh[b].num);
            assert(old[i].id < remote[k].num);
        }
    }
}

/// Idempotence: synchronising again against the same remote thread finds
/// no new post and no attachment to fetch, and yields the very snapshot
/// that the first synchronisation left.
pub proof fn lemma_sync_idempotent(
    thread_id: u64,
    stored: Option<ThreadView>,
    remote: Seq<RemotePostView>,
    outcomes: Seq<Option<Seq<u8>>>,
)
    ensures
        ({
            let first = merged(thread_id, stored, remote, outcomes);
            &&& added_ids(Some(first), remote).len() == 0
            &&& new_posts(Some(first), remote).len() == 0
            &&& jobs_of(new_posts(Some(first), remote)).len() == 0
            &&& merged(thread_id, Some(first), remote, Seq::empty()) == first
        }),
{
    let old = old_posts(stored);
    let old_ids = post_ids(old);
    let new_ids = remote_ids(remote);
    let removed = removed_ids(stored, remote);
    let added = added_ids(stored, remote);
    let fresh = new_posts(stored, remote);
    let filed = with_outcomes(archived_all(fresh), jobs_of(fresh), outcomes);
    let first = merged(thread_id, stored, remote, outcomes);
    let ids = post_ids(first.posts);
    let removed2 = removed_ids(Some(first), remote);
    let added2 = added_ids(Some(first), remote);

    lemma_with_outcomes_keeps_posts(archived_all(fresh), jobs_of(fresh), outcomes);
    lemma_new_posts(stored, remote);

    // Every remote id is in the first snapshot.
    assert forall|x: u64| new_ids.contains(x) implies ids.contains(x) by {
        if old_ids.contains(x) {
            let i = choose|i: int| 0 <= i < old_ids.len() && old_ids[i] == x;
            assert(ids[i] == x);
        } else {
            assert(remote_ids(fresh).contains(x));
            let j = choose|j: int| 0 <= j < fresh.len() && remote_ids(fresh)[j] == x;
            assert(filed[j].id == x);
            assert(first.posts[old.len() + j] == filed[j]);
            assert(ids[old.len() + j] == x);
        }
    }
    // So nothing is added the second time.
    if added2.len() > 0 {
        let x = added2[0];
        assert(added2.contains(x));
        lemma_difference_contains(new_ids, ids, x);
    }
    assert(rising(added2) =~= Seq::<u64>::empty());
    let fresh2 = new_posts(Some(first), remote);
    assert(fresh2 =~= Seq::<RemotePostView>::empty());
    assert(jobs_of(fresh2) =~= Seq::<JobView>::empty());
    // And every flag that would be set is set already.
    assert forall|i: int| 0 <= i < first.posts.len() implies marked_post(
        #[trigger] first.posts[i],
        removed2,
    ) == first.posts[i] by {
        let p = first.posts[i];
        assert(ids[i] == p.id);
        lemma_difference_contains(ids, new_ids, p.id);
        if removed2.contains(p.id) {
            if i < old.len() {
                assert(old_ids[i] == old[i].id);
                assert(p == marked_post(old[i], removed));
                lemma_difference_contains(old_ids, new_ids, p.id);
            } else {
                let j = i - old.len();
                assert(p == filed[j]);
                assert(remote_ids(fresh)[j] == p.id);
                assert(remote_ids(fresh).contains(p.id));
            }
        }
    }
    let second = merged(thread_id, Some(first), remote, Seq::empty());
    assert(second.posts =~= first.posts);
}

/// The ids of stored posts, in order.
pub fn stored_ids(posts: &Vec<Post>) -> (ids: Vec<u64>)
    ensures
        ids@ == post_ids(post_views(posts@)),
{
    let mut ids: Vec<u64> = Vec::new();
    let mut i: usize = 0;
    while i < posts.len()
        invariant
            i <= posts.len(),
            ids@ == post_ids(post_views(posts@.take(i as int))),
        decreases posts.len() - i,
    {
        ids.push(posts[i].id);
        assert(ids@ =~= post_ids(post_views(posts@.take(i + 1))));
        i += 1;
    }
    assert(posts@.take(posts.len() as int) == posts@);
    ids
}

/// The numbers of remote posts, in order.
pub fn remote_numbers(posts: &Vec<ThreadThreadsThreadPost>) -> (ids: Vec<u64>)
    ensures
        ids@ == remote_ids(remote_post_views(posts@)),
{
    let mut ids: Vec<u64> = Vec::new();
    let mut i: usize = 0;
    while i < posts.len()
        invariant
            i <= posts.len(),
            ids@ == remote_ids(remote_post_views(posts@.take(i as int))),
        decreases posts.len() - i,
    {
        ids.push(posts[i].num);
        assert(ids@ =~= remote_ids(remote_post_views(posts@.take(i + 1))));
        i += 1;
    }
    assert(posts@.take(posts.len() as int) == posts@);
    ids
}

/// Turns a remote post into an archived one without attachments. A post
/// whose opening mark is neither 0 nor 1 is refused.
pub fn convert_post(post: &ThreadThreadsThreadPost) -> (r: Result<Post, SyncError>)
    ensures
        match r {
            Ok(converted) => post@.op <= 1 && converted@ == archived(post@),
            Err(e) => post@.op > 1 && e == SyncError::ProtocolInvariantViolation,
        },
{
    let op = if post.op == 0 {
        false
    } else if post.op == 1 {
        true
    } else {
        return Err(SyncError::ProtocolInvariantViolation);
    };
    let converted = Post {
        id: post.num,
        timestamp: post.timestamp,
        name: post.name.clone(),
        email: post.email.clone(),
        subject: post.subject.clone(),
        message: post.comment.clone(),
        op,
        files: Vec::new(),
        deleted: false,
    };
    assert(converted@.files =~= Seq::<FileView>::empty());
    Ok(converted)
}

/// Converts the remote posts numbered by `added`, in rising order of their
/// numbers and one post for each number, and lists the jobs for their
/// attachments. Fails where one of these posts carries an opening mark
/// that is neither 0 nor 1.
pub fn materialize(remote: &Vec<ThreadThreadsThreadPost>, added: &Vec<u64>) -> (r: Result<
    (Vec<Post>, Vec<AttachmentJob>),
    SyncError,
>)
    ensures
        match r {
            Ok((posts, jobs)) => {
                let fresh = picked(remote_post_views(remote@), rising(added@));
                &&& markers_valid(fresh)
                &&& post_views(posts@) == archived_all(fresh)
                &&& job_views(jobs@) == jobs_of(fresh)
            },
            Err(e) => {
                &&& !markers_valid(picked(remote_post_views(remote@), rising(added@)))
                &&& e == SyncError::ProtocolInvariantViolation
            },
        },
{
    let ghost all = remote_post_views(remote@);
    let numbers = remote_numbers(remote);
    let order = sort_ids(added);
    let mut posts: Vec<Post> = Vec::new();
    let mut jobs: Vec<AttachmentJob> = Vec::new();
    let mut i: usize = 0;
    while i < order.len()
        invariant
            i <= order.len(),
            all == remote_post_views(remote@),
            numbers@ == remote_ids(all),
            order@ == rising(added@),
            markers_valid(picked(all, order@.take(i as int))),
            post_views(posts@) == archived_all(picked(all, order@.take(i as int))),
            job_views(jobs@) == jobs_of(picked(all, order@.take(i as int))),
        decreases order.len() - i,
    {
        let ghost before = picked(all, order@.take(i as int));
        proof {
            assert(order@.take(i + 1).drop_last() == order@.take(i as int));
            assert(order@.take(i + 1).last() == order@[i as int]);
            lemma_first_place(numbers@, order@[i as int]);
        }
        match first_index(&numbers, order[i]) {
            None => {},
            Some(place) => {
                let post = &remote[place];
                assert(all[place as int] == post@);
                match convert_post(post) {
                    Err(e) => {
                        proof {
                            lemma_picked_holds(all, order@, i as int);
                            let chosen = picked(all, order@);
                            let j = choose|j: int| 0 <= j < chosen.len() && chosen[j] == post@;
                            assert(chosen[j].op > 1);
                        }
                        return Err(e);
                    },
                    Ok(converted) => {
                        let k = posts.len();
                        let ghost listed = job_views(jobs@);
                        let ghost prior = posts@;
                        posts.push(converted);
                        proof {
                            assert(picked(all, order@.take(i + 1)) == before.push(post@));
                            assert(before.push(post@).drop_last() == before);
                            assert(post_views(posts@) =~= post_views(prior).push(archived(post@)));
                            assert(archived_all(before.push(post@)) =~= archived_all(before).push(
                                archived(post@),
                            ));
                            assert forall|x: int| 0 <= x < before.len() + 1 implies (
                            #[trigger] before.push(post@)[x]).op <= 1 by {
                                if x < before.len() {
                                    assert(before[x].op <= 1);
                                }
                            }
                        }
                        match &post.files {
                            None => {
                                assert(listed + post_jobs(k as int, post@.files) =~= listed);
                            },
                            Some(files) => {
                                let mut j: usize = 0;
                                while j < files.len()
                                    invariant
                                        j <= files.len(),
                                        post.files == Some(*files),
                                        job_views(jobs@) == listed + Seq::new(
                                            j as nat,
                                            |x: int|
                                                JobView {
                                                    post: k as int,
                                                    path: post@.files[x].path,
                                                    name: post@.files[x].name,
                                                },
                                        ),
                                    decreases files.len() - j,
                                {
                                    let ghost queued = jobs@;
                                    let job = AttachmentJob {
                                        post: k,
                                        path: files[j].path.clone(),
                                        name: files[j].name.clone(),
                                    };
                                    jobs.push(job);
                                    proof {
                                        assert(post@.files[j as int] == files@[j as int]@);
                                        assert(job_views(jobs@) =~= job_views(queued).push(job@));
                                        assert(job_views(jobs@) =~= listed + Seq::new(
                                            (j + 1) as nat,
                                            |x: int|
                                                JobView {
                                                    post: k as int,
                                                    path: post@.files[x].path,
                                                    name: post@.files[x].name,
                                                },
                                        ));
                                    }
                                    j += 1;
                                }
                                assert(job_views(jobs@) =~= listed + post_jobs(k as int, post@.files));
                            },
                        }
                    },
                }
            },
        }
        i += 1;
    }
    proof {
        assert(order@.take(order.len() as int) == order@);
    }
    Ok((posts, jobs))
}

/// Adds `file` behind the files of the post at place `k`.
pub fn attach(posts: &mut Vec<Post>, k: usize, file: File)
    requires
        k < old(posts).len(),
    ensures
        post_views(final(posts)@) == with_file(post_views(old(posts)@), k as int, file@),
{
    let ghost files = posts@[k as int].files@;
    posts[k].files.push(file);
    proof {
        assert(file_views(posts@[k as int].files@) =~= file_views(files).push(file@));
        assert(post_views(posts@) =~= with_file(post_views(old(posts)@), k as int, file@));
    }
}

} // verus!
