use std::collections::HashMap;

use crawler_2ch::api;
use crawler_2ch::api::{ThreadThreadsThreadPost, ThreadThreadsThreadPostFile};
use crawler_2ch::content::attachment_id;
use crawler_2ch::db::{File, Post, Thread};
use crawler_2ch::error::SyncError;
use crawler_2ch::schedule::{board_report, board_round, BoardReport};
use crawler_2ch::sync::{Action, Event, Phase, SyncSummary, ThreadSync};

/// The remote service of the tests: threads by id, attachments by path.
struct Remote {
    threads: HashMap<u64, api::Thread>,
    files: HashMap<String, Vec<u8>>,
}

/// The store of the tests, which counts what is written to it.
struct Store {
    snapshots: HashMap<u64, Thread>,
    blobs: HashMap<String, Vec<u8>>,
    blob_writes: usize,
    snapshot_writes: usize,
    attachment_fetches: usize,
    refuse_blobs: bool,
    refuse_snapshots: bool,
}

fn remote_post(num: u64, op: u8, files: &[(&str, &str)]) -> ThreadThreadsThreadPost {
    ThreadThreadsThreadPost {
        num,
        comment: format!("comment {}", num),
        timestamp: 1_600_000_000 + num,
        subject: format!("subject {}", num),
        email: format!("mail {}", num),
        name: format!("name {}", num),
        op,
        files: if files.is_empty() {
            None
        } else {
            Some(
                files
                    .iter()
                    .map(|(path, name)| ThreadThreadsThreadPostFile {
                        path: path.to_string(),
                        name: name.to_string(),
                    })
                    .collect(),
            )
        },
    }
}

fn remote_thread(posts: Vec<ThreadThreadsThreadPost>) -> api::Thread {
    api::Thread { threads: api::ThreadThreads { thread: api::ThreadThreadsThread { posts } } }
}

fn archived(num: u64, op: bool, files: Vec<File>, deleted: bool) -> Post {
    Post {
        id: num,
        timestamp: 1_600_000_000 + num,
        name: format!("name {}", num),
        email: format!("mail {}", num),
        subject: format!("subject {}", num),
        message: format!("comment {}", num),
        op,
        files,
        deleted,
    }
}

fn empty_remote() -> Remote {
    Remote { threads: HashMap::new(), files: HashMap::new() }
}

fn empty_store() -> Store {
    Store {
        snapshots: HashMap::new(),
        blobs: HashMap::new(),
        blob_writes: 0,
        snapshot_writes: 0,
        attachment_fetches: 0,
        refuse_blobs: false,
        refuse_snapshots: false,
    }
}

fn perform(remote: &Remote, store: &mut Store, thread: u64, action: Action) -> Event {
    match action {
        Action::FetchThread => Event::ThreadFetched { thread: remote.threads.get(&thread).cloned() },
        Action::ReadSnapshot => Event::SnapshotRead { snapshot: store.snapshots.get(&thread).cloned() },
        Action::FetchAttachment { path } => {
            store.attachment_fetches += 1;
            Event::AttachmentFetched { bytes: remote.files.get(&path).cloned() }
        }
        Action::CheckBlob { id } => Event::BlobChecked { present: store.blobs.contains_key(&id) },
        Action::WriteBlob { id, bytes } => {
            if store.refuse_blobs {
                Event::BlobWritten { written: false }
            } else {
                store.blob_writes += 1;
                store.blobs.insert(id, bytes);
                Event::BlobWritten { written: true }
            }
        }
        Action::WriteSnapshot { snapshot } => {
            if store.refuse_snapshots {
                Event::SnapshotWritten { written: false }
            } else {
                store.snapshot_writes += 1;
                store.snapshots.insert(thread, snapshot);
                Event::SnapshotWritten { written: true }
            }
        }
        Action::Finish { .. } => unreachable!("a finished engine asks for nothing"),
    }
}

fn sync_thread_once(remote: &Remote, store: &mut Store, thread: u64) -> Result<SyncSummary, SyncError> {
    let (mut engine, mut action) = ThreadSync::start(thread);
    loop {
        if let Action::Finish { outcome } = action {
            assert_eq!(engine.phase(), Phase::Done);
            return outcome;
        }
        let event = perform(remote, store, thread, action);
        assert!(engine.expects(&event));
        action = engine.step(event).expect("the event answers the open request");
    }
}

fn sync_board_once(remote: &Remote, store: &mut Store, catalogue: Option<api::Catalogue>) -> Result<BoardReport, SyncError> {
    let threads = board_round(catalogue)?;
    let outcomes: Vec<Option<Result<SyncSummary, SyncError>>> =
        threads.into_iter().map(|thread| Some(sync_thread_once(remote, store, thread))).collect();
    Ok(board_report(&outcomes))
}

#[test]
fn first_sync_of_a_thread_with_one_post() {
    let mut remote = empty_remote();
    remote.threads.insert(100, remote_thread(vec![remote_post(100, 1, &[])]));
    let mut store = empty_store();
    let outcome = sync_thread_once(&remote, &mut store, 100);
    assert_eq!(outcome, Ok(SyncSummary { discovered: true, added: 1, removed_flagged: 0 }));
    assert_eq!(
        store.snapshots.get(&100),
        Some(&Thread { id: 100, posts: vec![archived(100, true, vec![], false)] })
    );
    assert_eq!(store.snapshot_writes, 1);
    assert!(store.blobs.is_empty());
}

#[test]
fn sync_flags_what_left_and_appends_what_came() {
    let mut remote = empty_remote();
    remote.threads.insert(
        1,
        remote_thread(vec![remote_post(2, 0, &[]), remote_post(3, 0, &[]), remote_post(4, 0, &[])]),
    );
    let mut store = empty_store();
    let before = Thread {
        id: 1,
        posts: vec![
            archived(1, true, vec![], false),
            archived(2, false, vec![File { id: String::from("kept.png"), name: String::from("k") }], false),
            archived(3, false, vec![], false),
        ],
    };
    store.snapshots.insert(1, before.clone());
    let outcome = sync_thread_once(&remote, &mut store, 1);
    assert_eq!(outcome, Ok(SyncSummary { discovered: false, added: 1, removed_flagged: 1 }));
    let after = store.snapshots.get(&1).unwrap();
    assert_eq!(after.id, 1);
    assert_eq!(after.posts.len(), 4);
    assert_eq!(after.posts[0], archived(1, true, vec![], true));
    assert_eq!(after.posts[1], before.posts[1]);
    assert_eq!(after.posts[2], before.posts[2]);
    assert_eq!(after.posts[3], archived(4, false, vec![], false));
}

#[test]
fn post_is_archived_without_the_attachment_that_failed() {
    let mut remote = empty_remote();
    remote.threads.insert(
        7,
        remote_thread(vec![remote_post(7, 1, &[("b/src/7/lost.png", "lost.png"), ("b/src/7/here.jpg", "here.jpg")])]),
    );
    remote.files.insert(String::from("b/src/7/here.jpg"), vec![1, 2, 3]);
    let mut store = empty_store();
    let outcome = sync_thread_once(&remote, &mut store, 7);
    assert_eq!(outcome, Ok(SyncSummary { discovered: true, added: 1, removed_flagged: 0 }));
    let id = attachment_id(&[1, 2, 3], "jpg");
    assert_eq!(
        store.snapshots.get(&7).unwrap().posts,
        vec![archived(7, true, vec![File { id: id.clone(), name: String::from("here.jpg") }], false)]
    );
    assert_eq!(store.attachment_fetches, 2);
    assert_eq!(store.blobs.len(), 1);
    assert_eq!(store.blobs.get(&id), Some(&vec![1, 2, 3]));
}

#[test]
fn post_is_archived_when_every_attachment_failed() {
    let mut remote = empty_remote();
    remote.threads.insert(7, remote_thread(vec![remote_post(7, 1, &[("a.png", "a"), ("b.png", "b")])]));
    let mut store = empty_store();
    let outcome = sync_thread_once(&remote, &mut store, 7);
    assert_eq!(outcome, Ok(SyncSummary { discovered: true, added: 1, removed_flagged: 0 }));
    assert_eq!(store.snapshots.get(&7).unwrap().posts, vec![archived(7, true, vec![], false)]);
    assert!(store.blobs.is_empty());
}

#[test]
fn board_round_goes_on_past_a_thread_that_failed() {
    let mut remote = empty_remote();
    remote.threads.insert(1, remote_thread(vec![remote_post(1, 1, &[])]));
    remote.threads.insert(3, remote_thread(vec![remote_post(3, 1, &[]), remote_post(5, 0, &[])]));
    let catalogue = api::Catalogue {
        threads: vec![
            api::CatalogueThread { num: 1 },
            api::CatalogueThread { num: 2 },
            api::CatalogueThread { num: 3 },
        ],
    };
    let mut store = empty_store();
    let report = sync_board_once(&remote, &mut store, Some(catalogue));
    assert_eq!(report, Ok(BoardReport { synced: 2, failed: 1 }));
    assert_eq!(store.snapshots.len(), 2);
    assert_eq!(store.snapshots.get(&1).unwrap().posts.len(), 1);
    assert!(store.snapshots.get(&2).is_none());
    assert_eq!(store.snapshots.get(&3).unwrap().posts.len(), 2);
}

#[test]
fn board_round_without_a_catalogue_fails() {
    let remote = empty_remote();
    let mut store = empty_store();
    assert_eq!(sync_board_once(&remote, &mut store, None), Err(SyncError::FetchError));
    assert!(store.snapshots.is_empty());
}

#[test]
fn second_sync_against_the_same_remote_changes_nothing() {
    let mut remote = empty_remote();
    remote.threads.insert(
        9,
        remote_thread(vec![remote_post(9, 1, &[("b/src/9/a.png", "a.png")]), remote_post(12, 0, &[("b/src/9/b.webm", "b.webm")])]),
    );
    remote.files.insert(String::from("b/src/9/a.png"), vec![10, 20]);
    remote.files.insert(String::from("b/src/9/b.webm"), vec![30]);
    let mut store = empty_store();
    assert_eq!(
        sync_thread_once(&remote, &mut store, 9),
        Ok(SyncSummary { discovered: true, added: 2, removed_flagged: 0 })
    );
    let first = store.snapshots.get(&9).unwrap().clone();
    let blobs = store.blobs.clone();
    let fetches = store.attachment_fetches;
    assert_eq!(
        sync_thread_once(&remote, &mut store, 9),
        Ok(SyncSummary { discovered: false, added: 0, removed_flagged: 0 })
    );
    assert_eq!(store.snapshots.get(&9), Some(&first));
    assert_eq!(store.blobs, blobs);
    assert_eq!(store.blob_writes, 2);
    assert_eq!(store.attachment_fetches, fetches);
    assert_eq!(store.snapshot_writes, 1);
}

#[test]
fn second_sync_with_a_post_gone_leaves_the_same_snapshot() {
    let mut remote = empty_remote();
    remote.threads.insert(1, remote_thread(vec![remote_post(2, 0, &[("x.png", "x")])]));
    remote.files.insert(String::from("x.png"), vec![5]);
    let mut store = empty_store();
    store.snapshots.insert(1, Thread { id: 1, posts: vec![archived(1, true, vec![], false)] });
    assert_eq!(
        sync_thread_once(&remote, &mut store, 1),
        Ok(SyncSummary { discovered: false, added: 1, removed_flagged: 1 })
    );
    let first = store.snapshots.get(&1).unwrap().clone();
    assert!(first.posts[0].deleted);
    let outcome = sync_thread_once(&remote, &mut store, 1);
    assert_eq!(outcome, Ok(SyncSummary { discovered: false, added: 0, removed_flagged: 1 }));
    assert_eq!(store.snapshots.get(&1), Some(&first));
    assert_eq!(store.blob_writes, 1);
    assert_eq!(store.attachment_fetches, 1);
}

#[test]
fn equal_content_is_stored_once() {
    let mut remote = empty_remote();
    remote.threads.insert(
        4,
        remote_thread(vec![remote_post(4, 1, &[("one/cat.png", "cat.png")]), remote_post(5, 0, &[("two/same.png", "same.png")])]),
    );
    remote.files.insert(String::from("one/cat.png"), vec![7, 7, 7]);
    remote.files.insert(String::from("two/same.png"), vec![7, 7, 7]);
    let mut store = empty_store();
    sync_thread_once(&remote, &mut store, 4).unwrap();
    let posts = &store.snapshots.get(&4).unwrap().posts;
    assert_eq!(posts[0].files[0].id, posts[1].files[0].id);
    assert_eq!(posts[0].files[0].name, "cat.png");
    assert_eq!(posts[1].files[0].name, "same.png");
    assert_eq!(store.blobs.len(), 1);
    assert_eq!(store.blob_writes, 1);
}

#[test]
fn archive_only_grows_over_many_rounds() {
    let rounds: Vec<Vec<u64>> = vec![vec![1, 2, 3], vec![1, 3, 4], vec![4, 5], vec![], vec![1, 2, 6]];
    let mut store = empty_store();
    let mut seen: Vec<u64> = vec![];
    for ids in rounds {
        let mut remote = empty_remote();
        remote.threads.insert(1, remote_thread(ids.iter().map(|id| remote_post(*id, 0, &[])).collect()));
        sync_thread_once(&remote, &mut store, 1).unwrap();
        let now: Vec<u64> = store.snapshots.get(&1).unwrap().posts.iter().map(|p| p.id).collect();
        assert_eq!(&now[..seen.len()], &seen[..]);
        for post in &store.snapshots.get(&1).unwrap().posts {
            if !ids.contains(&post.id) {
                assert!(post.deleted);
            }
        }
        seen = now;
    }
    assert_eq!(seen, vec![1, 2, 3, 4, 5, 6]);
}

#[test]
fn post_that_comes_back_stays_flagged() {
    let mut store = empty_store();
    let mut remote = empty_remote();
    remote.threads.insert(1, remote_thread(vec![remote_post(1, 1, &[]), remote_post(2, 0, &[])]));
    sync_thread_once(&remote, &mut store, 1).unwrap();
    remote.threads.insert(1, remote_thread(vec![remote_post(1, 1, &[])]));
    sync_thread_once(&remote, &mut store, 1).unwrap();
    assert!(store.snapshots.get(&1).unwrap().posts[1].deleted);
    remote.threads.insert(1, remote_thread(vec![remote_post(1, 1, &[]), remote_post(2, 0, &[])]));
    let outcome = sync_thread_once(&remote, &mut store, 1);
    assert_eq!(outcome, Ok(SyncSummary { discovered: false, added: 0, removed_flagged: 0 }));
    let posts = &store.snapshots.get(&1).unwrap().posts;
    assert_eq!(posts.len(), 2);
    assert!(posts[1].deleted);
}

#[test]
fn thread_that_cannot_be_fetched_persists_nothing() {
    let remote = empty_remote();
    let mut store = empty_store();
    store.snapshots.insert(8, Thread { id: 8, posts: vec![archived(8, true, vec![], false)] });
    let before = store.snapshots.clone();
    assert_eq!(sync_thread_once(&remote, &mut store, 8), Err(SyncError::FetchError));
    assert_eq!(store.snapshots, before);
    assert_eq!(store.snapshot_writes, 0);
}

#[test]
fn unknown_opening_mark_fails_the_sync_and_persists_nothing() {
    let mut remote = empty_remote();
    remote.threads.insert(3, remote_thread(vec![remote_post(3, 1, &[("a.png", "a")]), remote_post(4, 2, &[])]));
    remote.files.insert(String::from("a.png"), vec![1]);
    let mut store = empty_store();
    assert_eq!(sync_thread_once(&remote, &mut store, 3), Err(SyncError::ProtocolInvariantViolation));
    assert!(store.snapshots.is_empty());
    assert!(store.blobs.is_empty());
    assert_eq!(store.attachment_fetches, 0);
}

#[test]
fn blob_that_cannot_be_written_fails_the_sync() {
    let mut remote = empty_remote();
    remote.threads.insert(3, remote_thread(vec![remote_post(3, 1, &[("a.png", "a")])]));
    remote.files.insert(String::from("a.png"), vec![1]);
    let mut store = empty_store();
    store.refuse_blobs = true;
    assert_eq!(sync_thread_once(&remote, &mut store, 3), Err(SyncError::StoreWriteError));
    assert!(store.snapshots.is_empty());
}

#[test]
fn snapshot_that_cannot_be_written_fails_the_sync() {
    let mut remote = empty_remote();
    remote.threads.insert(3, remote_thread(vec![remote_post(3, 1, &[])]));
    let mut store = empty_store();
    store.refuse_snapshots = true;
    assert_eq!(sync_thread_once(&remote, &mut store, 3), Err(SyncError::StoreWriteError));
    assert!(store.snapshots.is_empty());
}

#[test]
fn nothing_new_writes_nothing() {
    let mut remote = empty_remote();
    remote.threads.insert(6, remote_thread(vec![remote_post(6, 1, &[("a.png", "a")])]));
    remote.files.insert(String::from("a.png"), vec![1]);
    let mut store = empty_store();
    let kept = Thread { id: 6, posts: vec![archived(6, true, vec![], false)] };
    store.snapshots.insert(6, kept.clone());
    let outcome = sync_thread_once(&remote, &mut store, 6);
    assert_eq!(outcome, Ok(SyncSummary { discovered: false, added: 0, removed_flagged: 0 }));
    assert_eq!(store.snapshot_writes, 0);
    assert_eq!(store.attachment_fetches, 0);
    assert_eq!(store.snapshots.get(&6), Some(&kept));
}

#[test]
fn discovered_thread_without_posts_gets_an_empty_snapshot() {
    let mut remote = empty_remote();
    remote.threads.insert(11, remote_thread(vec![]));
    let mut store = empty_store();
    let outcome = sync_thread_once(&remote, &mut store, 11);
    assert_eq!(outcome, Ok(SyncSummary { discovered: true, added: 0, removed_flagged: 0 }));
    assert_eq!(store.snapshots.get(&11), Some(&Thread { id: 11, posts: vec![] }));
}

#[test]
fn snapshot_keeps_the_id_it_was_stored_with() {
    let mut remote = empty_remote();
    remote.threads.insert(20, remote_thread(vec![remote_post(21, 0, &[])]));
    let mut store = empty_store();
    store.snapshots.insert(20, Thread { id: 19, posts: vec![] });
    sync_thread_once(&remote, &mut store, 20).unwrap();
    assert_eq!(store.snapshots.get(&20).unwrap().id, 19);
}

#[test]
fn requests_come_in_order() {
    let (mut engine, first) = ThreadSync::start(5);
    assert_eq!(first, Action::FetchThread);
    assert_eq!(engine.thread_id(), 5);
    assert_eq!(engine.phase(), Phase::AwaitThread);
    let thread = remote_thread(vec![remote_post(5, 1, &[("d/a.png", "a.png"), ("d/b", "b")])]);
    assert_eq!(engine.step(Event::ThreadFetched { thread: Some(thread) }), Some(Action::ReadSnapshot));
    assert_eq!(engine.phase(), Phase::AwaitSnapshot);
    assert_eq!(
        engine.step(Event::SnapshotRead { snapshot: None }),
        Some(Action::FetchAttachment { path: String::from("d/a.png") })
    );
    assert_eq!(engine.phase(), Phase::AwaitAttachment);
    let first_id = attachment_id(&[1], "png");
    assert_eq!(
        engine.step(Event::AttachmentFetched { bytes: Some(vec![1]) }),
        Some(Action::CheckBlob { id: first_id.clone() })
    );
    assert_eq!(engine.phase(), Phase::AwaitBlobCheck);
    assert_eq!(
        engine.step(Event::BlobChecked { present: false }),
        Some(Action::WriteBlob { id: first_id.clone(), bytes: vec![1] })
    );
    assert_eq!(engine.phase(), Phase::AwaitBlobWrite);
    assert_eq!(
        engine.step(Event::BlobWritten { written: true }),
        Some(Action::FetchAttachment { path: String::from("d/b") })
    );
    let second_id = attachment_id(&[2], "");
    assert_eq!(
        engine.step(Event::AttachmentFetched { bytes: Some(vec![2]) }),
        Some(Action::CheckBlob { id: second_id.clone() })
    );
    let snapshot = Thread {
        id: 5,
        posts: vec![archived(
            5,
            true,
            vec![
                File { id: first_id, name: String::from("a.png") },
                File { id: second_id, name: String::from("b") },
            ],
            false,
        )],
    };
    assert_eq!(engine.step(Event::BlobChecked { present: true }), Some(Action::WriteSnapshot { snapshot }));
    assert_eq!(engine.phase(), Phase::AwaitSnapshotWrite);
    assert_eq!(
        engine.step(Event::SnapshotWritten { written: true }),
        Some(Action::Finish { outcome: Ok(SyncSummary { discovered: true, added: 1, removed_flagged: 0 }) })
    );
    assert_eq!(engine.phase(), Phase::Done);
}

#[test]
fn event_that_answers_nothing_is_refused() {
    let (mut engine, _) = ThreadSync::start(5);
    assert!(!engine.expects(&Event::SnapshotRead { snapshot: None }));
    assert_eq!(engine.step(Event::SnapshotRead { snapshot: None }), None);
    assert_eq!(engine.step(Event::BlobChecked { present: true }), None);
    assert_eq!(engine.step(Event::BlobWritten { written: true }), None);
    assert_eq!(engine.step(Event::SnapshotWritten { written: true }), None);
    assert_eq!(engine.step(Event::AttachmentFetched { bytes: None }), None);
    assert_eq!(engine.phase(), Phase::AwaitThread);
    assert!(engine.expects(&Event::ThreadFetched { thread: None }));
    let thread = remote_thread(vec![remote_post(5, 1, &[])]);
    assert_eq!(engine.step(Event::ThreadFetched { thread: Some(thread.clone()) }), Some(Action::ReadSnapshot));
    assert_eq!(engine.step(Event::ThreadFetched { thread: Some(thread) }), None);
    assert_eq!(engine.phase(), Phase::AwaitSnapshot);
}

#[test]
fn finished_engine_takes_no_event() {
    let (mut engine, _) = ThreadSync::start(5);
    assert_eq!(
        engine.step(Event::ThreadFetched { thread: None }),
        Some(Action::Finish { outcome: Err(SyncError::FetchError) })
    );
    assert_eq!(engine.phase(), Phase::Done);
    assert_eq!(engine.step(Event::ThreadFetched { thread: None }), None);
    assert_eq!(engine.step(Event::SnapshotRead { snapshot: None }), None);
    assert_eq!(engine.step(Event::SnapshotWritten { written: true }), None);
    assert_eq!(engine.phase(), Phase::Done);
}

#[test]
fn remote_post_listed_twice_is_archived_once() {
    let mut remote = empty_remote();
    let mut second = remote_post(2, 0, &[("late.png", "late")]);
    second.comment = String::from("listed again");
    remote.threads.insert(2, remote_thread(vec![remote_post(2, 1, &[]), second]));
    remote.files.insert(String::from("late.png"), vec![1]);
    let mut store = empty_store();
    let outcome = sync_thread_once(&remote, &mut store, 2);
    assert_eq!(outcome, Ok(SyncSummary { discovered: true, added: 1, removed_flagged: 0 }));
    assert_eq!(store.snapshots.get(&2).unwrap().posts, vec![archived(2, true, vec![], false)]);
    assert_eq!(store.attachment_fetches, 0);
}

#[test]
fn new_posts_are_appended_in_rising_order() {
    let mut remote = empty_remote();
    remote.threads.insert(4, remote_thread(vec![remote_post(5, 0, &[]), remote_post(4, 1, &[])]));
    let mut store = empty_store();
    let outcome = sync_thread_once(&remote, &mut store, 4);
    assert_eq!(outcome, Ok(SyncSummary { discovered: true, added: 2, removed_flagged: 0 }));
    assert_eq!(
        store.snapshots.get(&4).unwrap().posts,
        vec![archived(4, true, vec![], false), archived(5, false, vec![], false)]
    );
}

#[test]
fn new_posts_in_any_order_follow_the_stored_ones_in_rising_order() {
    let mut remote = empty_remote();
    remote.threads.insert(
        1,
        remote_thread(vec![
            remote_post(9, 0, &[("nine.png", "nine")]),
            remote_post(2, 0, &[]),
            remote_post(7, 0, &[("seven.png", "seven")]),
            remote_post(8, 0, &[]),
            remote_post(7, 0, &[]),
            remote_post(1, 1, &[]),
        ]),
    );
    remote.files.insert(String::from("nine.png"), vec![9]);
    remote.files.insert(String::from("seven.png"), vec![7]);
    let mut store = empty_store();
    store.snapshots.insert(
        1,
        Thread { id: 1, posts: vec![archived(1, true, vec![], false), archived(2, false, vec![], false), archived(3, false, vec![], false)] },
    );
    let outcome = sync_thread_once(&remote, &mut store, 1);
    assert_eq!(outcome, Ok(SyncSummary { discovered: false, added: 3, removed_flagged: 1 }));
    let posts = &store.snapshots.get(&1).unwrap().posts;
    assert_eq!(posts.iter().map(|p| p.id).collect::<Vec<u64>>(), vec![1, 2, 3, 7, 8, 9]);
    assert!(posts[2].deleted);
    assert_eq!(posts[3].files, vec![File { id: attachment_id(&[7], "png"), name: String::from("seven") }]);
    assert!(posts[4].files.is_empty());
    assert_eq!(posts[5].files, vec![File { id: attachment_id(&[9], "png"), name: String::from("nine") }]);
}

#[test]
fn attachments_are_asked_for_in_the_order_of_the_new_posts() {
    let (mut engine, _) = ThreadSync::start(1);
    let thread = remote_thread(vec![
        remote_post(6, 0, &[("six.png", "six")]),
        remote_post(3, 1, &[("three.png", "three")]),
    ]);
    engine.step(Event::ThreadFetched { thread: Some(thread) }).unwrap();
    assert_eq!(
        engine.step(Event::SnapshotRead { snapshot: None }),
        Some(Action::FetchAttachment { path: String::from("three.png") })
    );
    assert_eq!(
        engine.step(Event::AttachmentFetched { bytes: None }),
        Some(Action::FetchAttachment { path: String::from("six.png") })
    );
}

#[test]
fn unknown_mark_on_a_repeated_listing_is_passed_over() {
    let mut remote = empty_remote();
    remote.threads.insert(2, remote_thread(vec![remote_post(2, 1, &[]), remote_post(2, 9, &[])]));
    let mut store = empty_store();
    let outcome = sync_thread_once(&remote, &mut store, 2);
    assert_eq!(outcome, Ok(SyncSummary { discovered: true, added: 1, removed_flagged: 0 }));
    assert_eq!(store.snapshots.get(&2).unwrap().posts, vec![archived(2, true, vec![], false)]);
}
