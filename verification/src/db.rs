//! The archived form of a thread: what is kept on disk.

use vstd::prelude::*;
use vstd::string::*;
use crate::text::{
    decimal, decimal_string, last_index, last_index_of, lemma_decimal_digits, lemma_decimal_plain,
    lemma_decimal_round_trip, lemma_last_index_of, lemma_last_index_of_concat, parse_u64,
    parsed_u64,
};

verus! {

/// An attachment of an archived post: the content id of the stored blob and
/// the file name the poster gave it.
#[derive(Clone, Debug, PartialEq, Eq)]
pub struct File {
    pub id: String,
    pub name: String,
}

/// Mathematical form of a [`File`].
pub ghost struct FileView {
    pub id: Seq<char>,
    pub name: Seq<char>,
}

impl View for File {
    type V = FileView;

    open spec fn view(&self) -> FileView {
        FileView { id: self.id@, name: self.name@ }
    }
}

/// An archived post.
#[derive(Clone, Debug, PartialEq, Eq)]
pub struct Post {
    pub id: u64,
    pub timestamp: u64,
    pub name: String,
    pub email: String,
    pub subject: String,
    pub message: String,
    pub op: bool,
    pub files: Vec<File>,
    pub deleted: bool,
}

/// Mathematical form of a [`Post`].
pub ghost struct PostView {
    pub id: u64,
    pub timestamp: u64,
    pub name: Seq<char>,
    pub email: Seq<char>,
    pub subject: Seq<char>,
    pub message: Seq<char>,
    pub op: bool,
    pub files: Seq<FileView>,
    pub deleted: bool,
}

/// The views of a sequence of files, in order.
pub open spec fn file_views(files: Seq<File>) -> Seq<FileView> {
    Seq::new(files.len(), |i: int| files[i]@)
}

impl View for Post {
    type V = PostView;

    open spec fn view(&self) -> PostView {
        PostView {
            id: self.id,
            timestamp: self.timestamp,
            name: self.name@,
            email: self.email@,
            subject: self.subject@,
            message: self.message@,
            op: self.op,
            files: file_views(self.files@),
            deleted: self.deleted,
        }
    }
}

/// The views of a sequence of posts, in order.
pub open spec fn post_views(posts: Seq<Post>) -> Seq<PostView> {
    Seq::new(posts.len(), |i: int| posts[i]@)
}

/// The ids of a sequence of posts, in order.
pub open spec fn post_ids(posts: Seq<PostView>) -> Seq<u64> {
    Seq::new(posts.len(), |i: int| posts[i].id)
}

/// The snapshot of one thread: its id and every post ever seen in it.
#[derive(Clone, Debug, PartialEq, Eq)]
pub struct Thread {
    pub id: u64,
    pub posts: Vec<Post>,
}

/// Mathematical form of a [`Thread`].
pub ghost struct ThreadView {
    pub id: u64,
    pub posts: Seq<PostView>,
}

impl View for Thread {
    type V = ThreadView;

    open spec fn view(&self) -> ThreadView {
        ThreadView { id: self.id, posts: post_views(self.posts@) }
    }
}

/// The name of the file that holds the snapshot of a thread: its id in
/// decimal, then `.json`.
pub open spec fn thread_file_name_of(id: u64) -> Seq<char> {
    decimal(id as nat) + seq!['.', 'j', 's', 'o', 'n']
}

/// The directory of all snapshots, from the root of the archive.
pub open spec fn boards_dir_of() -> Seq<char> {
    "boards"@
}

/// The directory of all blobs, from the root of the archive.
pub open spec fn attachments_dir_of() -> Seq<char> {
    "attachments"@
}

/// The directory of a board's snapshots, from the root of the archive.
pub open spec fn board_dir_of(board: Seq<char>) -> Seq<char> {
    boards_dir_of() + "/"@ + board
}

/// The place of a thread's snapshot, from the root of the archive.
pub open spec fn thread_path_of(board: Seq<char>, id: u64) -> Seq<char> {
    board_dir_of(board) + "/"@ + thread_file_name_of(id)
}

/// The place of the blob with the given content id, from the root of the
/// archive. Blobs lie flat in one directory.
pub open spec fn attachment_path_of(id: Seq<char>) -> Seq<char> {
    attachments_dir_of() + "/"@ + id
}

/// A file name without its extension: what stands before its last dot. A
/// name without a dot, or whose only dot leads it, is its own stem.
pub open spec fn stem_of(name: Seq<char>) -> Seq<char> {
    let dot = last_index_of(name, '.');
    if dot <= 0 {
        name
    } else {
        name.take(dot)
    }
}

/// The thread whose snapshot a file of the given name holds: the number
/// that its stem writes, if it writes one.
pub open spec fn thread_id_of(name: Seq<char>) -> Option<u64> {
    parsed_u64(stem_of(name))
}

/// The threads whose snapshots a directory holds, from the names of its
/// files and in their order. A name that is not that of a snapshot counts
/// for nothing.
pub open spec fn threads_of(names: Seq<Seq<char>>) -> Seq<u64>
    decreases names.len(),
{
    if names.len() == 0 {
        Seq::empty()
    } else {
        match thread_id_of(names.last()) {
            Some(id) => threads_of(names.drop_last()).push(id),
            None => threads_of(names.drop_last()),
        }
    }
}

/// The content ids of all attachments of a sequence of posts, post by post
/// and in the order of each post's files.
pub open spec fn attachment_ids_of(posts: Seq<PostView>) -> Seq<Seq<char>>
    decreases posts.len(),
{
    if posts.len() == 0 {
        Seq::empty()
    } else {
        attachment_ids_of(posts.drop_last()) + Seq::new(
            posts.last().files.len(),
            |i: int| posts.last().files[i].id,
        )
    }
}

/// The views of a sequence of texts, in order.
pub open spec fn text_views(texts: Seq<String>) -> Seq<Seq<char>> {
    Seq::new(texts.len(), |i: int| texts[i]@)
}

/// The name of the file that holds the snapshot of thread `id`.
pub fn thread_file_name(id: u64) -> (name: String)
    ensures
        name@ == thread_file_name_of(id),
{
    let mut name = decimal_string(id);
    proof {
        reveal_strlit(".json");
    }
    name.append(".json");
    assert(".json"@ =~= seq!['.', 'j', 's', 'o', 'n']);
    name
}

/// The directory of all snapshots, from the root of the archive.
pub fn boards_dir() -> (path: String)
    ensures
        path@ == boards_dir_of(),
{
    String::from_str("boards")
}

/// The directory of all blobs, from the root of the archive.
pub fn attachments_dir() -> (path: String)
    ensures
        path@ == attachments_dir_of(),
{
    String::from_str("attachments")
}

/// The directory of the snapshots of `board`, from the root of the archive.
pub fn board_dir(board: &str) -> (path: String)
    ensures
        path@ == board_dir_of(board@),
{
    let mut path = boards_dir();
    path.append("/");
    path.append(board);
    path
}

/// The place of the snapshot of thread `id` of `board`, from the root of
/// the archive.
pub fn thread_path(board: &str, id: u64) -> (path: String)
    ensures
        path@ == thread_path_of(board@, id),
{
    let name = thread_file_name(id);
    let mut path = board_dir(board);
    path.append("/");
    path.append(name.as_str());
    path
}

/// The place of the blob named `id`, from the root of the archive.
pub fn attachment_path(id: &str) -> (path: String)
    ensures
        path@ == attachment_path_of(id@),
{
    let mut path = attachments_dir();
    path.append("/");
    path.append(id);
    path
}

/// The thread whose snapshot the file `name` holds; `None` where the name
/// is not that of a snapshot.
pub fn thread_id_of_file(name: &str) -> (id: Option<u64>)
    ensures
        id == thread_id_of(name@),
{
    match last_index(name, '.') {
        Some(dot) => {
            if dot == 0 {
                parse_u64(name)
            } else {
                proof {
                    lemma_last_index_of(name@, '.');
                }
                let stem = name.substring_char(0, dot);
                assert(stem@ =~= name@.take(dot as int));
                parse_u64(stem)
            }
        },
        None => parse_u64(name),
    }
}

/// The threads whose snapshots a directory holds, from the names of its
/// files. Files that are no snapshots are passed over.
pub fn thread_ids_of_files(names: &Vec<String>) -> (ids: Vec<u64>)
    ensures
        ids@ == threads_of(text_views(names@)),
{
    let mut ids: Vec<u64> = Vec::new();
    let mut i: usize = 0;
    while i < names.len()
        invariant
            i <= names.len(),
            ids@ == threads_of(text_views(names@.take(i as int))),
        decreases names.len() - i,
    {
        proof {
            let all = text_views(names@.take(i + 1));
            assert(all.drop_last() =~= text_views(names@.take(i as int)));
            assert(all.last() == names@[i as int]@);
        }
        match thread_id_of_file(names[i].as_str()) {
            Some(id) => {
                ids.push(id);
            },
            None => {},
        }
        i += 1;
    }
    proof {
        assert(names@.take(names.len() as int) == names@);
    }
    ids
}

/// The file name made for a thread is read back as that thread.
pub proof fn lemma_thread_file_name_round_trip(id: u64)
    ensures
        thread_id_of(thread_file_name_of(id)) == Some(id),
{
    let digits = decimal(id as nat);
    let suffix = seq!['.', 'j', 's', 'o', 'n'];
    lemma_decimal_digits(id as nat);
    lemma_decimal_plain(id as nat);
    lemma_decimal_round_trip(id);
    assert(last_index_of(suffix, '.') == 0) by {
        reveal_with_fuel(last_index_of, 6);
        assert(suffix.drop_last() =~= seq!['.', 'j', 's', 'o']);
        assert(suffix.drop_last().drop_last() =~= seq!['.', 'j', 's']);
        assert(suffix.drop_last().drop_last().drop_last() =~= seq!['.', 'j']);
        assert(suffix.drop_last().drop_last().drop_last().drop_last() =~= seq!['.']);
    }
    lemma_last_index_of_concat(digits, suffix, '.');
    assert((digits + suffix).take(digits.len() as int) =~= digits);
}

/// The content ids of all attachments of a thread, post by post.
pub fn attachment_ids(thread: &Thread) -> (ids: Vec<String>)
    ensures
        text_views(ids@) == attachment_ids_of(thread@.posts),
{
    let mut ids: Vec<String> = Vec::new();
    let mut i: usize = 0;
    while i < thread.posts.len()
        invariant
            i <= thread.posts.len(),
            text_views(ids@) == attachment_ids_of(thread@.posts.take(i as int)),
        decreases thread.posts.len() - i,
    {
        let post = &thread.posts[i];
        let ghost before = text_views(ids@);
        let mut j: usize = 0;
        while j < post.files.len()
            invariant
                j <= post.files.len(),
                *post == thread.posts@[i as int],
                text_views(ids@) == before + Seq::new(j as nat, |k: int| post@.files[k].id),
            decreases post.files.len() - j,
        {
            let ghost listed = ids@;
            let id = post.files[j].id.clone();
            ids.push(id);
            proof {
                assert(post@.files[j as int].id == id@);
                assert(text_views(ids@) =~= text_views(listed).push(id@));
                assert(text_views(ids@) =~= before + Seq::new(
                    (j + 1) as nat,
                    |k: int| post@.files[k].id,
                ));
            }
            j += 1;
        }
        proof {
            let posts = thread@.posts;
            assert(posts.take(i + 1).drop_last() == posts.take(i as int));
            assert(posts.take(i + 1).last() == post@);
        }
        i += 1;
    }
    proof {
        assert(thread@.posts.take(thread.posts.len() as int) == thread@.posts);
    }
    ids
}

} // verus!
