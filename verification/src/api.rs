//! The remote service as the archiver sees it: the shapes of its answers and
//! the addresses they are fetched from.

use vstd::prelude::*;
use vstd::string::*;
use crate::text::{decimal, decimal_string};

verus! {

/// A board as the catalogue names it.
#[derive(Clone, Debug, PartialEq, Eq)]
pub struct CatalogueBoard {
    pub id: String,
    pub name: String,
}

/// One live thread of a catalogue.
#[derive(Clone, Debug, PartialEq, Eq)]
pub struct CatalogueThread {
    pub num: u64,
}

/// The live threads of a board.
#[derive(Clone, Debug, PartialEq, Eq)]
pub struct Catalogue {
    pub threads: Vec<CatalogueThread>,
}

/// An attachment as the remote service describes it: where its bytes are
/// and what the poster called it.
#[derive(Clone, Debug, PartialEq, Eq)]
pub struct ThreadThreadsThreadPostFile {
    pub path: String,
    pub name: String,
}

/// Mathematical form of a [`ThreadThreadsThreadPostFile`].
pub ghost struct RemoteFileView {
    pub path: Seq<char>,
    pub name: Seq<char>,
}

impl View for ThreadThreadsThreadPostFile {
    type V = RemoteFileView;

    open spec fn view(&self) -> RemoteFileView {
        RemoteFileView { path: self.path@, name: self.name@ }
    }
}

/// A post as the remote service sends it. `op` is 1 for the post that
/// opened the thread and 0 for every other.
#[derive(Clone, Debug, PartialEq, Eq)]
pub struct ThreadThreadsThreadPost {
    pub num: u64,
    pub comment: String,
    pub timestamp: u64,
    pub subject: String,
    pub email: String,
    pub name: String,
    pub op: u8,
    pub files: Option<Vec<ThreadThreadsThreadPostFile>>,
}

/// Mathematical form of a [`ThreadThreadsThreadPost`]. A post without a
/// list of files has the empty one.
pub ghost struct RemotePostView {
    pub num: u64,
    pub comment: Seq<char>,
    pub timestamp: u64,
    pub subject: Seq<char>,
    pub email: Seq<char>,
    pub name: Seq<char>,
    pub op: u8,
    pub files: Seq<RemoteFileView>,
}

/// The views of a sequence of remote files, in order.
pub open spec fn remote_file_views(files: Seq<ThreadThreadsThreadPostFile>) -> Seq<RemoteFileView> {
    Seq::new(files.len(), |i: int| files[i]@)
}

impl View for ThreadThreadsThreadPost {
    type V = RemotePostView;

    open spec fn view(&self) -> RemotePostView {
        RemotePostView {
            num: self.num,
            comment: self.comment@,
            timestamp: self.timestamp,
            subject: self.subject@,
            email: self.email@,
            name: self.name@,
            op: self.op,
            files: match self.files {
                Some(files) => remote_file_views(files@),
                None => Seq::empty(),
            },
        }
    }
}

/// The views of a sequence of remote posts, in order.
pub open spec fn remote_post_views(posts: Seq<ThreadThreadsThreadPost>) -> Seq<RemotePostView> {
    Seq::new(posts.len(), |i: int| posts[i]@)
}

/// The post numbers of a sequence of remote posts, in order.
pub open spec fn remote_ids(posts: Seq<RemotePostView>) -> Seq<u64> {
    Seq::new(posts.len(), |i: int| posts[i].num)
}

/// The posts of a fetched thread.
#[derive(Clone, Debug, PartialEq, Eq)]
pub struct ThreadThreadsThread {
    pub posts: Vec<ThreadThreadsThreadPost>,
}

/// The one entry under which the remote service files a thread's posts.
#[derive(Clone, Debug, PartialEq, Eq)]
pub struct ThreadThreads {
    pub thread: ThreadThreadsThread,
}

/// A thread as the remote service sends it.
#[derive(Clone, Debug, PartialEq, Eq)]
pub struct Thread {
    pub threads: ThreadThreads,
}

impl View for Thread {
    type V = Seq<RemotePostView>;

    open spec fn view(&self) -> Seq<RemotePostView> {
        remote_post_views(self.threads.thread.posts@)
    }
}

/// The address of the catalogue of a board.
pub open spec fn catalogue_url_of(board: Seq<char>) -> Seq<char> {
    "https://2ch.hk"@ + "/"@ + board + "/catalog.json"@
}

/// The address of the posts of a thread.
pub open spec fn thread_url_of(board: Seq<char>, thread: u64) -> Seq<char> {
    "https://2ch.hk"@ + "/"@ + board + "/res/"@ + decimal(thread as nat) + ".json"@
}

/// The address of an attachment, from the path that a post gives for it.
pub open spec fn attachment_url_of(path: Seq<char>) -> Seq<char> {
    "https://2ch.hk"@ + "/"@ + path
}

/// The address of the catalogue of `board`.
pub fn catalogue_url(board: &str) -> (url: String)
    ensures
        url@ == catalogue_url_of(board@),
{
    let mut url = String::from_str("https://2ch.hk");
    url.append("/");
    url.append(board);
    url.append("/catalog.json");
    url
}

/// The address of the posts of thread `thread` on `board`.
pub fn thread_url(board: &str, thread: u64) -> (url: String)
    ensures
        url@ == thread_url_of(board@, thread),
{
    let number = decimal_string(thread);
    let mut url = String::from_str("https://2ch.hk");
    url.append("/");
    url.append(board);
    url.append("/res/");
    url.append(number.as_str());
    url.append(".json");
    url
}

/// The address of the attachment at `path`.
pub fn attachment_url(path: &str) -> (url: String)
    ensures
        url@ == attachment_url_of(path@),
{
    let mut url = String::from_str("https://2ch.hk");
    url.append("/");
    url.append(path);
    url
}

/// Whether an answer with the given HTTP status is taken: only 200 is.
pub fn status_accepted(status: u16) -> (accepted: bool)
    ensures
        accepted == (status == 200),
{
    status == 200
}

/// The ids of the live threads of a catalogue, in its order.
pub open spec fn catalogue_ids(threads: Seq<CatalogueThread>) -> Seq<u64> {
    Seq::new(threads.len(), |i: int| threads[i].num)
}

/// The ids of the live threads that a catalogue lists, in its order.
pub fn thread_ids(catalogue: &Catalogue) -> (ids: Vec<u64>)
    ensures
        ids@ == catalogue_ids(catalogue.threads@),
{
    let mut ids: Vec<u64> = Vec::new();
    let mut i: usize = 0;
    while i < catalogue.threads.len()
        invariant
            i <= catalogue.threads.len(),
            ids@ == catalogue_ids(catalogue.threads@.take(i as int)),
        decreases catalogue.threads.len() - i,
    {
        ids.push(catalogue.threads[i].num);
        assert(ids@ =~= catalogue_ids(catalogue.threads@.take(i + 1)));
        i += 1;
    }
    assert(catalogue.threads@.take(catalogue.threads.len() as int) == catalogue.threads@);
    ids
}

} // verus!
