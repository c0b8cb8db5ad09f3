//! Content addressing: a blob is named by the SHA-256 digest of its bytes,
//! in lower-case hexadecimal, a dot, and the extension of the file it came
//! from. Equal bytes under an equal extension get one name.

use sha2::{Digest, Sha256};
use vstd::prelude::*;
use vstd::string::*;
use crate::text::{last_index, last_index_of, lemma_last_index_of};

verus! {

/// The SHA-256 digest of a sequence of bytes.
pub uninterp spec fn sha256(data: Seq<u8>) -> Seq<u8>;

/// The sixteen hexadecimal digits, lower case.
pub open spec fn hex_digits() -> Seq<char> {
    seq!['0', '1', '2', '3', '4', '5', '6', '7', '8', '9', 'a', 'b', 'c', 'd', 'e', 'f']
}

/// Bytes in hexadecimal: two lower-case digits for each byte, the upper
/// half of the byte first.
pub open spec fn hex_chars(bytes: Seq<u8>) -> Seq<char> {
    Seq::new(
        2 * bytes.len(),
        |i: int|
            if i % 2 == 0 {
                hex_digits()[bytes[i / 2] as int / 16]
            } else {
                hex_digits()[bytes[i / 2] as int % 16]
            },
    )
}

/// The name of the blob with the given digest and extension.
pub open spec fn blob_name_of(digest: Seq<u8>, extension: Seq<char>) -> Seq<char> {
    hex_chars(digest) + seq!['.'] + extension
}

/// The content id of `data` stored under `extension`.
pub open spec fn content_id(data: Seq<u8>, extension: Seq<char>) -> Seq<char> {
    blob_name_of(sha256(data), extension)
}

/// A content store after `bytes` are put under the name `id`: a blob that
/// is there stays as it is, one that is not there is written.
pub open spec fn put(store: Map<Seq<char>, Seq<u8>>, id: Seq<char>, bytes: Seq<u8>) -> Map<
    Seq<char>,
    Seq<u8>,
> {
    if store.contains_key(id) {
        store
    } else {
        store.insert(id, bytes)
    }
}

/// Content addressing: putting the same bytes under the same extension a
/// second time goes by the same name and changes nothing; after the first
/// put the store holds one blob of that name, and no other blob came or
/// went.
pub proof fn lemma_put_twice(store: Map<Seq<char>, Seq<u8>>, data: Seq<u8>, extension: Seq<char>)
    ensures
        ({
            let id = content_id(data, extension);
            let once = put(store, id, data);
            &&& put(once, id, data) == once
            &&& once.dom() == store.dom().insert(id)
            &&& !store.contains_key(id) ==> once[id] == data
            &&& forall|other: Seq<char>| other != id && store.contains_key(other) ==> once[other] == store[other]
        }),
{
    let id = content_id(data, extension);
    assert(put(store, id, data).dom() =~= store.dom().insert(id));
}

/// Whether the last character of a path counts for nothing: a separator,
/// or a dot that is a segment of its own.
pub open spec fn ends_idle(path: Seq<char>) -> bool {
    &&& path.len() > 0
    &&& {
        ||| path.last() == '/'
        ||| path.last() == '.' && (path.len() == 1 || path[path.len() - 2] == '/')
    }
}

/// A path without what counts for nothing at its end: separators, and
/// segments that are a single dot.
pub open spec fn without_trailing(path: Seq<char>) -> Seq<char>
    decreases path.len(),
{
    if ends_idle(path) {
        without_trailing(path.drop_last())
    } else {
        path
    }
}

/// The name of the file that a path names: its last segment that is
/// neither empty nor a single dot. Segments are parted by `'/'`.
pub open spec fn file_name_of(path: Seq<char>) -> Seq<char> {
    let trimmed = without_trailing(path);
    trimmed.skip(last_index_of(trimmed, '/') + 1)
}

/// The extension of the file that a path names: what follows the last dot
/// of its file name. A name without a dot, or whose only dot leads it, has
/// the empty extension.
pub open spec fn extension_of(path: Seq<char>) -> Seq<char> {
    let name = file_name_of(path);
    let dot = last_index_of(name, '.');
    if dot <= 0 {
        Seq::empty()
    } else {
        name.skip(dot + 1)
    }
}

/// Calls `Sha256::digest` of the crate sha2, which hashes the whole input
/// in one go. Trusted: the bytes returned are the SHA-256 digest of `data`,
/// a function of the input alone.
#[verifier::external_body]
fn sha256_digest(data: &[u8]) -> (digest: Vec<u8>)
    ensures
        digest@ == sha256(data@),
{
    Sha256::digest(data).to_vec()
}

/// Calls `hex::encode`. Trusted: each byte becomes two lower-case
/// hexadecimal digits, the upper half first, in the order of the input.
#[verifier::external_body]
fn hex_encode(bytes: &[u8]) -> (text: String)
    ensures
        text@ == hex_chars(bytes@),
{
    hex::encode(bytes)
}

/// Names a blob from the digest of its bytes and an extension.
pub fn blob_name(digest: &[u8], extension: &str) -> (name: String)
    ensures
        name@ == blob_name_of(digest@, extension@),
{
    let mut name = hex_encode(digest);
    proof {
        reveal_strlit(".");
    }
    name.append(".");
    name.append(extension);
    assert("."@ =~= seq!['.']);
    name
}

/// The content id under which `data` is stored with the given extension.
pub fn attachment_id(data: &[u8], extension: &str) -> (id: String)
    ensures
        id@ == content_id(data@, extension@),
{
    let digest = sha256_digest(data);
    blob_name(digest.as_slice(), extension)
}

fn idle_end(path: &str, end: usize) -> (idle: bool)
    requires
        end <= path@.len(),
    ensures
        idle == ends_idle(path@.take(end as int)),
{
    if end == 0 {
        return false;
    }
    let c = path.get_char(end - 1);
    if c == '/' {
        true
    } else if c == '.' {
        end == 1 || path.get_char(end - 2) == '/'
    } else {
        false
    }
}

/// The extension of the file that `path` names, without its dot; empty
/// where the file has none. A separator at the end of the path, or a
/// segment that is a single dot, does not hide the file name before it.
pub fn file_extension(path: &str) -> (extension: String)
    ensures
        extension@ == extension_of(path@),
{
    let whole = path.unicode_len();
    let mut n: usize = whole;
    assert(path@.take(whole as int) == path@);
    while idle_end(path, n)
        invariant
            n <= whole,
            whole == path@.len(),
            without_trailing(path@) == without_trailing(path@.take(n as int)),
        decreases n,
    {
        proof {
            assert(path@.take(n as int).drop_last() == path@.take(n - 1));
        }
        n -= 1;
    }
    let path = path.substring_char(0, n);
    assert(path@ == without_trailing(path@));
    let start: usize = match last_index(path, '/') {
        Some(i) => {
            proof {
                lemma_last_index_of(path@, '/');
            }
            i + 1
        },
        None => 0,
    };
    let name = path.substring_char(start, n);
    assert(name@ =~= path@.skip(last_index_of(path@, '/') + 1));
    match last_index(name, '.') {
        Some(dot) => {
            proof {
                lemma_last_index_of(name@, '.');
            }
            if dot == 0 {
                String::new()
            } else {
                let extension = name.substring_char(dot + 1, n - start);
                assert(extension@ =~= name@.skip(dot + 1));
                String::from_str(extension)
            }
        },
        None => String::new(),
    }
}

} // verus!
