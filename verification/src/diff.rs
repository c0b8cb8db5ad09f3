//! Listings of ids: which ids left and which came between two of them, ids
//! put in rising order, and the first place of an id.

use std::collections::HashSet;
use vstd::prelude::*;
use vstd::std_specs::hash::*;

verus! {

broadcast use group_hash_axioms;

/// The values of `a` that do not occur in `b`, each once, in the order in
/// which `a` first has them.
pub open spec fn difference(a: Seq<u64>, b: Seq<u64>) -> Seq<u64>
    decreases a.len(),
{
    if a.len() == 0 {
        Seq::empty()
    } else {
        let rest = difference(a.drop_last(), b);
        if b.contains(a.last()) || rest.contains(a.last()) {
            rest
        } else {
            rest.push(a.last())
        }
    }
}

/// A value is in the difference exactly if it is in `a` and not in `b`.
pub proof fn lemma_difference_contains(a: Seq<u64>, b: Seq<u64>, x: u64)
    ensures
        difference(a, b).contains(x) <==> a.contains(x) && !b.contains(x),
    decreases a.len(),
{
    if a.len() > 0 {
        let rest = difference(a.drop_last(), b);
        lemma_difference_contains(a.drop_last(), b, x);
        if a.drop_last().contains(x) {
            let i = choose|i: int| 0 <= i < a.drop_last().len() && a.drop_last()[i] == x;
            assert(a[i] == x);
        }
        if a.contains(x) && a.last() != x {
            let i = choose|i: int| 0 <= i < a.len() && a[i] == x;
            assert(a.drop_last()[i] == x);
        }
        if !(b.contains(a.last()) || rest.contains(a.last())) {
            assert(rest.push(a.last()).last() == a.last());
            if rest.contains(x) {
                let i = choose|i: int| 0 <= i < rest.len() && rest[i] == x;
                assert(rest.push(a.last())[i] == x);
            }
        }
    }
}

/// No value occurs twice in a difference.
pub proof fn lemma_difference_no_duplicates(a: Seq<u64>, b: Seq<u64>)
    ensures
        difference(a, b).no_duplicates(),
    decreases a.len(),
{
    if a.len() > 0 {
        lemma_difference_no_duplicates(a.drop_last(), b);
    }
}

/// The difference as a set: the values of `a` without those of `b`.
pub proof fn lemma_difference_as_set(a: Seq<u64>, b: Seq<u64>)
    ensures
        difference(a, b).to_set() == a.to_set().difference(b.to_set()),
{
    assert forall|x: u64|
        difference(a, b).to_set().contains(x) <==> a.to_set().difference(b.to_set()).contains(
            x,
        ) by {
        lemma_difference_contains(a, b, x);
    }
    assert(difference(a, b).to_set() =~= a.to_set().difference(b.to_set()));
}

/// Whether ids rise strictly from each place to the next, so that none
/// occurs twice.
pub open spec fn ascending(ids: Seq<u64>) -> bool {
    forall|i: int, j: int| 0 <= i < j < ids.len() ==> ids[i] < ids[j]
}

/// A rising listing with `x` put at its place; unchanged where it has `x`.
pub open spec fn inserted(s: Seq<u64>, x: u64) -> Seq<u64>
    decreases s.len(),
{
    if s.len() == 0 {
        seq![x]
    } else if s.last() < x {
        s.push(x)
    } else if s.last() == x {
        s
    } else {
        inserted(s.drop_last(), x).push(s.last())
    }
}

/// The values of `ids` in rising order, each once.
pub open spec fn rising(ids: Seq<u64>) -> Seq<u64>
    decreases ids.len(),
{
    if ids.len() == 0 {
        Seq::empty()
    } else {
        inserted(rising(ids.drop_last()), ids.last())
    }
}

/// Putting a value into a rising listing leaves it rising, adds that value
/// and no other, and drops none.
pub proof fn lemma_inserted(s: Seq<u64>, x: u64)
    requires
        ascending(s),
    ensures
        ascending(inserted(s, x)),
        forall|y: u64| #[trigger] inserted(s, x).contains(y) <==> s.contains(y) || y == x,
    decreases s.len(),
{
    let r = inserted(s, x);
    if s.len() == 0 {
        assert(r[0] == x);
    } else if s.last() < x {
        assert(r.last() == x);
        assert forall|y: u64| r.contains(y) <==> s.contains(y) || y == x by {
            if s.contains(y) {
                let i = choose|i: int| 0 <= i < s.len() && s[i] == y;
                assert(r[i] == y);
            }
        }
        assert forall|i: int, j: int| 0 <= i < j < r.len() implies r[i] < r[j] by {
            if j == s.len() {
                assert(s[i] <= s.last());
            }
        }
    } else if s.last() == x {
        assert(s[s.len() - 1] == x);
    } else {
        let head = s.drop_last();
        let h = inserted(head, x);
        assert(ascending(head)) by {
            assert forall|i: int, j: int| 0 <= i < j < head.len() implies head[i] < head[j] by {
                assert(s[i] < s[j]);
            }
        }
        lemma_inserted(head, x);
        assert forall|y: u64| r.contains(y) <==> s.contains(y) || y == x by {
            if r.contains(y) {
                let i = choose|i: int| 0 <= i < r.len() && r[i] == y;
                if i < h.len() {
                    assert(h[i] == y);
                    assert(h.contains(y));
                    if head.contains(y) {
                        let k = choose|k: int| 0 <= k < head.len() && head[k] == y;
                        assert(s[k] == y);
                    }
                } else {
                    assert(s[s.len() - 1] == y);
                }
            }
            if s.contains(y) {
                let k = choose|k: int| 0 <= k < s.len() && s[k] == y;
                if k < head.len() {
                    assert(head[k] == y);
                    assert(head.contains(y));
                    assert(h.contains(y));
                    let i = choose|i: int| 0 <= i < h.len() && h[i] == y;
                    assert(r[i] == y);
                } else {
                    assert(r[r.len() - 1] == y);
                }
            }
            if y == x {
                assert(h.contains(x));
                let i = choose|i: int| 0 <= i < h.len() && h[i] == x;
                assert(r[i] == x);
            }
        }
        assert forall|i: int, j: int| 0 <= i < j < r.len() implies r[i] < r[j] by {
            if j < h.len() {
                assert(h[i] < h[j]);
            } else {
                assert(r[i] == h[i]);
                assert(h.contains(h[i]));
                if h[i] != x {
                    assert(head.contains(h[i]));
                    let k = choose|k: int| 0 <= k < head.len() && head[k] == h[i];
                    assert(s[k] < s[s.len() - 1]);
                }
            }
        }
    }
}

/// `rising` rises, and holds exactly the values of the listing it is made
/// from.
pub proof fn lemma_rising(ids: Seq<u64>)
    ensures
        ascending(rising(ids)),
        forall|y: u64| #[trigger] rising(ids).contains(y) <==> ids.contains(y),
    decreases ids.len(),
{
    if ids.len() > 0 {
        let head = ids.drop_last();
        lemma_rising(head);
        lemma_inserted(rising(head), ids.last());
        assert forall|y: u64| rising(ids).contains(y) <==> ids.contains(y) by {
            if ids.contains(y) {
                let k = choose|k: int| 0 <= k < ids.len() && ids[k] == y;
                if k < head.len() {
                    assert(head[k] == y);
                }
            }
            if head.contains(y) {
                let k = choose|k: int| 0 <= k < head.len() && head[k] == y;
                assert(ids[k] == y);
            }
            if y == ids.last() {
                assert(ids[ids.len() - 1] == y);
            }
        }
    }
}

/// A value that a rising listing lacks makes it longer by one.
pub proof fn lemma_inserted_len(s: Seq<u64>, x: u64)
    requires
        !s.contains(x),
    ensures
        inserted(s, x).len() == s.len() + 1,
    decreases s.len(),
{
    if s.len() > 0 {
        assert(s[s.len() - 1] != x);
        if s.last() > x {
            let head = s.drop_last();
            if head.contains(x) {
                let k = choose|k: int| 0 <= k < head.len() && head[k] == x;
                assert(s[k] == x);
            }
            lemma_inserted_len(head, x);
        }
    }
}

/// A listing without repeated values keeps its length when it is put in
/// rising order.
pub proof fn lemma_rising_len(ids: Seq<u64>)
    requires
        ids.no_duplicates(),
    ensures
        rising(ids).len() == ids.len(),
    decreases ids.len(),
{
    if ids.len() > 0 {
        let head = ids.drop_last();
        lemma_rising_len(head);
        lemma_rising(head);
        if head.contains(ids.last()) {
            let k = choose|k: int| 0 <= k < head.len() && head[k] == ids.last();
            assert(ids[k] == ids[ids.len() - 1]);
        }
        lemma_inserted_len(rising(head), ids.last());
    }
}

/// Where `x` goes in a rising listing: before the first value that is not
/// below it.
proof fn lemma_inserted_at(s: Seq<u64>, x: u64, pos: int)
    requires
        ascending(s),
        0 <= pos <= s.len(),
        forall|j: int| 0 <= j < pos ==> s[j] < x,
        forall|j: int| pos <= j < s.len() ==> s[j] >= x,
    ensures
        inserted(s, x) == if pos < s.len() && s[pos] == x {
            s
        } else {
            s.insert(pos, x)
        },
    decreases s.len(),
{
    if s.len() == 0 {
        assert(seq![x] =~= s.insert(pos, x));
    } else if s.last() < x {
        assert(pos == s.len());
        assert(s.push(x) =~= s.insert(pos, x));
    } else if s.last() == x {
        if pos < s.len() - 1 {
            assert(s[pos] < s[s.len() - 1]);
        }
        assert(pos == s.len() - 1);
    } else {
        let head = s.drop_last();
        assert(pos < s.len());
        assert(ascending(head)) by {
            assert forall|i: int, j: int| 0 <= i < j < head.len() implies head[i] < head[j] by {
                assert(s[i] < s[j]);
            }
        }
        assert forall|j: int| pos <= j < head.len() implies head[j] >= x by {
            assert(s[j] >= x);
        }
        assert forall|j: int| 0 <= j < pos implies head[j] < x by {
            assert(s[j] < x);
        }
        lemma_inserted_at(head, x, pos);
        if pos < head.len() && head[pos] == x {
            assert(head.push(s.last()) =~= s);
        } else {
            assert(s[pos] != x);
            assert(head.insert(pos, x).push(s.last()) =~= s.insert(pos, x));
        }
    }
}

/// Puts ids in rising order, each once.
pub fn sort_ids(ids: &Vec<u64>) -> (sorted: Vec<u64>)
    ensures
        sorted@ == rising(ids@),
{
    let mut sorted: Vec<u64> = Vec::new();
    let mut i: usize = 0;
    while i < ids.len()
        invariant
            i <= ids.len(),
            sorted@ == rising(ids@.take(i as int)),
        decreases ids.len() - i,
    {
        let x = ids[i];
        let ghost before = sorted@;
        proof {
            lemma_rising(ids@.take(i as int));
            assert(ids@.take(i + 1).drop_last() == ids@.take(i as int));
            assert(ids@.take(i + 1).last() == x);
        }
        let mut pos: usize = sorted.len();
        while pos > 0 && sorted[pos - 1] >= x
            invariant
                pos <= sorted.len(),
                sorted@ == before,
                forall|j: int| pos <= j < sorted.len() ==> sorted@[j] >= x,
            decreases pos,
        {
            pos -= 1;
        }
        proof {
            assert forall|j: int| 0 <= j < pos implies before[j] < x by {
                if j < pos - 1 {
                    assert(before[j] < before[pos - 1]);
                }
            }
            lemma_inserted_at(before, x, pos as int);
        }
        if !(pos < sorted.len() && sorted[pos] == x) {
            sorted.insert(pos, x);
        }
        i += 1;
    }
    proof {
        assert(ids@.take(ids.len() as int) == ids@);
    }
    sorted
}

/// The first index at which `ids` holds `x`, or -1 where it holds none.
pub open spec fn first_place(ids: Seq<u64>, x: u64) -> int
    decreases ids.len(),
{
    if ids.len() == 0 {
        -1
    } else if first_place(ids.drop_last(), x) >= 0 {
        first_place(ids.drop_last(), x)
    } else if ids.last() == x {
        ids.len() - 1
    } else {
        -1
    }
}

/// `first_place` names a place of `x` before which `ids` holds no other,
/// and is -1 exactly where `ids` holds no `x`.
pub proof fn lemma_first_place(ids: Seq<u64>, x: u64)
    ensures
        -1 <= first_place(ids, x) < ids.len(),
        first_place(ids, x) >= 0 <==> ids.contains(x),
        first_place(ids, x) >= 0 ==> ids[first_place(ids, x)] == x,
        forall|j: int| 0 <= j < first_place(ids, x) ==> ids[j] != x,
        first_place(ids, x) == -1 ==> forall|j: int| 0 <= j < ids.len() ==> ids[j] != x,
    decreases ids.len(),
{
    if ids.len() > 0 {
        let head = ids.drop_last();
        lemma_first_place(head, x);
        let p = first_place(ids, x);
        if first_place(head, x) >= 0 {
            assert(ids[p] == head[p]);
            assert forall|j: int| 0 <= j < p implies ids[j] != x by {
                assert(head[j] != x);
            }
        } else {
            assert forall|j: int| 0 <= j < ids.len() - 1 implies ids[j] != x by {
                assert(head[j] != x);
            }
        }
        if p >= 0 {
            assert(ids[p] == x);
        }
    }
}

/// The first index at which `ids` holds `x`.
pub fn first_index(ids: &Vec<u64>, x: u64) -> (r: Option<usize>)
    ensures
        match r {
            Some(i) => i as int == first_place(ids@, x),
            None => first_place(ids@, x) == -1,
        },
{
    let mut found: Option<usize> = None;
    let mut i: usize = 0;
    while i < ids.len()
        invariant
            i <= ids.len(),
            match found {
                Some(k) => k as int == first_place(ids@.take(i as int), x),
                None => first_place(ids@.take(i as int), x) == -1,
            },
        decreases ids.len() - i,
    {
        proof {
            assert(ids@.take(i + 1).drop_last() == ids@.take(i as int));
        }
        if found.is_none() && ids[i] == x {
            found = Some(i);
        }
        i += 1;
    }
    proof {
        assert(ids@.take(ids.len() as int) == ids@);
    }
    found
}

fn set_of(v: &Vec<u64>) -> (s: HashSet<u64>)
    ensures
        s@ == v@.to_set(),
{
    let mut s: HashSet<u64> = HashSet::new();
    let mut i: usize = 0;
    while i < v.len()
        invariant
            i <= v.len(),
            s@ == v@.take(i as int).to_set(),
        decreases v.len() - i,
    {
        s.insert(v[i]);
        proof {
            assert(v@.take(i + 1) == v@.take(i as int).push(v@[i as int]));
            assert(v@.take(i + 1).to_set() =~= v@.take(i as int).to_set().insert(v@[i as int])) by {
                assert forall|x: u64|
                    v@.take(i + 1).contains(x) <==> v@.take(i as int).contains(x) || x == v@[i as int] by {
                    if v@.take(i as int).contains(x) {
                        let j = choose|j: int| 0 <= j < i && v@.take(i as int)[j] == x;
                        assert(v@.take(i + 1)[j] == x);
                    }
                    if x == v@[i as int] {
                        assert(v@.take(i + 1)[i as int] == x);
                    }
                }
            }
        }
        i += 1;
    }
    proof {
        assert(v@.take(v.len() as int) == v@);
    }
    s
}

fn distinct_outside(a: &Vec<u64>, b: &HashSet<u64>, Ghost(listed): Ghost<Seq<u64>>) -> (out: Vec<u64>)
    requires
        b@ == listed.to_set(),
    ensures
        out@ == difference(a@, listed),
{
    let mut out: Vec<u64> = Vec::new();
    let mut seen: HashSet<u64> = HashSet::new();
    let mut i: usize = 0;
    while i < a.len()
        invariant
            i <= a.len(),
            b@ == listed.to_set(),
            out@ == difference(a@.take(i as int), listed),
            forall|x: u64| seen@.contains(x) <==> out@.contains(x),
        decreases a.len() - i,
    {
        let x = a[i];
        proof {
            assert(a@.take(i + 1).drop_last() == a@.take(i as int));
            assert(a@.take(i + 1).last() == x);
            assert(listed.to_set().contains(x) <==> listed.contains(x));
        }
        if !b.contains(&x) && !seen.contains(&x) {
            let ghost before = out@;
            out.push(x);
            seen.insert(x);
            proof {
                assert forall|y: u64| seen@.contains(y) <==> out@.contains(y) by {
                    if before.contains(y) {
                        let j = choose|j: int| 0 <= j < before.len() && before[j] == y;
                        assert(out@[j] == y);
                    }
                    if y == x {
                        assert(out@[before.len() as int] == y);
                    }
                }
            }
        }
        i += 1;
    }
    proof {
        assert(a@.take(a.len() as int) == a@);
    }
    out
}

/// Compares two listings of ids. The first result holds the ids that
/// `old_ids` has and `new_ids` lacks, the second those that `new_ids` has and
/// `old_ids` lacks;
/// each id once, in the order of the listing it comes from.
pub fn vecdiff(old_ids: Vec<u64>, new_ids: Vec<u64>) -> (r: (Vec<u64>, Vec<u64>))
    ensures
        r.0@ == difference(old_ids@, new_ids@),
        r.1@ == difference(new_ids@, old_ids@),
{
    let o = set_of(&old_ids);
    let n = set_of(&new_ids);
    let deleted = distinct_outside(&old_ids, &n, Ghost(new_ids@));
    let added = distinct_outside(&new_ids, &o, Ghost(old_ids@));
    (deleted, added)
}

} // verus!
