//! Ordering entries by modification time, most recently modified first.
//!
//! Reading a modification time touches the filesystem, so callers hand
//! each entry in together with its time, if one could be read. An entry
//! whose time could not be read sorts last (it counts as oldest).

use vstd::prelude::*;
use core::cmp::Ordering;

verus! {

/// How two entries compare under "most recently modified first": a
/// readable time beats an unreadable one, and larger times come first.
pub open spec fn spec_mtime_order(a: Option<u64>, b: Option<u64>) -> Ordering {
    match (a, b) {
        (Some(x), Some(y)) => if y < x {
            Ordering::Less
        } else if y == x {
            Ordering::Equal
        } else {
            Ordering::Greater
        },
        (Some(_), None) => Ordering::Less,
        (None, Some(_)) => Ordering::Greater,
        (None, None) => Ordering::Equal,
    }
}

/// Whether an entry with time `a` may stand before one with time `b`.
pub open spec fn mtime_le(a: Option<u64>, b: Option<u64>) -> bool {
    spec_mtime_order(a, b) != Ordering::Greater
}

/// Compare two modification times, most recent first; an unreadable time
/// sorts as oldest.
pub fn mtime_comparator(a: Option<u64>, b: Option<u64>) -> (r: Ordering)
    ensures
        r == spec_mtime_order(a, b),
{
    match (a, b) {
        (Some(x), Some(y)) => {
            if y < x {
                Ordering::Less
            } else if y == x {
                Ordering::Equal
            } else {
                Ordering::Greater
            }
        },
        (Some(_), None) => Ordering::Less,
        (None, Some(_)) => Ordering::Greater,
        (None, None) => Ordering::Equal,
    }
}

/// Whether an entry with time `a` must stand after one with time `b`.
fn mtime_after(a: Option<u64>, b: Option<u64>) -> (r: bool)
    ensures
        r == !mtime_le(a, b),
{
    match mtime_comparator(a, b) {
        Ordering::Greater => true,
        _ => false,
    }
}

/// Insert one entry into a list already ordered by `mtime_le`, behind
/// every entry it need not precede. Inserting every element this way
/// yields a stable sort.
pub open spec fn spec_insert_by_mtime<T>(s: Seq<(T, Option<u64>)>, e: (T, Option<u64>)) -> Seq<
    (T, Option<u64>),
>
    decreases s.len(),
{
    if s.len() == 0 {
        seq![e]
    } else if mtime_le(s[0].1, e.1) {
        seq![s[0]] + spec_insert_by_mtime(s.drop_first(), e)
    } else {
        seq![e] + s
    }
}

/// Stable sort by modification time, most recent first, unreadable last.
pub open spec fn spec_sort_by_mtime<T>(s: Seq<(T, Option<u64>)>) -> Seq<(T, Option<u64>)>
    decreases s.len(),
{
    if s.len() == 0 {
        s
    } else {
        spec_insert_by_mtime(spec_sort_by_mtime(s.drop_last()), s.last())
    }
}

proof fn lemma_insert_at<T>(s: Seq<(T, Option<u64>)>, e: (T, Option<u64>), k: int)
    requires
        0 <= k <= s.len(),
        forall|j: int| 0 <= j < k ==> mtime_le(s[j].1, e.1),
        k == s.len() || !mtime_le(s[k].1, e.1),
    ensures
        spec_insert_by_mtime(s, e) == s.subrange(0, k) + seq![e] + s.subrange(k, s.len() as int),
    decreases s.len(),
{
    if s.len() == 0 {
        assert(spec_insert_by_mtime(s, e) =~= s.subrange(0, k) + seq![e] + s.subrange(
            k,
            s.len() as int,
        ));
    } else if k == 0 {
        assert(spec_insert_by_mtime(s, e) =~= s.subrange(0, 0) + seq![e] + s.subrange(
            0,
            s.len() as int,
        ));
    } else {
        lemma_insert_at(s.drop_first(), e, k - 1);
        assert(s.drop_first().subrange(0, k - 1) =~= s.subrange(1, k));
        assert(s.drop_first().subrange(k - 1, s.drop_first().len() as int) =~= s.subrange(
            k,
            s.len() as int,
        ));
        assert(seq![s[0]] + (s.subrange(1, k) + seq![e] + s.subrange(k, s.len() as int)) =~= s
            .subrange(0, k) + seq![e] + s.subrange(k, s.len() as int));
    }
}

/// A list in which every entry may stand before every later one.
pub open spec fn mtime_sorted<T>(s: Seq<(T, Option<u64>)>) -> bool {
    forall|a: int, b: int| 0 <= a < b < s.len() ==> mtime_le(s[a].1, s[b].1)
}

proof fn lemma_insert_membership<T>(s: Seq<(T, Option<u64>)>, e: (T, Option<u64>), k: int)
    requires
        0 <= k < spec_insert_by_mtime(s, e).len(),
    ensures
        spec_insert_by_mtime(s, e)[k] == e || exists|i: int|
            0 <= i < s.len() && s[i] == spec_insert_by_mtime(s, e)[k],
    decreases s.len(),
{
    if s.len() > 0 && mtime_le(s[0].1, e.1) {
        if k == 0 {
            assert(s[0] == spec_insert_by_mtime(s, e)[0]);
        } else {
            lemma_insert_membership(s.drop_first(), e, k - 1);
            let r = spec_insert_by_mtime(s.drop_first(), e);
            if r[k - 1] != e {
                let i = choose|i: int| 0 <= i < s.drop_first().len() && s.drop_first()[i] == r[k
                    - 1];
                assert(s[i + 1] == spec_insert_by_mtime(s, e)[k]);
            }
        }
    } else if s.len() > 0 {
        if k > 0 {
            assert(s[k - 1] == spec_insert_by_mtime(s, e)[k]);
        }
    }
}

proof fn lemma_insert_ordered<T>(s: Seq<(T, Option<u64>)>, e: (T, Option<u64>))
    requires
        mtime_sorted(s),
    ensures
        mtime_sorted(spec_insert_by_mtime(s, e)),
        spec_insert_by_mtime(s, e).len() == s.len() + 1,
    decreases s.len(),
{
    let r = spec_insert_by_mtime(s, e);
    if s.len() == 0 {
    } else if mtime_le(s[0].1, e.1) {
        assert(mtime_sorted(s.drop_first()));
        lemma_insert_ordered(s.drop_first(), e);
        let rest = spec_insert_by_mtime(s.drop_first(), e);
        assert forall|a: int, b: int| 0 <= a < b < r.len() implies mtime_le(r[a].1, r[b].1) by {
            if a == 0 {
                lemma_insert_membership(s.drop_first(), e, b - 1);
                if rest[b - 1] != e {
                    let i = choose|i: int|
                        0 <= i < s.drop_first().len() && s.drop_first()[i] == rest[b - 1];
                    assert(s.drop_first()[i] == s[i + 1]);
                    assert(mtime_le(s[0].1, s[i + 1].1));
                }
            } else {
                assert(mtime_le(rest[a - 1].1, rest[b - 1].1));
            }
        }
    } else {
        assert forall|a: int, b: int| 0 <= a < b < r.len() implies mtime_le(r[a].1, r[b].1) by {
            if a == 0 {
                assert(mtime_le(e.1, s[0].1));
                if b > 1 {
                    assert(mtime_le(s[0].1, s[b - 1].1));
                }
            } else {
                assert(mtime_le(s[a - 1].1, s[b - 1].1));
            }
        }
    }
}

/// The sort's order, stated on its own: the sorted list is as long as its
/// source and every entry may stand before every later one — times run
/// downward, with unreadable times at the end.
pub proof fn lemma_sort_by_mtime_ordered<T>(s: Seq<(T, Option<u64>)>)
    ensures
        spec_sort_by_mtime(s).len() == s.len(),
        mtime_sorted(spec_sort_by_mtime(s)),
    decreases s.len(),
{
    if s.len() > 0 {
        lemma_sort_by_mtime_ordered(s.drop_last());
        lemma_insert_ordered(spec_sort_by_mtime(s.drop_last()), s.last());
    }
}

/// Return the entries ordered by modification time, most recently
/// modified first; entries whose time could not be read come last.
/// Entries that compare equal keep their relative order.
pub fn sort_by_mtime<T>(files: Vec<(T, Option<u64>)>) -> (r: Vec<(T, Option<u64>)>)
    ensures
        r@ == spec_sort_by_mtime(files@),
{
    let ghost fs = files@;
    let mut files = files;
    let n0 = files.len();
    proof {
        assert(fs.len() == n0);
    }
    let mut out: Vec<(T, Option<u64>)> = Vec::new();
    let mut i: usize = 0;
    proof {
        assert(fs.subrange(0, 0) =~= Seq::<(T, Option<u64>)>::empty());
        assert(out@ =~= spec_sort_by_mtime(fs.subrange(0, 0)));
    }
    while files.len() > 0
        invariant
            fs.len() == n0,
            i <= fs.len(),
            files@ =~= fs.subrange(i as int, fs.len() as int),
            out@ == spec_sort_by_mtime(fs.subrange(0, i as int)),
        decreases fs.len() - i,
    {
        let e = files.remove(0);
        proof {
            assert(i < fs.len());
            assert(e == fs[i as int]);
            assert(files@ =~= fs.subrange(i + 1, fs.len() as int));
        }
        let mut k: usize = 0;
        while k < out.len() && !mtime_after(out[k].1, e.1)
            invariant
                k <= out@.len(),
                forall|j: int| 0 <= j < k ==> mtime_le(out@[j].1, e.1),
            decreases out@.len() - k,
        {
            k += 1;
        }
        proof {
            lemma_insert_at(out@, e, k as int);
        }
        let ghost prev = out@;
        out.insert(k, e);
        proof {
            assert(out@ =~= prev.subrange(0, k as int) + seq![e] + prev.subrange(
                k as int,
                prev.len() as int,
            ));
            assert(fs.subrange(0, i + 1).drop_last() =~= fs.subrange(0, i as int));
            assert(fs.subrange(0, i + 1).last() == fs[i as int]);
        }
        i += 1;
    }
    proof {
        assert(i == fs.len());
        assert(fs.subrange(0, fs.len() as int) =~= fs);
    }
    out
}

} // verus!
