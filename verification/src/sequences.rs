//! Sequence operations that the library takes from `itertools`, with what
//! they are taken to compute.

use vstd::prelude::*;
use itertools::Itertools;

verus! {

/// The elements of `a` and `b` in turn, starting with `a`. Once one of the
/// two has run out the rest of the other follows.
pub open spec fn interleaved(a: Seq<usize>, b: Seq<usize>) -> Seq<usize>
    decreases a.len() + b.len(),
{
    if a.len() == 0 {
        b
    } else {
        seq![a[0]] + interleaved(b, a.drop_first())
    }
}

/// The elements of `s` without repetitions: of equal elements only the first
/// stays, and what stays keeps its order.
pub open spec fn distinct(s: Seq<(usize, usize)>) -> Seq<(usize, usize)>
    decreases s.len(),
{
    if s.len() == 0 {
        s
    } else {
        let before = distinct(s.drop_last());
        if before.contains(s.last()) {
            before
        } else {
            before.push(s.last())
        }
    }
}

/// Calls `Itertools::interleave` on the two vectors and collects what comes
/// out. The contract is the documented behaviour of that adaptor: it
/// alternates between the two sources, beginning with the first, and keeps
/// drawing from the one that is left when the other is exhausted. Not proved.
#[verifier::external_body]
pub(crate) fn interleave(a: Vec<usize>, b: Vec<usize>) -> (merged: Vec<usize>)
    ensures
        merged@ == interleaved(a@, b@),
{
    a.into_iter().interleave(b).collect()
}

/// Calls `Itertools::unique` on the vector and collects what comes out. The
/// contract is the documented behaviour of that adaptor: elements that were
/// produced before are dropped, and the others keep their order.
/// Not proved.
#[verifier::external_body]
pub(crate) fn unique(items: Vec<(usize, usize)>) -> (kept: Vec<(usize, usize)>)
    ensures
        kept@ == distinct(items@),
{
    items.into_iter().unique().collect()
}

/// Calls `Itertools::tuple_windows` for windows of three on the vector and
/// collects what comes out. The contract is the documented behaviour of that
/// adaptor: every run of three neighbours, in order, and none where there
/// are fewer than three elements. Not proved.
#[verifier::external_body]
pub(crate) fn windows_of_three(items: Vec<(usize, usize)>) -> (windows: Vec<
    ((usize, usize), (usize, usize), (usize, usize)),
>)
    ensures
        windows@.len() == if items@.len() >= 3 {
            items@.len() - 2
        } else {
            0
        },
        forall|i: int|
            0 <= i < windows@.len() ==> windows@[i] == (items@[i], items@[i + 1], items@[i + 2]),
{
    items.into_iter().tuple_windows::<(_, _, _)>().collect()
}

/// Where the first sequence is one longer than the second, interleaving puts
/// the first at the even places and the second at the odd ones.
pub proof fn lemma_interleaved_alternates(a: Seq<usize>, b: Seq<usize>)
    requires
        a.len() == b.len() + 1 || a.len() == b.len(),
    ensures
        interleaved(a, b).len() == a.len() + b.len(),
        forall|k: int| 0 <= k < a.len() ==> #[trigger] interleaved(a, b)[2 * k] == a[k],
        forall|k: int| 0 <= k < b.len() ==> #[trigger] interleaved(a, b)[2 * k + 1] == b[k],
    decreases a.len() + b.len(),
{
    if a.len() == 0 {
    } else {
        let rest = a.drop_first();
        lemma_interleaved_alternates(b, rest);
        let tail = interleaved(b, rest);
        let whole = interleaved(a, b);
        assert(whole == seq![a[0]] + tail);
        assert forall|k: int| 0 <= k < a.len() implies #[trigger] whole[2 * k] == a[k] by {
            if k > 0 {
                assert(whole[2 * k] == tail[2 * (k - 1) + 1]);
                assert(rest[k - 1] == a[k]);
            }
        }
        assert forall|k: int| 0 <= k < b.len() implies #[trigger] whole[2 * k + 1] == b[k] by {
            assert(whole[2 * k + 1] == tail[2 * k]);
        }
    }
}

/// `distinct` repeats nothing, and holds exactly the elements of its argument.
pub proof fn lemma_distinct(s: Seq<(usize, usize)>)
    ensures
        distinct(s).no_duplicates(),
        distinct(s).len() <= s.len(),
        forall|p: (usize, usize)| distinct(s).contains(p) <==> s.contains(p),
    decreases s.len(),
{
    if s.len() == 0 {
    } else {
        let front = s.drop_last();
        lemma_distinct(front);
        let before = distinct(front);
        let all = distinct(s);
        assert forall|p: (usize, usize)| all.contains(p) <==> s.contains(p) by {
            if s.contains(p) {
                let i = choose|i: int| 0 <= i < s.len() && s[i] == p;
                if i < s.len() - 1 {
                    assert(front[i] == p);
                    assert(front.contains(p));
                    assert(before.contains(p));
                    let j = choose|j: int| 0 <= j < before.len() && before[j] == p;
                    assert(all[j] == p);
                } else {
                    if !before.contains(p) {
                        assert(all[before.len() as int] == p);
                    } else {
                        let j = choose|j: int| 0 <= j < before.len() && before[j] == p;
                        assert(all[j] == p);
                    }
                }
            }
            if all.contains(p) {
                let j = choose|j: int| 0 <= j < all.len() && all[j] == p;
                if j < before.len() {
                    assert(before[j] == p);
                    assert(before.contains(p));
                    assert(front.contains(p));
                    let i = choose|i: int| 0 <= i < front.len() && front[i] == p;
                    assert(s[i] == p);
                } else {
                    assert(p == s.last());
                    assert(s[s.len() - 1] == p);
                }
            }
        }
    }
}

} // verus!
