//! Sorting a list by a sort method, keeping entries that stand level in
//! the order they came.
use crate::sort::{before, lemma_order_steps, not_after, precedes, tied, KeyView, SortKey, SortMethod};
use vstd::prelude::*;

verus! {

/// Whether `p` lists the positions `0..n`, each once.
pub open spec fn is_permutation(p: Seq<int>, n: nat) -> bool {
    &&& p.len() == n
    &&& forall|i: int| 0 <= i < n ==> 0 <= #[trigger] p[i] < n
    &&& forall|i: int, j: int| 0 <= i < n && 0 <= j < n && i != j ==> #[trigger] p[i] != #[trigger] p[j]
}

/// The key of an entry.
pub open spec fn key_of<T>(e: (SortKey, T)) -> KeyView {
    e.0@
}

/// Whether `out` is `input` sorted by `m`, keeping level entries in the
/// order they had: entry `i` of `out` is entry `p[i]` of `input`, no entry
/// comes after a later one, and of two level entries the earlier came
/// first in `input`.
pub open spec fn stably_sorted<T>(m: SortMethod, input: Seq<(SortKey, T)>, out: Seq<(SortKey, T)>, p: Seq<int>) -> bool {
    &&& is_permutation(p, input.len())
    &&& out.len() == input.len()
    &&& forall|i: int| 0 <= i < out.len() ==> #[trigger] out[i] == input[p[i]]
    &&& forall|i: int, j: int|
        0 <= i < j < out.len() ==> not_after(m, key_of(#[trigger] out[i]), key_of(#[trigger] out[j]))
    &&& forall|i: int, j: int|
        0 <= i < j < out.len() && tied(m, key_of(#[trigger] out[i]), key_of(#[trigger] out[j])) ==> p[i] < p[j]
}

/// Sorts `items` by their keys under `m`, keeping entries that stand level
/// in the order they came.
pub fn sort_stable<T>(m: SortMethod, items: Vec<(SortKey, T)>) -> (r: Vec<(SortKey, T)>)
    ensures
        exists|p: Seq<int>| stably_sorted(m, items@, r@, p),
{
    let ghost input = items@;
    let mut rest = items;
    let mut out: Vec<(SortKey, T)> = Vec::new();
    let ghost mut p: Seq<int> = Seq::empty();
    let mut k: usize = 0;
    let total: usize = rest.len();
    proof {
        assert(input.len() == total);
        assert(input.subrange(0, 0) =~= Seq::<(SortKey, T)>::empty());
        assert(rest@ =~= input.subrange(0, input.len() as int));
    }
    while rest.len() > 0
        invariant
            k <= input.len(),
            input.len() <= usize::MAX,
            rest@ == input.subrange(k as int, input.len() as int),
            stably_sorted(m, input.subrange(0, k as int), out@, p),
        decreases rest@.len(),
    {
        let x = rest.remove(0);
        let mut pos: usize = 0;
        loop
            invariant
                pos <= out@.len(),
                forall|j: int| 0 <= j < pos ==> !before(m, x.0@, key_of(#[trigger] out@[j])),
            ensures
                pos <= out@.len(),
                forall|j: int| 0 <= j < pos ==> !before(m, x.0@, key_of(#[trigger] out@[j])),
                pos < out@.len() ==> before(m, x.0@, key_of(out@[pos as int])),
            decreases out@.len() - pos,
        {
            if pos >= out.len() {
                break;
            }
            if precedes(&m, &x.0, &out[pos].0) {
                break;
            }
            pos = pos + 1;
        }
        proof {
            lemma_insert_entry(m, input, k as nat, out@, p, x, pos as int);
            p = p.insert(pos as int, k as int);
        }
        out.insert(pos, x);
        k = k + 1;
        proof {
            assert(rest@ =~= input.subrange(k as int, input.len() as int));
        }
    }
    proof {
        assert(input.subrange(0, k as int) =~= input);
    }
    out
}

/// Inserting the next entry `x` of `input` before the first entry it comes
/// strictly before keeps the list stably sorted.
proof fn lemma_insert_entry<T>(
    m: SortMethod,
    input: Seq<(SortKey, T)>,
    k: nat,
    out: Seq<(SortKey, T)>,
    p: Seq<int>,
    x: (SortKey, T),
    pos: int,
)
    requires
        k < input.len(),
        input[k as int] == x,
        stably_sorted(m, input.subrange(0, k as int), out, p),
        0 <= pos <= out.len(),
        forall|j: int| 0 <= j < pos ==> !before(m, x.0@, key_of(#[trigger] out[j])),
        pos < out.len() ==> before(m, x.0@, key_of(out[pos])),
    ensures
        stably_sorted(m, input.subrange(0, k as int + 1), out.insert(pos, x), p.insert(pos, k as int)),
{
    let post = input.subrange(0, k as int + 1);
    let np = p.insert(pos, k as int);
    let nout = out.insert(pos, x);
    lemma_insert_position(p, k, pos);
    assert forall|i: int| 0 <= i < nout.len() implies #[trigger] nout[i] == post[np[i]] by {
        if i < pos {
            assert(nout[i] == out[i] && np[i] == p[i]);
        } else if i > pos {
            assert(nout[i] == out[i - 1] && np[i] == p[i - 1]);
        }
    }
    assert forall|i: int, j: int| 0 <= i < j < nout.len() implies not_after(
        m,
        key_of(#[trigger] nout[i]),
        key_of(#[trigger] nout[j]),
    ) by {
        if j < pos {
            assert(nout[i] == out[i] && nout[j] == out[j]);
        } else if j == pos {
            assert(nout[i] == out[i]);
            lemma_order_steps(m, x.0@, key_of(out[i]), key_of(out[i]));
        } else if i == pos {
            assert(nout[j] == out[j - 1]);
            lemma_order_steps(m, x.0@, key_of(out[pos]), key_of(out[j - 1]));
            if j - 1 > pos {
                assert(not_after(m, key_of(out[pos]), key_of(out[j - 1])));
            }
        } else if i < pos {
            assert(nout[i] == out[i] && nout[j] == out[j - 1]);
        } else {
            assert(nout[i] == out[i - 1] && nout[j] == out[j - 1]);
        }
    }
    assert forall|i: int, j: int|
        0 <= i < j < nout.len() && tied(m, key_of(#[trigger] nout[i]), key_of(#[trigger] nout[j])) implies np[i]
        < np[j] by {
        if j < pos {
            assert(nout[i] == out[i] && nout[j] == out[j]);
            assert(np[i] == p[i] && np[j] == p[j]);
        } else if j == pos {
            assert(np[i] == p[i]);
            assert(0 <= p[i] < k);
        } else if i == pos {
            assert(nout[j] == out[j - 1]);
            lemma_order_steps(m, x.0@, key_of(out[pos]), key_of(out[j - 1]));
            if j - 1 > pos {
                assert(not_after(m, key_of(out[pos]), key_of(out[j - 1])));
                lemma_before_then_not_after(m, x.0@, key_of(out[pos]), key_of(out[j - 1]));
            }
        } else if i < pos {
            assert(nout[i] == out[i] && nout[j] == out[j - 1]);
            assert(np[i] == p[i] && np[j] == p[j - 1]);
        } else {
            assert(nout[i] == out[i - 1] && nout[j] == out[j - 1]);
            assert(np[i] == p[i - 1] && np[j] == p[j - 1]);
        }
    }
}

/// A key strictly before one that does not come after a third is not level
/// with the third.
proof fn lemma_before_then_not_after(m: SortMethod, x: KeyView, a: KeyView, b: KeyView)
    requires
        before(m, x, a),
        not_after(m, a, b),
    ensures
        !tied(m, x, b),
{
    lemma_order_steps(m, x, b, x);
    lemma_order_steps(m, a, b, x);
    lemma_order_steps(m, x, a, x);
}

/// Putting the new position `k` at `pos` into a list of the positions
/// `0..k` gives a list of the positions `0..k + 1`.
proof fn lemma_insert_position(p: Seq<int>, k: nat, pos: int)
    requires
        is_permutation(p, k),
        0 <= pos <= k,
    ensures
        is_permutation(p.insert(pos, k as int), k + 1),
{
    let np = p.insert(pos, k as int);
    assert forall|i: int| 0 <= i < k + 1 implies 0 <= #[trigger] np[i] < k + 1 by {
        if i < pos {
            assert(np[i] == p[i]);
        } else if i > pos {
            assert(np[i] == p[i - 1]);
        }
    }
    assert forall|i: int, j: int| 0 <= i < k + 1 && 0 <= j < k + 1 && i != j implies #[trigger] np[i]
        != #[trigger] np[j] by {
        let pi = if i < pos { i } else { i - 1 };
        let pj = if j < pos { j } else { j - 1 };
        if i != pos && j != pos {
            assert(np[i] == p[pi] && np[j] == p[pj]);
            assert(p[pi] != p[pj]);
        } else if i == pos {
            assert(np[j] == p[pj]);
            assert(0 <= p[pj] < k);
        } else {
            assert(np[i] == p[pi]);
            assert(0 <= p[pi] < k);
        }
    }
}

} // verus!
