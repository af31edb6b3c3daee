//! Names with a weight, and the heaviest few of them in order.

use vstd::prelude::*;
use crate::text::{chars_of, comes_before, lemma_lex_total, lemma_lex_transitive, lex_lt};

verus! {

/// A name and its weight.
pub open spec fn weighted(p: (String, u64)) -> (Seq<char>, nat) {
    (p.0@, p.1 as nat)
}

/// The names and weights that a vector holds.
pub open spec fn weighted_all(v: Seq<(String, u64)>) -> Seq<(Seq<char>, nat)> {
    v.map_values(|p: (String, u64)| weighted(p))
}

/// The order of ranking: the heavier comes first, and of two that weigh the
/// same the one whose name comes first in dictionary order.
pub open spec fn ranks_before(a: (Seq<char>, nat), b: (Seq<char>, nat)) -> bool {
    a.1 > b.1 || (a.1 == b.1 && lex_lt(a.0, b.0))
}

/// Of two different names one ranks before the other, and never both.
pub proof fn lemma_ranks_total(a: (Seq<char>, nat), b: (Seq<char>, nat))
    ensures
        a.0 != b.0 ==> (ranks_before(a, b) || ranks_before(b, a)),
        !(ranks_before(a, b) && ranks_before(b, a)),
{
    lemma_lex_total(a.0, b.0);
}

/// The order of ranking is transitive.
pub proof fn lemma_ranks_transitive(
    a: (Seq<char>, nat),
    b: (Seq<char>, nat),
    c: (Seq<char>, nat),
)
    requires
        ranks_before(a, b),
        ranks_before(b, c),
    ensures
        ranks_before(a, c),
{
    if a.1 == b.1 && b.1 == c.1 {
        lemma_lex_transitive(a.0, b.0, c.0);
    }
}

/// No name occurs twice.
pub open spec fn distinct_names(items: Seq<(Seq<char>, nat)>) -> bool {
    forall|i: int, j: int|
        0 <= i < j < items.len() ==> (#[trigger] items[i]).0 != (#[trigger] items[j]).0
}

/// Whether `r` is the first `limit` of `items` in the order of ranking:
/// what is in `r` is among the items; `r` is in the order of ranking; and
/// an item that is not in `r` ranks after all that are, `r` being full.
pub open spec fn is_top(
    items: Seq<(Seq<char>, nat)>,
    limit: nat,
    r: Seq<(Seq<char>, nat)>,
) -> bool {
    &&& r.len() <= limit
    &&& forall|i: int| 0 <= i < r.len() ==> items.contains(#[trigger] r[i])
    &&& forall|i: int, j: int| 0 <= i < j < r.len() ==> ranks_before(r[i], r[j])
    &&& forall|k: int|
        0 <= k < items.len() ==> r.contains(#[trigger] items[k]) || (r.len() == limit
            && forall|i: int| 0 <= i < r.len() ==> ranks_before(#[trigger] r[i], items[k]))
}

/// Whether `a` ranks before `b`.
pub fn ranks(a: &(String, u64), b: &(String, u64)) -> (r: bool)
    ensures
        r == ranks_before(weighted(*a), weighted(*b)),
{
    if a.1 != b.1 {
        a.1 > b.1
    } else {
        let x = chars_of(a.0.as_str());
        let y = chars_of(b.0.as_str());
        comes_before(x.as_slice(), y.as_slice())
    }
}

/// The index of the item that ranks before all others.
pub fn first_ranked(rest: &Vec<(String, u64)>) -> (b: usize)
    requires
        rest@.len() > 0,
        distinct_names(weighted_all(rest@)),
    ensures
        b < rest@.len(),
        forall|j: int|
            0 <= j < rest@.len() && j != b ==> ranks_before(
                weighted(rest@[b as int]),
                weighted(#[trigger] rest@[j]),
            ),
{
    let ghost w = weighted_all(rest@);
    let mut best: usize = 0;
    let mut j: usize = 1;
    while j < rest.len()
        invariant
            1 <= j <= rest@.len(),
            best < j,
            w == weighted_all(rest@),
            distinct_names(w),
            forall|m: int| 0 <= m < j && m != best ==> ranks_before(w[best as int], #[trigger] w[m]),
        decreases rest.len() - j,
    {
        if ranks(&rest[j], &rest[best]) {
            proof {
                assert forall|m: int| 0 <= m < j + 1 && m != j implies ranks_before(
                    w[j as int],
                    #[trigger] w[m],
                ) by {
                    if m != best {
                        lemma_ranks_transitive(w[j as int], w[best as int], w[m]);
                    }
                }
            }
            best = j;
        } else {
            proof {
                assert(w[best as int].0 != w[j as int].0);
                lemma_ranks_total(w[best as int], w[j as int]);
            }
        }
        j += 1;
    }
    proof {
        assert forall|m: int| 0 <= m < rest@.len() && m != best implies ranks_before(
            weighted(rest@[best as int]),
            weighted(#[trigger] rest@[m]),
        ) by {
            assert(ranks_before(w[best as int], w[m]));
        }
    }
    best
}

/// The first `limit` of `items` in the order of ranking: see [`is_top`].
pub fn top_ranked(items: Vec<(String, u64)>, limit: usize) -> (out: Vec<(String, u64)>)
    requires
        distinct_names(weighted_all(items@)),
    ensures
        is_top(weighted_all(items@), limit as nat, weighted_all(out@)),
{
    let ghost all = weighted_all(items@);
    let mut rest = items;
    let mut out: Vec<(String, u64)> = Vec::new();
    proof {
        assert forall|k: int| 0 <= k < all.len() implies weighted_all(out@).contains(
            #[trigger] all[k],
        ) || weighted_all(rest@).contains(all[k]) by {
            assert(weighted_all(rest@)[k] == all[k]);
        }
        assert forall|j: int| 0 <= j < rest@.len() implies all.contains(
            #[trigger] weighted_all(rest@)[j],
        ) by {
            assert(all[j] == weighted_all(rest@)[j]);
        }
    }
    while out.len() < limit && rest.len() > 0
        invariant
            out@.len() <= limit,
            distinct_names(weighted_all(rest@)),
            forall|i: int| 0 <= i < out@.len() ==> all.contains(#[trigger] weighted_all(out@)[i]),
            forall|j: int|
                0 <= j < rest@.len() ==> all.contains(#[trigger] weighted_all(rest@)[j]),
            forall|i: int, j: int|
                0 <= i < out@.len() && 0 <= j < rest@.len() ==> ranks_before(
                    #[trigger] weighted_all(out@)[i],
                    #[trigger] weighted_all(rest@)[j],
                ),
            forall|i: int, j: int|
                0 <= i < j < out@.len() ==> ranks_before(
                    #[trigger] weighted_all(out@)[i],
                    #[trigger] weighted_all(out@)[j],
                ),
            forall|k: int|
                0 <= k < all.len() ==> weighted_all(out@).contains(#[trigger] all[k])
                    || weighted_all(rest@).contains(all[k]),
        decreases rest@.len(),
    {
        let b = first_ranked(&rest);
        let ghost before = rest;
        let ghost old_rest = weighted_all(rest@);
        let ghost old_out = weighted_all(out@);
        let item = rest.remove(b);
        out.push(item);
        let ghost new_rest = weighted_all(rest@);
        let ghost new_out = weighted_all(out@);
        proof {
            assert(new_out =~= old_out.push(old_rest[b as int]));
            assert(new_rest =~= old_rest.remove(b as int));
            assert forall|j: int| 0 <= j < new_rest.len() implies #[trigger] new_rest[j]
                == old_rest[if j < b {
                j
            } else {
                j + 1
            }] by {}
            assert(distinct_names(new_rest)) by {
                assert forall|i: int, j: int| 0 <= i < j < new_rest.len() implies (
                #[trigger] new_rest[i]).0 != (#[trigger] new_rest[j]).0 by {
                    let oi = if i < b { i } else { i + 1 };
                    let oj = if j < b { j } else { j + 1 };
                    assert(new_rest[i] == old_rest[oi]);
                    assert(new_rest[j] == old_rest[oj]);
                    assert(old_rest[oi].0 != old_rest[oj].0);
                }
            }
            assert forall|i: int| 0 <= i < new_out.len() implies all.contains(
                #[trigger] new_out[i],
            ) by {
                if i < old_out.len() {
                    assert(new_out[i] == old_out[i]);
                } else {
                    assert(new_out[i] == old_rest[b as int]);
                }
            }
            assert forall|j: int| 0 <= j < new_rest.len() implies all.contains(
                #[trigger] new_rest[j],
            ) by {
                let oj = if j < b { j } else { j + 1 };
                assert(new_rest[j] == old_rest[oj]);
            }
            assert forall|i: int, j: int|
                0 <= i < new_out.len() && 0 <= j < new_rest.len() implies ranks_before(
                #[trigger] new_out[i],
                #[trigger] new_rest[j],
            ) by {
                let oj = if j < b { j } else { j + 1 };
                assert(new_rest[j] == old_rest[oj]);
                if i < old_out.len() {
                    assert(new_out[i] == old_out[i]);
                    assert(ranks_before(old_out[i], old_rest[oj]));
                } else {
                    assert(new_out[i] == old_rest[b as int]);
                    assert(old_rest[oj] == weighted(before@[oj]));
                    assert(ranks_before(old_rest[b as int], old_rest[oj]));
                }
            }
            assert forall|i: int, j: int| 0 <= i < j < new_out.len() implies ranks_before(
                #[trigger] new_out[i],
                #[trigger] new_out[j],
            ) by {
                assert(new_out[i] == old_out[i]);
                if j < old_out.len() {
                    assert(new_out[j] == old_out[j]);
                } else {
                    assert(new_out[j] == old_rest[b as int]);
                    assert(ranks_before(old_out[i], old_rest[b as int]));
                }
            }
            assert forall|k: int| 0 <= k < all.len() implies new_out.contains(#[trigger] all[k])
                || new_rest.contains(all[k]) by {
                if old_out.contains(all[k]) {
                    let i = choose|i: int| 0 <= i < old_out.len() && old_out[i] == all[k];
                    assert(new_out[i] == all[k]);
                } else {
                    let j = choose|j: int| 0 <= j < old_rest.len() && old_rest[j] == all[k];
                    if j == b {
                        assert(new_out[old_out.len() as int] == all[k]);
                    } else {
                        let nj = if j < b { j } else { j - 1 };
                        assert(new_rest[nj] == all[k]);
                    }
                }
            }
        }
    }
    proof {
        let r = weighted_all(out@);
        let rv = weighted_all(rest@);
        assert forall|k: int| 0 <= k < all.len() implies r.contains(#[trigger] all[k]) || (r.len()
            == limit && forall|i: int| 0 <= i < r.len() ==> ranks_before(#[trigger] r[i], all[k])) by {
            if !r.contains(all[k]) {
                let j = choose|j: int| 0 <= j < rv.len() && rv[j] == all[k];
                assert forall|i: int| 0 <= i < r.len() implies ranks_before(
                    #[trigger] r[i],
                    all[k],
                ) by {
                    assert(ranks_before(r[i], rv[j]));
                }
            }
        }
    }
    out
}

} // verus!
