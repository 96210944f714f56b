//! Drawing one successor among weighted candidates.

use vstd::prelude::*;

verus! {

/// Calls `rand::random::<u64>`. Trusted, and nothing is claimed of the value:
/// every `u64` may come back.
#[verifier::external_body]
pub(crate) fn random_u64() -> (r: u64) {
    rand::random::<u64>()
}

/// The sum of the counts of `candidates`.
pub open spec fn weight_sum(candidates: Seq<(String, u32)>) -> nat
    decreases candidates.len(),
{
    if candidates.len() == 0 {
        0
    } else {
        weight_sum(candidates.drop_last()) + candidates.last().1 as nat
    }
}

/// A sum of counts is at most `u32::MAX` for each candidate.
pub proof fn lemma_weight_sum_bound(candidates: Seq<(String, u32)>)
    ensures
        weight_sum(candidates) <= candidates.len() * 0xFFFF_FFFF,
    decreases candidates.len(),
{
    if candidates.len() > 0 {
        lemma_weight_sum_bound(candidates.drop_last());
        assert((candidates.len() - 1) * 0xFFFF_FFFF + 0xFFFF_FFFF == candidates.len() * 0xFFFF_FFFF)
            by (nonlinear_arith);
    }
}

/// The sums of the prefixes of `candidates` do not decrease.
pub proof fn lemma_weight_sum_monotone(candidates: Seq<(String, u32)>, i: int, j: int)
    requires
        0 <= i <= j <= candidates.len(),
    ensures
        weight_sum(candidates.take(i)) <= weight_sum(candidates.take(j)),
    decreases j - i,
{
    if i < j {
        lemma_weight_sum_monotone(candidates, i, j - 1);
        assert(candidates.take(j).drop_last() =~= candidates.take(j - 1));
    }
}

/// The total weight of `candidates`.
pub fn total_weight(candidates: &Vec<(String, u32)>) -> (total: u128)
    ensures
        total == weight_sum(candidates@),
{
    let mut total: u128 = 0;
    let mut i: usize = 0;
    assert(candidates@.take(0) =~= Seq::<(String, u32)>::empty());
    while i < candidates.len()
        invariant
            i <= candidates.len(),
            total == weight_sum(candidates@.take(i as int)),
        decreases candidates.len() - i,
    {
        proof {
            lemma_weight_sum_bound(candidates@.take(i as int));
            assert(i * 0xFFFF_FFFF + 0xFFFF_FFFF <= 0xFFFF_FFFF_FFFF_FFFF * 0xFFFF_FFFF + 0xFFFF_FFFF)
                by (nonlinear_arith)
                requires
                    i <= 0xFFFF_FFFF_FFFF_FFFF,
            ;
            assert(candidates@.take(i + 1).drop_last() =~= candidates@.take(i as int));
        }
        total = total + candidates[i].1 as u128;
        i += 1;
    }
    assert(candidates@.take(candidates.len() as int) =~= candidates@);
    total
}

/// Whether `index` is the candidate at which a walk through the cumulative
/// weights passes `r`: the weights before it sum to at most `r`, and with
/// its own to more.
pub open spec fn selects(candidates: Seq<(String, u32)>, r: nat, index: int) -> bool {
    &&& 0 <= index < candidates.len()
    &&& weight_sum(candidates.take(index)) <= r
    &&& r < weight_sum(candidates.take(index + 1))
}

/// At most one candidate is selected by a given `r`.
pub proof fn lemma_selects_unique(candidates: Seq<(String, u32)>, r: nat, i: int, j: int)
    requires
        selects(candidates, r, i),
        selects(candidates, r, j),
    ensures
        i == j,
{
    if i < j {
        lemma_weight_sum_monotone(candidates, i + 1, j);
    } else if j < i {
        lemma_weight_sum_monotone(candidates, j + 1, i);
    }
}

/// Walks `candidates` in order, taking each count from `r` until what is left
/// is less than the count at hand: that candidate is chosen.
pub fn choose_weighted(candidates: &Vec<(String, u32)>, r: u128) -> (index: usize)
    requires
        r < weight_sum(candidates@),
    ensures
        selects(candidates@, r as nat, index as int),
{
    let mut left: u128 = r;
    let mut i: usize = 0;
    assert(candidates@.take(0) =~= Seq::<(String, u32)>::empty());
    assert(candidates@.take(candidates.len() as int) =~= candidates@);
    loop
        invariant
            i < candidates.len(),
            r < weight_sum(candidates@),
            left + weight_sum(candidates@.take(i as int)) == r,
        decreases candidates.len() - i,
    {
        let count: u128 = candidates[i].1 as u128;
        proof {
            assert(candidates@.take(i + 1).drop_last() =~= candidates@.take(i as int));
        }
        if left < count {
            return i;
        }
        left = left - count;
        proof {
            if i + 1 == candidates.len() {
                assert(candidates@.take(i + 1) =~= candidates@);
            }
        }
        i += 1;
    }
}

/// Some candidate is selected by every `r` below the total weight.
pub proof fn lemma_some_selects(candidates: Seq<(String, u32)>, r: nat) -> (index: int)
    requires
        r < weight_sum(candidates),
    ensures
        selects(candidates, r, index),
    decreases candidates.len(),
{
    let front = candidates.drop_last();
    assert(candidates.take(candidates.len() as int) =~= candidates);
    assert(candidates.take(candidates.len() - 1) =~= front);
    if weight_sum(front) <= r {
        candidates.len() - 1
    } else {
        let index = lemma_some_selects(front, r);
        assert(front.take(index) =~= candidates.take(index));
        assert(front.take(index + 1) =~= candidates.take(index + 1));
        index
    }
}

/// The candidate that `r` selects.
pub open spec fn selected(candidates: Seq<(String, u32)>, r: nat) -> int {
    choose|index: int| selects(candidates, r, index)
}

/// Below the total weight, `selected` is the one candidate that `r` selects.
pub proof fn lemma_selected(candidates: Seq<(String, u32)>, r: nat)
    requires
        r < weight_sum(candidates),
    ensures
        selects(candidates, r, selected(candidates, r)),
        forall|index: int| selects(candidates, r, index) ==> index == selected(candidates, r),
{
    let some = lemma_some_selects(candidates, r);
    assert forall|index: int| selects(candidates, r, index) implies index == selected(candidates, r) by {
        lemma_selects_unique(candidates, r, index, selected(candidates, r));
    }
}

/// The draws that select a candidate are as many as its count: those from
/// the sum of the counts before it up to, and not including, that sum and
/// its own count. So among draws spread evenly below the total weight, each
/// candidate is chosen in its share of the weight.
pub proof fn lemma_selection_share(candidates: Seq<(String, u32)>, index: int, r: nat)
    requires
        0 <= index < candidates.len(),
    ensures
        selects(candidates, r, index) <==> weight_sum(candidates.take(index)) <= r < weight_sum(
            candidates.take(index),
        ) + candidates[index].1,
{
    assert(candidates.take(index + 1).drop_last() =~= candidates.take(index));
}

/// The candidate that the raw draw `raw` selects, reduced to the total
/// weight; `None` where there is no candidate or no weight to draw from.
pub fn pick_next(candidates: &Vec<(String, u32)>, raw: u64) -> (picked: Option<usize>)
    ensures
        weight_sum(candidates@) == 0 ==> picked.is_none(),
        weight_sum(candidates@) > 0 ==> picked.is_some() && picked.unwrap() as int == selected(
            candidates@,
            (raw as nat) % weight_sum(candidates@),
        ) && selects(candidates@, (raw as nat) % weight_sum(candidates@), picked.unwrap() as int),
{
    let total = total_weight(candidates);
    if total == 0 {
        None
    } else {
        let r: u128 = (raw as u128) % total;
        proof {
            lemma_selected(candidates@, r as nat);
        }
        Some(choose_weighted(candidates, r))
    }
}

/// The word that follows by the raw draw `raw`: that of the selected
/// candidate, unless it is the end mark or there is nothing to select from.
pub open spec fn next_word_of(candidates: Seq<(String, u32)>, raw: u64) -> Option<Seq<char>> {
    if weight_sum(candidates) == 0 {
        None
    } else {
        let word = candidates[selected(candidates, (raw as nat) % weight_sum(candidates))].0@;
        if word.len() == 0 {
            None
        } else {
            Some(word)
        }
    }
}

/// One step of a walk: the next word drawn by weight among `candidates`, or
/// `None` where the walk ends.
pub fn next_word(candidates: &Vec<(String, u32)>, raw: u64) -> (word: Option<String>)
    ensures
        word.is_some() == next_word_of(candidates@, raw).is_some(),
        word matches Some(w) ==> next_word_of(candidates@, raw) == Some(w@),
{
    match pick_next(candidates, raw) {
        None => None,
        Some(at) => {
            let word: String = candidates[at].0.clone();
            if word.as_str().is_empty() {
                None
            } else {
                Some(word)
            }
        },
    }
}

} // verus!
