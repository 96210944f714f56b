//! Maintaining the table of word pairs, and reading the successors of a word.

use vstd::prelude::*;
use crate::tables::{WordPairRow, find_pair, is_edge, unique_pairs, lemma_find_pair_first, lemma_find_pair_none,
    lemma_find_pair_unique, lemma_find_pair_update};
use crate::words::pairs_view;
use crate::sampling::random_u64;

verus! {

/// How often the pair `(from, to)` occurs in `pairs`.
pub open spec fn occurrences(pairs: Seq<(Seq<char>, Seq<char>)>, from: Seq<char>, to: Seq<char>) -> nat
    decreases pairs.len(),
{
    if pairs.len() == 0 {
        0
    } else if pairs.last() == (from, to) {
        occurrences(pairs.drop_last(), from, to) + 1
    } else {
        occurrences(pairs.drop_last(), from, to)
    }
}

/// The count of an edge after `n` more occurrences: an absent edge starts at
/// one, and a count stays at `u32::MAX` once it has reached it.
pub open spec fn count_after(before: Option<u32>, n: nat) -> Option<u32> {
    if n == 0 {
        before
    } else {
        let total = n + (match before {
            Some(count) => count as nat,
            None => 0,
        });
        Some(if total > u32::MAX { u32::MAX } else { total as u32 })
    }
}

/// What is found for an edge once user `user_id` has recorded `pairs`.
pub open spec fn recorded(
    rows: Seq<WordPairRow>,
    user_id: u32,
    pairs: Seq<(Seq<char>, Seq<char>)>,
    id: u32,
    from: Seq<char>,
    to: Seq<char>,
) -> Option<u32> {
    if id == user_id {
        count_after(find_pair(rows, id, from, to), occurrences(pairs, from, to))
    } else {
        find_pair(rows, id, from, to)
    }
}

/// Counts one more occurrence of the edge of `user_id` from `word_1` to
/// `word_2`: a new row with count one where there is none, else the count of
/// its row raised by one.
pub fn upsert_pair(rows: &mut Vec<WordPairRow>, user_id: u32, word_1: &String, word_2: &String)
    requires
        unique_pairs(old(rows)@),
    ensures
        unique_pairs(final(rows)@),
        forall|id: u32, from: Seq<char>, to: Seq<char>| #[trigger]
            find_pair(final(rows)@, id, from, to) == if id == user_id && from == word_1@ && to == word_2@ {
                count_after(find_pair(old(rows)@, id, from, to), 1)
            } else {
                find_pair(old(rows)@, id, from, to)
            },
{
    let ghost before = rows@;
    let mut i: usize = 0;
    while i < rows.len()
        invariant
            i <= rows.len(),
            rows@ == before,
            before == old(rows)@,
            unique_pairs(before),
            forall|j: int| 0 <= j < i ==> !is_edge(#[trigger] rows@[j], user_id, word_1@, word_2@),
        decreases rows.len() - i,
    {
        if rows[i].user_id == user_id && rows[i].word_1 == *word_1 && rows[i].word_2 == *word_2 {
            let count: u32 = rows[i].count;
            let raised: u32 = if count < u32::MAX { count + 1 } else { count };
            let row = WordPairRow { user_id, word_1: word_1.clone(), word_2: word_2.clone(), count: raised };
            proof {
                lemma_find_pair_first(before, i as int, user_id, word_1@, word_2@);
                assert forall|id: u32, from: Seq<char>, to: Seq<char>| #[trigger]
                    find_pair(before.update(i as int, row), id, from, to) == if id == user_id && from == word_1@ && to
                        == word_2@ {
                        count_after(find_pair(before, id, from, to), 1)
                    } else {
                        find_pair(before, id, from, to)
                    } by {
                    lemma_find_pair_update(before, i as int, row, id, from, to);
                }
            }
            rows.set(i, row);
            return ;
        }
        i += 1;
    }
    let row = WordPairRow { user_id, word_1: word_1.clone(), word_2: word_2.clone(), count: 1 };
    proof {
        lemma_find_pair_none(before, user_id, word_1@, word_2@);
        assert(before.push(row).drop_last() =~= before);
    }
    rows.push(row);
}

/// Counts every pair of `pairs`, in order, for user `user_id`.
pub fn record_sequence(rows: &mut Vec<WordPairRow>, user_id: u32, pairs: &Vec<(String, String)>)
    requires
        unique_pairs(old(rows)@),
    ensures
        unique_pairs(final(rows)@),
        forall|id: u32, from: Seq<char>, to: Seq<char>| #[trigger]
            find_pair(final(rows)@, id, from, to) == recorded(old(rows)@, user_id, pairs_view(pairs@), id, from, to),
        pairs@.len() == 0 ==> final(rows)@ == old(rows)@,
{
    let ghost before = rows@;
    let ghost all = pairs_view(pairs@);
    let mut k: usize = 0;
    while k < pairs.len()
        invariant
            k <= pairs.len(),
            all == pairs_view(pairs@),
            unique_pairs(rows@),
            k == 0 ==> rows@ == before,
            forall|id: u32, from: Seq<char>, to: Seq<char>| #[trigger]
                find_pair(rows@, id, from, to) == recorded(before, user_id, all.take(k as int), id, from, to),
        decreases pairs.len() - k,
    {
        let ghost current = rows@;
        upsert_pair(rows, user_id, &pairs[k].0, &pairs[k].1);
        proof {
            assert(all.take(k + 1).drop_last() =~= all.take(k as int));
            assert(all.take(k + 1).last() == (pairs@[k as int].0@, pairs@[k as int].1@));
            assert forall|id: u32, from: Seq<char>, to: Seq<char>| #[trigger]
                find_pair(rows@, id, from, to) == recorded(before, user_id, all.take(k + 1), id, from, to) by {
                assert(find_pair(current, id, from, to) == recorded(
                    before,
                    user_id,
                    all.take(k as int),
                    id,
                    from,
                    to,
                ));
            }
        }
        k += 1;
    }
    assert(all.take(pairs.len() as int) =~= all);
}

/// The edges of user `id` that leave `from`, each as its target word and
/// count, in the order of the rows.
pub open spec fn successors_of(rows: Seq<WordPairRow>, id: u32, from: Seq<char>) -> Seq<(String, u32)>
    decreases rows.len(),
{
    if rows.len() == 0 {
        Seq::empty()
    } else if rows.last().user_id == id && rows.last().word_1@ == from {
        successors_of(rows.drop_last(), id, from).push((rows.last().word_2, rows.last().count))
    } else {
        successors_of(rows.drop_last(), id, from)
    }
}

/// Each successor is a row of the table: among unique rows, its count is the
/// one found for its edge, and is not zero.
pub proof fn lemma_successors_are_edges(rows: Seq<WordPairRow>, id: u32, from: Seq<char>, k: int)
    requires
        unique_pairs(rows),
        0 <= k < successors_of(rows, id, from).len(),
    ensures
        find_pair(rows, id, from, successors_of(rows, id, from)[k].0@) == Some(successors_of(rows, id, from)[k].1),
        successors_of(rows, id, from)[k].1 > 0,
{
    let at = lemma_successor_row(rows, id, from, k);
    lemma_find_pair_unique(rows, at, id, from, successors_of(rows, id, from)[k].0@);
}

/// The row from which the successor at `k` was read.
pub proof fn lemma_successor_row(rows: Seq<WordPairRow>, id: u32, from: Seq<char>, k: int) -> (at: int)
    requires
        0 <= k < successors_of(rows, id, from).len(),
    ensures
        0 <= at < rows.len(),
        rows[at].user_id == id,
        rows[at].word_1@ == from,
        rows[at].word_2 == successors_of(rows, id, from)[k].0,
        rows[at].count == successors_of(rows, id, from)[k].1,
    decreases rows.len(),
{
    let front = rows.drop_last();
    if rows.last().user_id == id && rows.last().word_1@ == from && k == successors_of(front, id, from).len() {
        rows.len() - 1
    } else {
        let at = lemma_successor_row(front, id, from, k);
        assert(front[at] == rows[at]);
        at
    }
}

/// Reads the successors of `from` for user `id`.
pub fn successors(rows: &Vec<WordPairRow>, id: u32, from: &String) -> (found: Vec<(String, u32)>)
    ensures
        found@ == successors_of(rows@, id, from@),
{
    let mut found: Vec<(String, u32)> = Vec::new();
    let mut i: usize = 0;
    assert(rows@.take(0) =~= Seq::<WordPairRow>::empty());
    while i < rows.len()
        invariant
            i <= rows.len(),
            found@ == successors_of(rows@.take(i as int), id, from@),
        decreases rows.len() - i,
    {
        assert(rows@.take(i + 1).drop_last() =~= rows@.take(i as int));
        if rows[i].user_id == id && rows[i].word_1 == *from {
            found.push((rows[i].word_2.clone(), rows[i].count));
        }
        i += 1;
    }
    assert(rows@.take(rows.len() as int) =~= rows@);
    found
}

/// Whether `kept` holds the members of `all` at the positions `at`, which
/// rise strictly.
pub open spec fn kept_at(all: Seq<(String, u32)>, at: Seq<int>, kept: Seq<(String, u32)>) -> bool {
    &&& at.len() == kept.len()
    &&& forall|k: int| 0 <= k < at.len() ==> 0 <= #[trigger] at[k] < all.len() && kept[k] == all[at[k]]
    &&& forall|a: int, b: int| 0 <= a < b < at.len() ==> #[trigger] at[a] < #[trigger] at[b]
}

/// Whether `kept` is `all` with some members left out.
pub open spec fn drawn_from(all: Seq<(String, u32)>, kept: Seq<(String, u32)>) -> bool {
    exists|at: Seq<int>| kept_at(all, at, kept)
}

/// `candidates` with the member at `draws[0] % len` left out, then of what
/// is left the one at `draws[1] % len`, and so on, until `limit` are left or
/// the draws are used up.
pub open spec fn thinned(candidates: Seq<(String, u32)>, limit: nat, draws: Seq<u64>) -> Seq<(String, u32)>
    decreases candidates.len(),
{
    if candidates.len() <= limit || draws.len() == 0 {
        candidates
    } else {
        thinned(candidates.remove(draws[0] as int % candidates.len() as int), limit, draws.drop_first())
    }
}

/// Leaves out of `candidates` the member at `draws[0] % len`, then of what
/// is left the one at `draws[1] % len`, and so on, until `limit` are left or
/// the draws are used up.
pub fn thin_by(candidates: Vec<(String, u32)>, limit: usize, draws: &Vec<u64>) -> (kept: Vec<(String, u32)>)
    ensures
        kept@ == thinned(candidates@, limit as nat, draws@),
        drawn_from(candidates@, kept@),
        candidates@.len() <= limit + draws@.len() ==> kept@.len() == if candidates@.len() <= limit {
            candidates@.len()
        } else {
            limit as nat
        },
{
    let ghost all = candidates@;
    let ghost at: Seq<int> = Seq::new(all.len(), |i: int| i);
    let mut kept = candidates;
    let available: usize = draws.len();
    let mut n: usize = 0;
    assert(draws@.skip(0) =~= draws@);
    while kept.len() > limit && n < available
        invariant
            all == candidates@,
            available == draws@.len(),
            kept_at(all, at, kept@),
            n <= draws@.len(),
            kept@.len() + n == all.len(),
            all.len() > limit ==> kept@.len() >= limit,
            thinned(kept@, limit as nat, draws@.skip(n as int)) == thinned(all, limit as nat, draws@),
        decreases kept.len(),
    {
        assert(draws@.skip(n as int)[0] == draws@[n as int]);
        assert(draws@.skip(n as int).drop_first() =~= draws@.skip(n + 1));
        let out: usize = (draws[n] % (kept.len() as u64)) as usize;
        kept.remove(out);
        proof {
            at = at.remove(out as int);
        }
        n += 1;
    }
    kept
}

/// Keeps at most `limit` of `candidates`, leaving out members drawn at random.
pub fn thin(candidates: Vec<(String, u32)>, limit: usize) -> (kept: Vec<(String, u32)>)
    ensures
        kept@.len() == if candidates@.len() <= limit { candidates@.len() } else { limit as nat },
        drawn_from(candidates@, kept@),
        candidates@.len() <= limit ==> kept@ == candidates@,
{
    let mut draws: Vec<u64> = Vec::new();
    let mut n: usize = candidates.len();
    while n > limit
        invariant
            n <= candidates@.len(),
            candidates@.len() - n == draws@.len(),
        decreases n,
    {
        draws.push(random_u64());
        n -= 1;
    }
    thin_by(candidates, limit, &draws)
}

} // verus!
