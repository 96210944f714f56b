//! The three tables of the store as sequences of rows, and what a lookup in
//! each of them finds.

use vstd::prelude::*;
use crate::digest::md5_digest;

verus! {

/// A registered user: the name callers give, and the identifier drawn for it.
pub struct UserRow {
    pub user_name: String,
    pub user_id: u32,
}

/// A stored message with the digest of its text and the user who sent it.
pub struct MessageRow {
    pub digest: Vec<u8>,
    pub user_id: u32,
    pub message: String,
}

/// How often `word_2` followed `word_1` in the stored messages of one user.
/// The empty word marks the start or the end of a message.
pub struct WordPairRow {
    pub user_id: u32,
    pub word_1: String,
    pub word_2: String,
    pub count: u32,
}

/// The identifier of the first row named `name`.
pub open spec fn find_user(rows: Seq<UserRow>, name: Seq<char>) -> Option<u32>
    decreases rows.len(),
{
    if rows.len() == 0 {
        None
    } else {
        match find_user(rows.drop_last(), name) {
            Some(id) => Some(id),
            None => if rows.last().user_name@ == name {
                Some(rows.last().user_id)
            } else {
                None
            },
        }
    }
}

/// Whether some row holds the digest `digest`.
pub open spec fn has_digest(rows: Seq<MessageRow>, digest: Seq<u8>) -> bool {
    exists|i: int| 0 <= i < rows.len() && (#[trigger] rows[i]).digest@ == digest
}

/// Whether `row` is the edge of user `id` from `from` to `to`.
pub open spec fn is_edge(row: WordPairRow, id: u32, from: Seq<char>, to: Seq<char>) -> bool {
    row.user_id == id && row.word_1@ == from && row.word_2@ == to
}

/// The count of the first row that is the edge of `id` from `from` to `to`.
pub open spec fn find_pair(rows: Seq<WordPairRow>, id: u32, from: Seq<char>, to: Seq<char>) -> Option<u32>
    decreases rows.len(),
{
    if rows.len() == 0 {
        None
    } else {
        match find_pair(rows.drop_last(), id, from, to) {
            Some(count) => Some(count),
            None => if is_edge(rows.last(), id, from, to) {
                Some(rows.last().count)
            } else {
                None
            },
        }
    }
}

/// No two rows are the same edge, and none has the count zero.
pub open spec fn unique_pairs(rows: Seq<WordPairRow>) -> bool {
    &&& forall|i: int, j: int|
        0 <= i < j < rows.len() ==> !is_edge(#[trigger] rows[i], rows[j].user_id, (#[trigger] rows[j]).word_1@, rows[j].word_2@)
    &&& forall|i: int| 0 <= i < rows.len() ==> (#[trigger] rows[i]).count > 0
}

/// No two rows have the same name.
pub open spec fn unique_names(rows: Seq<UserRow>) -> bool {
    forall|i: int, j: int| 0 <= i < j < rows.len() ==> (#[trigger] rows[i]).user_name@ != (#[trigger] rows[j]).user_name@
}

/// No two rows have the same digest: a text is stored at most once.
pub open spec fn unique_digests(rows: Seq<MessageRow>) -> bool {
    forall|i: int, j: int| 0 <= i < j < rows.len() ==> (#[trigger] rows[i]).digest@ != (#[trigger] rows[j]).digest@
}

/// Each row holds the digest of its own text.
pub open spec fn digests_match(rows: Seq<MessageRow>) -> bool {
    forall|i: int| 0 <= i < rows.len() ==> (#[trigger] rows[i]).digest@ == md5_digest(rows[i].message@)
}

/// Where no row is the edge, none is found.
pub proof fn lemma_find_pair_none(rows: Seq<WordPairRow>, id: u32, from: Seq<char>, to: Seq<char>)
    requires
        forall|i: int| 0 <= i < rows.len() ==> !is_edge(#[trigger] rows[i], id, from, to),
    ensures
        find_pair(rows, id, from, to).is_none(),
    decreases rows.len(),
{
    if rows.len() > 0 {
        assert forall|i: int| 0 <= i < rows.drop_last().len() implies !is_edge(
            #[trigger] rows.drop_last()[i],
            id,
            from,
            to,
        ) by {
            assert(rows.drop_last()[i] == rows[i]);
        }
        lemma_find_pair_none(rows.drop_last(), id, from, to);
    }
}

/// The first row that is the edge gives the count that is found.
pub proof fn lemma_find_pair_first(rows: Seq<WordPairRow>, at: int, id: u32, from: Seq<char>, to: Seq<char>)
    requires
        0 <= at < rows.len(),
        is_edge(rows[at], id, from, to),
        forall|i: int| 0 <= i < at ==> !is_edge(#[trigger] rows[i], id, from, to),
    ensures
        find_pair(rows, id, from, to) == Some(rows[at].count),
    decreases rows.len(),
{
    let front = rows.drop_last();
    if at == rows.len() - 1 {
        assert forall|i: int| 0 <= i < front.len() implies !is_edge(#[trigger] front[i], id, from, to) by {
            assert(front[i] == rows[i]);
        }
        lemma_find_pair_none(front, id, from, to);
    } else {
        assert(front[at] == rows[at]);
        assert forall|i: int| 0 <= i < at implies !is_edge(#[trigger] front[i], id, from, to) by {
            assert(front[i] == rows[i]);
        }
        lemma_find_pair_first(front, at, id, from, to);
    }
}

/// Among unique rows, any row that is the edge gives the count that is found.
pub proof fn lemma_find_pair_unique(rows: Seq<WordPairRow>, at: int, id: u32, from: Seq<char>, to: Seq<char>)
    requires
        unique_pairs(rows),
        0 <= at < rows.len(),
        is_edge(rows[at], id, from, to),
    ensures
        find_pair(rows, id, from, to) == Some(rows[at].count),
{
    assert forall|i: int| 0 <= i < at implies !is_edge(#[trigger] rows[i], id, from, to) by {
        assert(!is_edge(rows[i], rows[at].user_id, rows[at].word_1@, rows[at].word_2@));
    }
    lemma_find_pair_first(rows, at, id, from, to);
}

/// Replacing the first row of an edge by a row of the same edge changes what
/// is found for that edge to the new count, and nothing else.
pub proof fn lemma_find_pair_update(
    rows: Seq<WordPairRow>,
    at: int,
    row: WordPairRow,
    id: u32,
    from: Seq<char>,
    to: Seq<char>,
)
    requires
        0 <= at < rows.len(),
        is_edge(rows[at], row.user_id, row.word_1@, row.word_2@),
        forall|i: int| 0 <= i < at ==> !is_edge(#[trigger] rows[i], row.user_id, row.word_1@, row.word_2@),
    ensures
        find_pair(rows.update(at, row), id, from, to) == if is_edge(row, id, from, to) {
            Some(row.count)
        } else {
            find_pair(rows, id, from, to)
        },
    decreases rows.len(),
{
    let after = rows.update(at, row);
    let front = rows.drop_last();
    if at == rows.len() - 1 {
        assert(after.drop_last() =~= front);
        if is_edge(row, id, from, to) {
            assert forall|i: int| 0 <= i < front.len() implies !is_edge(#[trigger] front[i], id, from, to) by {
                assert(front[i] == rows[i]);
            }
            lemma_find_pair_none(front, id, from, to);
        }
    } else {
        assert(after.drop_last() =~= front.update(at, row));
        assert(after.last() == rows.last());
        assert(front[at] == rows[at]);
        assert forall|i: int| 0 <= i < at implies !is_edge(
            #[trigger] front[i],
            row.user_id,
            row.word_1@,
            row.word_2@,
        ) by {
            assert(front[i] == rows[i]);
        }
        lemma_find_pair_update(front, at, row, id, from, to);
    }
}

/// Where no row is named `name`, no user is found.
pub proof fn lemma_find_user_none(rows: Seq<UserRow>, name: Seq<char>)
    requires
        forall|i: int| 0 <= i < rows.len() ==> (#[trigger] rows[i]).user_name@ != name,
    ensures
        find_user(rows, name).is_none(),
    decreases rows.len(),
{
    if rows.len() > 0 {
        assert forall|i: int| 0 <= i < rows.drop_last().len() implies (#[trigger] rows.drop_last()[i]).user_name@
            != name by {
            assert(rows.drop_last()[i] == rows[i]);
        }
        lemma_find_user_none(rows.drop_last(), name);
    }
}

/// Where no user is found, no row is named `name`.
pub proof fn lemma_find_user_absent(rows: Seq<UserRow>, name: Seq<char>)
    requires
        find_user(rows, name).is_none(),
    ensures
        forall|i: int| 0 <= i < rows.len() ==> (#[trigger] rows[i]).user_name@ != name,
    decreases rows.len(),
{
    if rows.len() > 0 {
        lemma_find_user_absent(rows.drop_last(), name);
        assert forall|i: int| 0 <= i < rows.len() implies (#[trigger] rows[i]).user_name@ != name by {
            if i < rows.len() - 1 {
                assert(rows.drop_last()[i] == rows[i]);
            }
        }
    }
}

/// The first row named `name` gives the identifier that is found.
pub proof fn lemma_find_user_first(rows: Seq<UserRow>, at: int, name: Seq<char>)
    requires
        0 <= at < rows.len(),
        rows[at].user_name@ == name,
        forall|i: int| 0 <= i < at ==> (#[trigger] rows[i]).user_name@ != name,
    ensures
        find_user(rows, name) == Some(rows[at].user_id),
    decreases rows.len(),
{
    let front = rows.drop_last();
    if at == rows.len() - 1 {
        assert forall|i: int| 0 <= i < front.len() implies (#[trigger] front[i]).user_name@ != name by {
            assert(front[i] == rows[i]);
        }
        lemma_find_user_none(front, name);
    } else {
        assert(front[at] == rows[at]);
        assert forall|i: int| 0 <= i < at implies (#[trigger] front[i]).user_name@ != name by {
            assert(front[i] == rows[i]);
        }
        lemma_find_user_first(front, at, name);
    }
}

} // verus!
