//! Taking in the rows of a delimited file: a user name and a message in the
//! first two cells of each.

use vstd::prelude::*;
use vstd::string::StringExecFns;
use crate::db_client::{SqliteDbClient, SqliteDbClientError, took_in};
use crate::words::words_of;

verus! {

/// After how many rows the progress is reported.
pub const CHECKPOINT_EVERY: u64 = 100;

/// The count to report once `n_processed` rows are done and
/// `last_checkpoint` was reported last: the multiple of a hundred just
/// reached, where a hundred rows or more were done since.
pub fn checkpoint(n_processed: u64, last_checkpoint: u64) -> (reached: Option<u64>)
    requires
        last_checkpoint <= n_processed,
    ensures
        n_processed - last_checkpoint < 100 ==> reached.is_none(),
        n_processed - last_checkpoint >= 100 ==> reached == Some((n_processed - n_processed % 100) as u64),
{
    if n_processed - last_checkpoint >= CHECKPOINT_EVERY {
        Some(n_processed - n_processed % CHECKPOINT_EVERY)
    } else {
        None
    }
}

/// Whether `record` can be taken in: it has a name and a message.
pub open spec fn is_row(record: Seq<String>) -> bool {
    record.len() >= 2
}

/// Whether every record before the one at `n` can be taken in.
pub open spec fn rows_before(records: Seq<Vec<String>>, n: int) -> bool {
    forall|j: int| 0 <= j < n ==> is_row(#[trigger] records[j]@)
}

/// Whether two stores hold the same users, messages and word pairs.
pub open spec fn same_tables(a: SqliteDbClient, b: SqliteDbClient) -> bool {
    a.users() == b.users() && a.messages() == b.messages() && a.pairs() == b.pairs()
}

/// Whether `states` are the stores through which taking in `records` one
/// after the other leads: each is the one before it with one more record
/// taken in.
pub open spec fn is_history(states: Seq<SqliteDbClient>, records: Seq<Vec<String>>) -> bool {
    &&& states.len() == records.len() + 1
    &&& forall|i: int|
        0 <= i < records.len() ==> (#[trigger] records[i])@.len() >= 2 && took_in(
            states[i],
            states[i + 1],
            records[i]@[0]@,
            records[i]@[1]@,
            words_of(records[i]@[1]@),
        )
}

/// Whether `after` holds what `before` holds once `records` are taken in one
/// after the other.
pub open spec fn took_in_all(before: SqliteDbClient, after: SqliteDbClient, records: Seq<Vec<String>>) -> bool {
    exists|states: Seq<SqliteDbClient>| #[trigger]
        is_history(states, records) && states[0] == before && same_tables(states.last(), after)
}

/// Takes in `records` in order, the first cell of each as the user's name
/// and the second as the message, and stops at the first that has fewer than
/// two cells; what came before it stays taken in.
pub fn ingest_csv(client: &mut SqliteDbClient, records: &Vec<Vec<String>>) -> (r: Result<(), SqliteDbClientError>)
    requires
        old(client).wf(),
    ensures
        final(client).wf(),
        r.is_ok() <==> forall|i: int| 0 <= i < records@.len() ==> is_row(#[trigger] records@[i]@),
        r.is_ok() ==> took_in_all(*old(client), *final(client), records@),
        r matches Err(e) ==> e is Other && exists|n: int|
            0 <= n < records@.len() && !is_row(#[trigger] records@[n]@) && rows_before(records@, n) && took_in_all(
                *old(client),
                *final(client),
                records@.take(n),
            ),
{
    let ghost mut states: Seq<SqliteDbClient> = seq![*client];
    let mut i: usize = 0;
    while i < records.len()
        invariant
            i <= records.len(),
            client.wf(),
            is_history(states, records@.take(i as int)),
            states[0] == *old(client),
            states.last() == *client,
            forall|j: int| 0 <= j < i ==> is_row(#[trigger] records@[j]@),
        decreases records.len() - i,
    {
        let record = &records[i];
        if record.len() < 2 {
            assert(!is_row(records@[i as int]@));
            assert(is_history(states, records@.take(i as int)) && same_tables(states.last(), *client));
            return Err(SqliteDbClientError::Other(String::from_str("Rows need at least 2 cells")));
        }
        match client.add_message(record[0].as_str(), record[1].as_str()) {
            Ok(_) => {},
            Err(e) => {
                return Err(e);
            },
        }
        proof {
            let longer = states.push(*client);
            let done = records@.take(i + 1);
            assert forall|j: int| 0 <= j < done.len() implies (#[trigger] done[j])@.len() >= 2 && took_in(
                longer[j],
                longer[j + 1],
                done[j]@[0]@,
                done[j]@[1]@,
                words_of(done[j]@[1]@),
            ) by {
                if j < i {
                    assert(done[j] == records@.take(i as int)[j]);
                }
            }
            states = longer;
        }
        i += 1;
    }
    assert(records@.take(records.len() as int) =~= records@);
    assert(is_history(states, records@) && same_tables(states.last(), *client));
    Ok(())
}

} // verus!
