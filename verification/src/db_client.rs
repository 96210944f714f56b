//! The store of users, messages and word pairs, with the two operations on
//! it: taking a message in, and imitating a user.

use vstd::prelude::*;
use vstd::string::StringExecFns;
use crate::digest::{md5_digest, message_digest, same_bytes};
use crate::sampling::{lemma_selected, lemma_weight_sum_monotone, next_word, next_word_of, random_u64, selected, weight_sum};
use crate::server::ImitateRandomUserResponse;
use crate::tables::{MessageRow, UserRow, WordPairRow, digests_match, find_pair, find_user, has_digest, is_edge, unique_digests,
    unique_names, unique_pairs, lemma_find_pair_first, lemma_find_pair_none, lemma_find_user_absent,
    lemma_find_user_first, lemma_find_user_none};
use crate::transitions::{count_after, drawn_from, kept_at, lemma_successors_are_edges, occurrences, record_sequence,
    recorded, successors, successors_of, thin};
use crate::words::{Tokenizer, pairs_of, pairs_view, pattern_accepted, word_pairs, words_of, words_pattern, words_view};

verus! {

/// What can go wrong in an operation on the store.
#[derive(Debug)]
pub enum SqliteDbClientError {
    /// No user of that name was ever registered.
    UnknownUser(String),
    /// The storage behind the client failed; the text says how.
    SqlxError(String),
    /// No user is registered at all.
    NoUsers,
    /// Anything else.
    Other(String),
}

impl SqliteDbClientError {
    /// The error in words.
    pub fn message(&self) -> (text: String)
        ensures
            self matches SqliteDbClientError::UnknownUser(name) ==> text@ == "Unknown user: "@ + name@,
            self is SqlxError ==> text@ == "Sql error"@,
            self is NoUsers ==> text@ == "No users"@,
            self matches SqliteDbClientError::Other(what) ==> text@ == "Other: "@ + what@,
    {
        match self {
            SqliteDbClientError::UnknownUser(name) => String::from_str("Unknown user: ").concat(name.as_str()),
            SqliteDbClientError::SqlxError(_) => String::from_str("Sql error"),
            SqliteDbClientError::NoUsers => String::from_str("No users"),
            SqliteDbClientError::Other(what) => String::from_str("Other: ").concat(what.as_str()),
        }
    }
}

/// Whether a message was new to the store.
#[derive(Clone, Copy, Debug, PartialEq, Eq, Structural)]
pub enum StoreOutcome {
    Stored,
    Duplicate,
}

/// The most words an imitation holds.
pub const MAX_WORDS: usize = 100;

/// The most successors considered at one step of an imitation.
pub const SAMPLE_LIMIT: usize = 10;

/// The word pairs to count for a message of the words `words`: all of its
/// pairs where it was newly stored, none where it was a duplicate.
pub fn pairs_to_record(outcome: StoreOutcome, words: &Vec<String>) -> (pairs: Vec<(String, String)>)
    ensures
        outcome == StoreOutcome::Stored ==> pairs_view(pairs@) == pairs_of(words_view(words@)),
        outcome == StoreOutcome::Duplicate ==> pairs@.len() == 0,
{
    match outcome {
        StoreOutcome::Stored => word_pairs(words),
        StoreOutcome::Duplicate => Vec::new(),
    }
}

/// Whether a walk that holds `words` may take another word.
pub fn walk_goes_on(words: &Vec<String>, max_words: usize) -> (more: bool)
    ensures
        more == (words@.len() < max_words),
{
    words.len() < max_words
}

/// The word that a walk of `words` takes next: none once it holds
/// `max_words`, else the one drawn among `candidates` by `raw`.
pub open spec fn walk_step_of(
    words: Seq<Seq<char>>,
    max_words: nat,
    candidates: Seq<(String, u32)>,
    raw: u64,
) -> Option<Seq<char>> {
    if words.len() >= max_words {
        None
    } else {
        next_word_of(candidates, raw)
    }
}

/// One step of a walk: adds to `words` the word drawn among `candidates`,
/// the successors of its last word, unless the walk is full or ends here.
/// Says whether a word was added.
pub fn walk_step(
    words: &mut Vec<String>,
    max_words: usize,
    candidates: &Vec<(String, u32)>,
    raw: u64,
) -> (added: bool)
    ensures
        added == walk_step_of(words_view(old(words)@), max_words as nat, candidates@, raw).is_some(),
        added ==> final(words)@.len() == old(words)@.len() + 1 && words_view(final(words)@) == words_view(
            old(words)@,
        ).push(walk_step_of(words_view(old(words)@), max_words as nat, candidates@, raw).unwrap()),
        !added ==> final(words)@ == old(words)@,
{
    if words.len() >= max_words {
        return false;
    }
    match next_word(candidates, raw) {
        None => false,
        Some(word) => {
            proof {
                assert(words_view(words@.push(word)) =~= words_view(words@).push(word@));
            }
            words.push(word);
            true
        },
    }
}

/// `words` with a single space between each two.
pub open spec fn joined(words: Seq<Seq<char>>) -> Seq<char>
    decreases words.len(),
{
    if words.len() == 0 {
        Seq::empty()
    } else if words.len() == 1 {
        words[0]
    } else {
        joined(words.drop_last()) + seq![' '] + words.last()
    }
}

/// Joins `words` with single spaces.
pub fn join_words(words: &Vec<String>) -> (text: String)
    ensures
        text@ == joined(words_view(words@)),
{
    let ghost wv = words_view(words@);
    let mut text: String = String::new();
    let mut i: usize = 0;
    assert(wv.take(0) =~= Seq::<Seq<char>>::empty());
    while i < words.len()
        invariant
            i <= words.len(),
            wv == words_view(words@),
            text@ == joined(wv.take(i as int)),
        decreases words.len() - i,
    {
        proof {
            reveal_strlit(" ");
            assert(wv.take(i + 1).drop_last() =~= wv.take(i as int));
            assert(wv.take(i + 1).last() == words@[i as int]@);
            assert(" "@ =~= seq![' ']);
        }
        if i > 0 {
            text.append(" ");
        } else {
            assert(wv.take(1)[0] == words@[0]@);
            assert(Seq::<char>::empty() + words@[0]@ =~= words@[0]@);
        }
        text.append(words[i].as_str());
        i += 1;
    }
    assert(wv.take(words.len() as int) =~= wv);
    text
}

/// Whether `words` is a path through the edges of user `id` that starts at
/// the start mark and never takes the end mark.
pub open spec fn is_walk(rows: Seq<WordPairRow>, id: u32, words: Seq<Seq<char>>) -> bool {
    forall|k: int|
        0 <= k < words.len() ==> (#[trigger] words[k]).len() > 0 && find_pair(
            rows,
            id,
            if k == 0 { Seq::<char>::empty() } else { words[k - 1] },
            words[k],
        ).is_some()
}

/// The users, the messages and the word pairs that were taken in.
pub struct SqliteDbClient {
    tokenizer: Tokenizer,
    user_names: Vec<UserRow>,
    user_messages: Vec<MessageRow>,
    sequential_words: Vec<WordPairRow>,
}

impl SqliteDbClient {
    /// The registered users, in the order in which they came.
    pub closed spec fn users(&self) -> Seq<UserRow> {
        self.user_names@
    }

    /// The stored messages, in the order in which they came.
    pub closed spec fn messages(&self) -> Seq<MessageRow> {
        self.user_messages@
    }

    /// The word pairs with their counts.
    pub closed spec fn pairs(&self) -> Seq<WordPairRow> {
        self.sequential_words@
    }

    /// The pattern by which messages are split.
    pub closed spec fn pattern(&self) -> Tokenizer {
        self.tokenizer
    }

    /// The words pattern is compiled, no name has two users, each message
    /// is held under the digest of its text, no text is stored twice, and no
    /// edge has two rows.
    pub open spec fn wf(&self) -> bool {
        &&& self.pattern().wf()
        &&& unique_names(self.users())
        &&& unique_digests(self.messages())
        &&& digests_match(self.messages())
        &&& unique_pairs(self.pairs())
    }

    /// An empty store. Fails where, and only where, the regex engine does
    /// not accept the words pattern.
    pub fn new() -> (r: Result<SqliteDbClient, SqliteDbClientError>)
        ensures
            r.is_ok() == pattern_accepted(words_pattern()),
            r matches Ok(client) ==> client.wf() && client.users().len() == 0 && client.messages().len() == 0
                && client.pairs().len() == 0,
            r matches Err(e) ==> e is Other,
    {
        match Tokenizer::new() {
            Some(tokenizer) => Ok(
                SqliteDbClient {
                    tokenizer,
                    user_names: Vec::new(),
                    user_messages: Vec::new(),
                    sequential_words: Vec::new(),
                },
            ),
            None => Err(SqliteDbClientError::Other(String::from_str("Failed to construct regex"))),
        }
    }

    /// The words of `message`, in order.
    pub fn get_message_words(&self, message: &str) -> (words: Vec<String>)
        requires
            self.wf(),
        ensures
            words_view(words@) == words_of(message@),
            forall|i: int| 0 <= i < words@.len() ==> (#[trigger] words@[i])@.len() > 0,
    {
        self.tokenizer.tokenize(message)
    }

    /// The identifier of the user named `user_name`.
    pub fn lookup(&self, user_name: &str) -> (id: Option<u32>)
        ensures
            id == find_user(self.users(), user_name@),
    {
        let name: String = user_name.to_owned();
        let mut i: usize = 0;
        while i < self.user_names.len()
            invariant
                i <= self.user_names.len(),
                name@ == user_name@,
                forall|j: int| 0 <= j < i ==> (#[trigger] self.user_names@[j]).user_name@ != user_name@,
            decreases self.user_names.len() - i,
        {
            if self.user_names[i].user_name == name {
                proof {
                    lemma_find_user_first(self.user_names@, i as int, user_name@);
                }
                return Some(self.user_names[i].user_id);
            }
            i += 1;
        }
        proof {
            lemma_find_user_none(self.user_names@, user_name@);
        }
        None
    }

    /// How often `word_2` followed `word_1` for user `user_id`.
    pub fn pair_count(&self, user_id: u32, word_1: &str, word_2: &str) -> (count: Option<u32>)
        requires
            self.wf(),
        ensures
            count == find_pair(self.pairs(), user_id, word_1@, word_2@),
    {
        let from: String = word_1.to_owned();
        let to: String = word_2.to_owned();
        let mut i: usize = 0;
        while i < self.sequential_words.len()
            invariant
                i <= self.sequential_words.len(),
                from@ == word_1@,
                to@ == word_2@,
                forall|j: int|
                    0 <= j < i ==> !is_edge(
                        #[trigger] self.sequential_words@[j],
                        user_id,
                        word_1@,
                        word_2@,
                    ),
            decreases self.sequential_words.len() - i,
        {
            let row = &self.sequential_words[i];
            if row.user_id == user_id && row.word_1 == from && row.word_2 == to {
                proof {
                    lemma_find_pair_first(self.sequential_words@, i as int, user_id, word_1@, word_2@);
                }
                return Some(row.count);
            }
            i += 1;
        }
        proof {
            lemma_find_pair_none(self.sequential_words@, user_id, word_1@, word_2@);
        }
        None
    }

    /// How many messages are stored.
    pub fn message_count(&self) -> (n: usize)
        ensures
            n == self.messages().len(),
    {
        self.user_messages.len()
    }

    /// The identifier of the user named `user_name`, who is registered under
    /// a freshly drawn identifier below 2^31 if the name is new.
    pub fn get_or_create(&mut self, user_name: &str) -> (id: u32)
        requires
            old(self).wf(),
        ensures
            final(self).wf(),
            registered(old(self).users(), final(self).users(), user_name@),
            find_user(final(self).users(), user_name@) == Some(id),
            final(self).pattern() == old(self).pattern(),
            final(self).messages() == old(self).messages(),
            final(self).pairs() == old(self).pairs(),
    {
        match self.lookup(user_name) {
            Some(id) => id,
            None => {
                let id: u32 = (random_u64() % 0x8000_0000) as u32;
                let row = UserRow { user_name: user_name.to_owned(), user_id: id };
                proof {
                    assert(self.user_names@.push(row).drop_last() =~= self.user_names@);
                    lemma_find_user_absent(self.user_names@, user_name@);
                }
                self.user_names.push(row);
                id
            },
        }
    }

    /// Stores `message` for `owner_id` unless a message of the same digest is
    /// stored already, whoever sent it.
    pub fn try_store(&mut self, owner_id: u32, message: &str) -> (outcome: StoreOutcome)
        requires
            old(self).wf(),
        ensures
            final(self).wf(),
            outcome == StoreOutcome::Duplicate <==> has_digest(old(self).messages(), md5_digest(message@)),
            stored(old(self).messages(), final(self).messages(), owner_id, message@),
            final(self).pattern() == old(self).pattern(),
            final(self).users() == old(self).users(),
            final(self).pairs() == old(self).pairs(),
    {
        let digest = message_digest(message);
        let mut i: usize = 0;
        while i < self.user_messages.len()
            invariant
                i <= self.user_messages.len(),
                *self == *old(self),
                self.wf(),
                digest@ == md5_digest(message@),
                forall|j: int| 0 <= j < i ==> (#[trigger] self.user_messages@[j]).digest@ != digest@,
            decreases self.user_messages.len() - i,
        {
            if same_bytes(&self.user_messages[i].digest, &digest) {
                assert(self.user_messages@[i as int].digest@ == digest@);
                return StoreOutcome::Duplicate;
            }
            i += 1;
        }
        let row = MessageRow { digest, user_id: owner_id, message: message.to_owned() };
        proof {
            assert(self.user_messages@.push(row).drop_last() =~= self.user_messages@);
        }
        self.user_messages.push(row);
        StoreOutcome::Stored
    }

    /// Takes in `message` from the user named `user_name`: registers the
    /// user if the name is new, stores the message unless its text is stored
    /// already, and only for a newly stored message counts its word pairs.
    /// A duplicate is no failure: nothing fails here.
    pub fn add_message(&mut self, user_name: &str, message: &str) -> (r: Result<(), SqliteDbClientError>)
        requires
            old(self).wf(),
        ensures
            final(self).wf(),
            r.is_ok(),
            took_in(*old(self), *final(self), user_name@, message@, words_of(message@)),
    {
        let words = self.tokenizer.tokenize(message);
        let id = self.get_or_create(user_name);
        let outcome = self.try_store(id, message);
        let pairs = pairs_to_record(outcome, &words);
        record_sequence(&mut self.sequential_words, id, &pairs);
        Ok(())
    }

    /// At most `limit` of the successors of `from` for user `user_id`; where
    /// there are more, which of them are left out is drawn at random.
    pub fn sample_successors(&self, user_id: u32, from: &String, limit: usize) -> (found: Vec<(String, u32)>)
        ensures
            drawn_from(successors_of(self.pairs(), user_id, from@), found@),
            found@.len() == if successors_of(self.pairs(), user_id, from@).len() <= limit {
                successors_of(self.pairs(), user_id, from@).len()
            } else {
                limit as nat
            },
    {
        thin(successors(&self.sequential_words, user_id, from), limit)
    }

    /// A random walk for user `user_id` from the start mark: at each step at
    /// most `sample_limit` successors are sampled and one of them is drawn by
    /// weight, and the walk ends at the end mark, where nothing follows, or
    /// after `max_words` words.
    pub fn imitation_words(&self, user_id: u32, max_words: usize, sample_limit: usize) -> (words: Vec<String>)
        requires
            self.wf(),
        ensures
            words@.len() <= max_words,
            is_walk(self.pairs(), user_id, words_view(words@)),
            stops_for_a_reason(self.pairs(), user_id, words_view(words@), max_words as nat, sample_limit as nat),
    {
        let mut current: String = String::new();
        let mut sentence: Vec<String> = Vec::new();
        let mut ended: bool = false;
        while walk_goes_on(&sentence, max_words) && !ended
            invariant
                self.wf(),
                sentence@.len() <= max_words,
                ended ==> walk_may_end(self.pairs(), user_id, current@, sample_limit as nat),
                is_walk(self.pairs(), user_id, words_view(sentence@)),
                current@ == walk_end(words_view(sentence@)),
            decreases
                    if ended {
                        0int
                    } else {
                        max_words - sentence@.len() + 1
                    },
        {
            let candidates = self.sample_successors(user_id, &current, sample_limit);
            let raw: u64 = random_u64();
            let ghost before = words_view(sentence@);
            let added = walk_step(&mut sentence, max_words, &candidates, raw);
            if added {
                proof {
                    let all = successors_of(self.pairs(), user_id, current@);
                    let source = choose|source: Seq<int>| kept_at(all, source, candidates@);
                    let r = (raw as nat) % weight_sum(candidates@);
                    lemma_selected(candidates@, r);
                    let at = selected(candidates@, r);
                    lemma_successors_are_edges(self.pairs(), user_id, current@, source[at]);
                    let after = words_view(sentence@);
                    assert forall|k: int| 0 <= k < after.len() implies (#[trigger] after[k]).len() > 0 && find_pair(
                        self.pairs(),
                        user_id,
                        if k == 0 { Seq::<char>::empty() } else { after[k - 1] },
                        after[k],
                    ).is_some() by {
                        if k < before.len() {
                            assert(after[k] == before[k]);
                        }
                    }
                    assert(walk_end(after) == sentence@.last()@);
                }
                current = sentence[sentence.len() - 1].clone();
            } else {
                proof {
                    lemma_walk_stops_for_a_reason(
                        self.pairs(),
                        user_id,
                        current@,
                        candidates@,
                        sample_limit as nat,
                        raw,
                    );
                }
                ended = true;
            }
        }
        sentence
    }

    /// New text in the manner of the user named `user_name`: the words of a
    /// random walk of at most `max_words` words through that user's word
    /// pairs, joined by single spaces.
    pub fn generate(&self, user_name: &str, max_words: usize, sample_limit: usize) -> (r: Result<
        String,
        SqliteDbClientError,
    >)
        requires
            self.wf(),
        ensures
            r.is_err() <==> find_user(self.users(), user_name@).is_none(),
            r matches Err(e) ==> is_unknown_user(e, user_name@),
            r matches Ok(text) ==> exists|words: Seq<Seq<char>>| #[trigger]
                is_walk(self.pairs(), find_user(self.users(), user_name@).unwrap(), words) && words.len() <= max_words
                    && stops_for_a_reason(
                    self.pairs(),
                    find_user(self.users(), user_name@).unwrap(),
                    words,
                    max_words as nat,
                    sample_limit as nat,
                ) && text@ == joined(words),
    {
        match self.lookup(user_name) {
            None => Err(SqliteDbClientError::UnknownUser(user_name.to_owned())),
            Some(id) => {
                let sentence = self.imitation_words(id, max_words, sample_limit);
                let text = join_words(&sentence);
                assert(is_walk(self.pairs(), id, words_view(sentence@)));
                Ok(text)
            },
        }
    }

    /// New text in the manner of the user named `user_name`, of at most
    /// `MAX_WORDS` words, with `SAMPLE_LIMIT` successors sampled at each step.
    pub fn imitate_user(&self, user_name: &str) -> (r: Result<String, SqliteDbClientError>)
        requires
            self.wf(),
        ensures
            r.is_err() <==> find_user(self.users(), user_name@).is_none(),
            r matches Err(e) ==> is_unknown_user(e, user_name@),
            r matches Ok(text) ==> exists|words: Seq<Seq<char>>| #[trigger]
                is_walk(self.pairs(), find_user(self.users(), user_name@).unwrap(), words) && words.len() <= MAX_WORDS
                    && stops_for_a_reason(
                    self.pairs(),
                    find_user(self.users(), user_name@).unwrap(),
                    words,
                    MAX_WORDS as nat,
                    SAMPLE_LIMIT as nat,
                ) && text@ == joined(words),
    {
        self.generate(user_name, MAX_WORDS, SAMPLE_LIMIT)
    }

    /// The name of the registered user on whom the raw draw `raw` falls:
    /// the one at `raw % n` in the order of coming, where `n` users are
    /// registered.
    pub fn user_by_draw(&self, raw: u64) -> (r: Result<String, SqliteDbClientError>)
        ensures
            r.is_err() <==> self.users().len() == 0,
            r matches Err(e) ==> e is NoUsers,
            r matches Ok(name) ==> name == self.users()[(raw as nat % self.users().len()) as int].user_name
                && find_user(self.users(), name@).is_some(),
    {
        let n: usize = self.user_names.len();
        if n == 0 {
            return Err(SqliteDbClientError::NoUsers);
        }
        let at: usize = (raw % (n as u64)) as usize;
        proof {
            lemma_find_user_present(self.user_names@, at as int);
        }
        Ok(self.user_names[at].user_name.clone())
    }

    /// The name of a registered user, drawn at random.
    pub fn get_random_user(&self) -> (r: Result<String, SqliteDbClientError>)
        ensures
            r.is_err() <==> self.users().len() == 0,
            r matches Err(e) ==> e is NoUsers,
            r matches Ok(name) ==> find_user(self.users(), name@).is_some(),
    {
        self.user_by_draw(random_u64())
    }

    /// An imitation of a user drawn at random, with that user's name.
    pub fn imitate_random_user(&self) -> (r: Result<ImitateRandomUserResponse, SqliteDbClientError>)
        requires
            self.wf(),
        ensures
            r.is_err() <==> self.users().len() == 0,
            r matches Err(e) ==> e is NoUsers,
            r matches Ok(reply) ==> find_user(self.users(), reply.user_name@).is_some() && exists|
                words: Seq<Seq<char>>,
            | #[trigger]
                is_walk(self.pairs(), find_user(self.users(), reply.user_name@).unwrap(), words) && words.len()
                    <= MAX_WORDS && stops_for_a_reason(
                    self.pairs(),
                    find_user(self.users(), reply.user_name@).unwrap(),
                    words,
                    MAX_WORDS as nat,
                    SAMPLE_LIMIT as nat,
                ) && reply.imitation@ == joined(words),
    {
        let user_name = match self.get_random_user() {
            Ok(user_name) => user_name,
            Err(e) => {
                return Err(e);
            },
        };
        match self.imitate_user(user_name.as_str()) {
            Ok(imitation) => Ok(ImitateRandomUserResponse { user_name, imitation }),
            Err(e) => Err(e),
        }
    }
}

/// Whether `e` says that the user named `name` is unknown.
pub open spec fn is_unknown_user(e: SqliteDbClientError, name: Seq<char>) -> bool {
    match e {
        SqliteDbClientError::UnknownUser(n) => n@ == name,
        _ => false,
    }
}

/// How the users after a request for `name` relate to those before: nothing
/// changes where the name is known, else one row for it is added at the end.
pub open spec fn registered(before: Seq<UserRow>, after: Seq<UserRow>, name: Seq<char>) -> bool {
    if find_user(before, name).is_some() {
        after == before
    } else {
        &&& after.len() == before.len() + 1
        &&& after.drop_last() == before
        &&& after.last().user_name@ == name
        &&& after.last().user_id < 0x8000_0000
    }
}

/// How the messages after an attempt to store `message` for `owner_id`
/// relate to those before: nothing changes where its digest is held already,
/// else one row for it is added at the end.
pub open spec fn stored(before: Seq<MessageRow>, after: Seq<MessageRow>, owner_id: u32, message: Seq<char>) -> bool {
    if has_digest(before, md5_digest(message)) {
        after == before
    } else {
        &&& after.len() == before.len() + 1
        &&& after.drop_last() == before
        &&& after.last().digest@ == md5_digest(message)
        &&& after.last().user_id == owner_id
        &&& after.last().message@ == message
    }
}

/// How the store after taking in `message`, whose words are `words`, from the
/// user named `user_name` relates to the store before.
pub open spec fn took_in(
    before: SqliteDbClient,
    after: SqliteDbClient,
    user_name: Seq<char>,
    message: Seq<char>,
    words: Seq<Seq<char>>,
) -> bool {
    &&& registered(before.users(), after.users(), user_name)
    &&& find_user(after.users(), user_name) matches Some(owner_id) && {
        &&& stored(before.messages(), after.messages(), owner_id, message)
        &&& if has_digest(before.messages(), md5_digest(message)) {
            after.pairs() == before.pairs()
        } else {
            forall|id: u32, from: Seq<char>, to: Seq<char>| #[trigger]
                find_pair(after.pairs(), id, from, to) == recorded(
                    before.pairs(),
                    owner_id,
                    pairs_of(words),
                    id,
                    from,
                    to,
                )
        }
    }
}

/// A row named `rows[at].user_name` is found.
pub proof fn lemma_find_user_present(rows: Seq<UserRow>, at: int)
    requires
        0 <= at < rows.len(),
    ensures
        find_user(rows, rows[at].user_name@).is_some(),
    decreases rows.len(),
{
    if at < rows.len() - 1 {
        assert(rows.drop_last()[at] == rows[at]);
        lemma_find_user_present(rows.drop_last(), at);
    }
}

/// A message that was taken in changes nothing when the same user sends it
/// again: the messages and the word pairs stay as they were after the first
/// time.
pub proof fn lemma_repeated_message_is_absorbed(
    s0: SqliteDbClient,
    s1: SqliteDbClient,
    s2: SqliteDbClient,
    user_name: Seq<char>,
    message: Seq<char>,
    words: Seq<Seq<char>>,
)
    requires
        took_in(s0, s1, user_name, message, words),
        took_in(s1, s2, user_name, message, words),
    ensures
        s2.users() == s1.users(),
        s2.messages() == s1.messages(),
        s2.pairs() == s1.pairs(),
{
    lemma_message_is_held(s0, s1, user_name, message, words);
}

/// A message that one user sent changes no message and no word pair when
/// another user sends the same text: the second user gains no edge from it.
pub proof fn lemma_message_of_another_user_is_absorbed(
    s0: SqliteDbClient,
    s1: SqliteDbClient,
    s2: SqliteDbClient,
    first_user: Seq<char>,
    second_user: Seq<char>,
    message: Seq<char>,
    words: Seq<Seq<char>>,
)
    requires
        first_user != second_user,
        took_in(s0, s1, first_user, message, words),
        took_in(s1, s2, second_user, message, words),
    ensures
        s2.messages() == s1.messages(),
        s2.pairs() == s1.pairs(),
{
    lemma_message_is_held(s0, s1, first_user, message, words);
}

/// No registered user is passed over for good: on each of them some draw
/// falls, and `user_by_draw` then returns that user's name.
pub proof fn lemma_every_user_is_drawn(client: SqliteDbClient, at: int)
    requires
        0 <= at < client.users().len(),
        client.users().len() <= u64::MAX,
    ensures
        exists|raw: u64| #[trigger] (raw as nat % client.users().len()) as int == at,
{
    let raw = at as u64;
    vstd::arithmetic::div_mod::lemma_small_mod(raw as nat, client.users().len());
    assert((raw as nat % client.users().len()) as int == at);
}

/// A text is stored at most once: no two stored messages have the same
/// text.
pub proof fn lemma_one_message_per_text(client: SqliteDbClient, i: int, j: int)
    requires
        client.wf(),
        0 <= i < j < client.messages().len(),
    ensures
        client.messages()[i].message@ != client.messages()[j].message@,
{
}

/// Taking a message in removes no user and changes no identifier.
pub proof fn lemma_users_stay(
    s0: SqliteDbClient,
    s1: SqliteDbClient,
    user_name: Seq<char>,
    message: Seq<char>,
    words: Seq<Seq<char>>,
    other: Seq<char>,
)
    requires
        took_in(s0, s1, user_name, message, words),
        find_user(s0.users(), other).is_some(),
    ensures
        find_user(s1.users(), other) == find_user(s0.users(), other),
{
}

/// Taking a message in removes no edge and lowers no count.
pub proof fn lemma_counts_never_fall(
    s0: SqliteDbClient,
    s1: SqliteDbClient,
    user_name: Seq<char>,
    message: Seq<char>,
    words: Seq<Seq<char>>,
    id: u32,
    from: Seq<char>,
    to: Seq<char>,
)
    requires
        took_in(s0, s1, user_name, message, words),
        find_pair(s0.pairs(), id, from, to).is_some(),
    ensures
        find_pair(s1.pairs(), id, from, to).is_some(),
        find_pair(s1.pairs(), id, from, to).unwrap() >= find_pair(s0.pairs(), id, from, to).unwrap(),
{
}

/// A newly stored message raises the count of each of its word pairs, for
/// the user who sent it, by the number of times the pair occurs in it.
pub proof fn lemma_new_message_counts(
    s0: SqliteDbClient,
    s1: SqliteDbClient,
    user_name: Seq<char>,
    message: Seq<char>,
    words: Seq<Seq<char>>,
    from: Seq<char>,
    to: Seq<char>,
)
    requires
        took_in(s0, s1, user_name, message, words),
        !has_digest(s0.messages(), md5_digest(message)),
    ensures
        find_user(s1.users(), user_name) matches Some(owner) && find_pair(s1.pairs(), owner, from, to)
            == count_after(find_pair(s0.pairs(), owner, from, to), occurrences(pairs_of(words), from, to)),
{
}

/// Taking in a message from one user changes no edge of another.
pub proof fn lemma_other_users_keep_their_edges(
    s0: SqliteDbClient,
    s1: SqliteDbClient,
    user_name: Seq<char>,
    message: Seq<char>,
    words: Seq<Seq<char>>,
    id: u32,
    from: Seq<char>,
    to: Seq<char>,
)
    requires
        took_in(s0, s1, user_name, message, words),
        find_user(s1.users(), user_name) != Some(id),
    ensures
        find_pair(s1.pairs(), id, from, to) == find_pair(s0.pairs(), id, from, to),
{
}

/// The word at which a walk stands: its last, or the start mark where it
/// has none.
pub open spec fn walk_end(words: Seq<Seq<char>>) -> Seq<char> {
    if words.len() == 0 {
        Seq::empty()
    } else {
        words.last()
    }
}

/// Whether a walk of user `id` may end at the word `at`: no successor is
/// sampled there, none is recorded, or the end mark is among them.
pub open spec fn walk_may_end(rows: Seq<WordPairRow>, id: u32, at: Seq<char>, sample_limit: nat) -> bool {
    ||| sample_limit == 0
    ||| successors_of(rows, id, at).len() == 0
    ||| find_pair(rows, id, at, Seq::<char>::empty()).is_some()
}

/// Whether the walk `words` of user `id` is as long as it may be, or stands
/// where a walk may end.
pub open spec fn stops_for_a_reason(
    rows: Seq<WordPairRow>,
    id: u32,
    words: Seq<Seq<char>>,
    max_words: nat,
    sample_limit: nat,
) -> bool {
    words.len() < max_words ==> walk_may_end(rows, id, walk_end(words), sample_limit)
}

/// A walk stops only for a reason: where no next word is drawn from a
/// sample of the successors of `from`, the walk may end at `from`.
pub proof fn lemma_walk_stops_for_a_reason(
    rows: Seq<WordPairRow>,
    id: u32,
    from: Seq<char>,
    sampled: Seq<(String, u32)>,
    sample_limit: nat,
    raw: u64,
)
    requires
        unique_pairs(rows),
        drawn_from(successors_of(rows, id, from), sampled),
        sampled.len() == if successors_of(rows, id, from).len() <= sample_limit {
            successors_of(rows, id, from).len()
        } else {
            sample_limit
        },
        next_word_of(sampled, raw).is_none(),
    ensures
        walk_may_end(rows, id, from, sample_limit),
{
    let all = successors_of(rows, id, from);
    let source = choose|source: Seq<int>| kept_at(all, source, sampled);
    assert(kept_at(all, source, sampled));
    if sampled.len() > 0 {
        lemma_successors_are_edges(rows, id, from, source[0]);
        lemma_weight_sum_monotone(sampled, 1, sampled.len() as int);
        assert(sampled.take(sampled.len() as int) =~= sampled);
        assert(sampled.take(1).drop_last() =~= Seq::<(String, u32)>::empty());
        assert(weight_sum(sampled.take(1).drop_last()) == 0);
        assert(sampled.take(1).last() == sampled[0]);
        assert(weight_sum(sampled.take(1)) == sampled[0].1);
        let r = (raw as nat) % weight_sum(sampled);
        lemma_selected(sampled, r);
        let at = selected(sampled, r);
        lemma_successors_are_edges(rows, id, from, source[at]);
        assert(sampled[at].0@ =~= Seq::<char>::empty());
    }
}

/// A walk ends at a word after which nothing is recorded: whatever is
/// sampled of its successors, no next word is drawn.
pub proof fn lemma_walk_ends_without_successors(
    rows: Seq<WordPairRow>,
    id: u32,
    from: Seq<char>,
    sampled: Seq<(String, u32)>,
    raw: u64,
)
    requires
        successors_of(rows, id, from).len() == 0,
        drawn_from(successors_of(rows, id, from), sampled),
    ensures
        next_word_of(sampled, raw).is_none(),
{
    let all = successors_of(rows, id, from);
    let at = choose|at: Seq<int>| kept_at(all, at, sampled);
    assert(kept_at(all, at, sampled));
    if sampled.len() > 0 {
        assert(0 <= at[0] < all.len());
    }
}

/// Once a message was taken in, its digest is held.
pub proof fn lemma_message_is_held(
    s0: SqliteDbClient,
    s1: SqliteDbClient,
    user_name: Seq<char>,
    message: Seq<char>,
    words: Seq<Seq<char>>,
)
    requires
        took_in(s0, s1, user_name, message, words),
    ensures
        has_digest(s1.messages(), md5_digest(message)),
{
    if !has_digest(s0.messages(), md5_digest(message)) {
        let last = s1.messages().len() - 1;
        assert(s1.messages()[last].digest@ == md5_digest(message));
    }
}

} // verus!
