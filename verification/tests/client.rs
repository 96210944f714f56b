use imitator::csv_ingest::{checkpoint, ingest_csv};
use imitator::db_client::{
    join_words, pairs_to_record, walk_goes_on, walk_step, SqliteDbClient, SqliteDbClientError, StoreOutcome,
    MAX_WORDS, SAMPLE_LIMIT,
};
use imitator::options::{ImitatorOptions, ImitatorSubcommands};
use imitator::server::{add_message_reply, imitation_reply, message_of, random_user_reply, user_name_of};

fn fresh() -> SqliteDbClient {
    SqliteDbClient::new().ok().unwrap()
}

fn pairs_of_user(client: &SqliteDbClient, id: u32, words: &[&str]) -> Vec<Option<u32>> {
    let mut counts = Vec::new();
    for a in words {
        for b in words {
            counts.push(client.pair_count(id, a, b));
        }
    }
    counts
}

#[test]
fn ingesting_a_message_twice_is_ingesting_it_once() {
    let mut client = fresh();
    assert!(client.add_message("ann", "to be or not to be").is_ok());
    let id = client.lookup("ann").unwrap();
    let words = ["", "to", "be", "or", "not"];
    let once = pairs_of_user(&client, id, &words);
    assert!(client.add_message("ann", "to be or not to be").is_ok());
    assert_eq!(pairs_of_user(&client, id, &words), once);
    assert_eq!(client.message_count(), 1);
    assert_eq!(client.pair_count(id, "to", "be"), Some(2));
    assert_eq!(client.pair_count(id, "be", ""), Some(1));
}

#[test]
fn a_text_counts_only_for_the_user_who_sent_it_first() {
    let mut client = fresh();
    assert!(client.add_message("ann", "same old text").is_ok());
    assert!(client.add_message("bob", "same old text").is_ok());
    let ann = client.lookup("ann").unwrap();
    let bob = client.lookup("bob").unwrap();
    assert_eq!(client.message_count(), 1);
    assert_eq!(client.pair_count(ann, "", "same"), Some(1));
    if ann != bob {
        let words = ["", "same", "old", "text"];
        for c in pairs_of_user(&client, bob, &words) {
            assert_eq!(c, None);
        }
    }
    assert_eq!(client.imitate_user("bob").ok(), Some(String::new()));
}

#[test]
fn transitions_are_counted_per_message() {
    let mut client = fresh();
    assert!(client.add_message("ann", "a a").is_ok());
    let id = client.lookup("ann").unwrap();
    assert_eq!(client.pair_count(id, "", "a"), Some(1));
    assert_eq!(client.pair_count(id, "a", "a"), Some(1));
    assert_eq!(client.pair_count(id, "a", ""), Some(1));
    assert!(client.add_message("ann", "a a.").is_ok());
    assert_eq!(client.pair_count(id, "", "a"), Some(2));
    assert_eq!(client.pair_count(id, "a", "a"), Some(2));
    assert_eq!(client.pair_count(id, "a", ""), Some(1));
    assert_eq!(client.pair_count(id, "a", "."), Some(1));
    assert_eq!(client.pair_count(id, ".", ""), Some(1));
    assert_eq!(client.pair_count(id, ".", "a"), None);
    assert_eq!(client.message_count(), 2);
}

#[test]
fn an_unknown_user_cannot_be_imitated() {
    let client = fresh();
    assert!(matches!(client.imitate_user("nobody"), Err(SqliteDbClientError::UnknownUser(name)) if name == "nobody"));
    let mut client = fresh();
    assert!(client.add_message("ann", "hi").is_ok());
    assert!(matches!(client.imitate_user("nobody"), Err(SqliteDbClientError::UnknownUser(name)) if name == "nobody"));
    assert_eq!(client.lookup("nobody"), None);
}

#[test]
fn an_imitation_holds_at_most_the_maximum_of_words() {
    let mut client = fresh();
    let long = vec!["a"; 5000].join(" ");
    assert!(client.add_message("ann", &long).is_ok());
    let mut longest = 0;
    for _ in 0..20 {
        let text = client.imitate_user("ann").ok().unwrap();
        let n = text.split(' ').filter(|w| !w.is_empty()).count();
        assert!(n <= MAX_WORDS);
        assert!(text.split(' ').all(|w| w == "a"));
        if n > longest {
            longest = n;
        }
    }
    assert_eq!(longest, 100);
    assert_eq!(MAX_WORDS, 100);
    assert_eq!(SAMPLE_LIMIT, 10);
}

#[test]
fn an_imitation_follows_the_only_path() {
    let mut client = fresh();
    assert!(client.add_message("ann", "hello there, world").is_ok());
    assert_eq!(client.imitate_user("ann").ok(), Some("hello there , world".to_string()));
    let id = client.lookup("ann").unwrap();
    assert_eq!(client.imitation_words(id, 100, 10), vec!["hello", "there", ",", "world"]);
}

#[test]
fn an_imitation_ends_where_nothing_follows() {
    let mut client = fresh();
    assert!(client.add_message("ann", "   ").is_ok());
    let id = client.lookup("ann").unwrap();
    assert_eq!(client.pair_count(id, "", ""), Some(1));
    assert_eq!(client.imitate_user("ann").ok(), Some(String::new()));
    assert_eq!(client.imitation_words(id.wrapping_add(1), 100, 10), Vec::<String>::new());
}

#[test]
fn an_imitation_walks_recorded_pairs_only() {
    let mut client = fresh();
    assert!(client.add_message("ann", "one two three").is_ok());
    assert!(client.add_message("ann", "one three two").is_ok());
    assert!(client.add_message("ann", "two one").is_ok());
    let id = client.lookup("ann").unwrap();
    for _ in 0..200 {
        let words = client.imitation_words(id, 100, 10);
        assert!(words.len() <= 100);
        let mut prev = String::new();
        for w in &words {
            assert!(!w.is_empty());
            assert!(client.pair_count(id, &prev, w).is_some());
            prev = w.clone();
        }
    }
}

#[test]
fn sampled_successors_are_capped_at_the_limit() {
    let mut client = fresh();
    for i in 0..15 {
        assert!(client.add_message("ann", &format!("w{}", i)).is_ok());
    }
    let id = client.lookup("ann").unwrap();
    let start = String::new();
    let mut seen = std::collections::BTreeSet::new();
    for _ in 0..300 {
        let found = client.sample_successors(id, &start, 10);
        assert_eq!(found.len(), 10);
        for (w, c) in &found {
            assert_eq!(*c, 1);
            assert_eq!(client.pair_count(id, "", w), Some(1));
            seen.insert(w.clone());
        }
    }
    assert_eq!(seen.len(), 15);
    assert_eq!(client.sample_successors(id, &start, 20).len(), 15);
    assert_eq!(client.sample_successors(id, &"w3".to_string(), 10), vec![(String::new(), 1)]);
}

#[test]
fn a_random_user_is_each_user_at_some_time() {
    let mut client = fresh();
    for name in ["ann", "bob", "cy"] {
        assert!(client.add_message(name, &format!("i am {}", name)).is_ok());
    }
    let mut seen = std::collections::BTreeSet::new();
    for _ in 0..500 {
        let reply = client.imitate_random_user().ok().unwrap();
        assert_eq!(reply.imitation, format!("i am {}", reply.user_name));
        seen.insert(reply.user_name);
    }
    assert_eq!(seen.len(), 3);
    let name = client.get_random_user().ok().unwrap();
    assert!(client.lookup(&name).is_some());
}

#[test]
fn no_user_can_be_drawn_from_an_empty_store() {
    let client = fresh();
    assert!(matches!(client.get_random_user(), Err(SqliteDbClientError::NoUsers)));
    assert!(matches!(client.imitate_random_user(), Err(SqliteDbClientError::NoUsers)));
}

#[test]
fn a_user_keeps_the_identifier_first_drawn() {
    let mut client = fresh();
    let id = client.get_or_create("ann");
    assert!(id < 0x8000_0000);
    assert_eq!(client.get_or_create("ann"), id);
    assert_eq!(client.lookup("ann"), Some(id));
    let other = client.get_or_create("bob");
    assert_eq!(client.lookup("bob"), Some(other));
    assert_eq!(client.lookup("ann"), Some(id));
}

#[test]
fn a_text_is_stored_once() {
    let mut client = fresh();
    assert_eq!(client.try_store(1, "hello"), StoreOutcome::Stored);
    assert_eq!(client.try_store(1, "hello"), StoreOutcome::Duplicate);
    assert_eq!(client.try_store(2, "hello"), StoreOutcome::Duplicate);
    assert_eq!(client.try_store(2, "hello!"), StoreOutcome::Stored);
    assert_eq!(client.message_count(), 2);
}

#[test]
fn message_words_are_the_tokens() {
    let client = fresh();
    let words = client.get_message_words("don't stop");
    assert_eq!(words, vec!["don", "'t", "stop"]);
}

#[test]
fn join_words_puts_single_spaces_between() {
    assert_eq!(join_words(&Vec::new()), "");
    assert_eq!(join_words(&vec!["a".to_string()]), "a");
    assert_eq!(join_words(&vec!["a".to_string(), "b".to_string(), "c".to_string()]), "a b c");
}

#[test]
fn errors_say_what_went_wrong() {
    assert_eq!(SqliteDbClientError::UnknownUser("ann".to_string()).message(), "Unknown user: ann");
    assert_eq!(SqliteDbClientError::SqlxError("disk".to_string()).message(), "Sql error");
    assert_eq!(SqliteDbClientError::NoUsers.message(), "No users");
    assert_eq!(SqliteDbClientError::Other("x".to_string()).message(), "Other: x");
}

#[test]
fn replies_carry_the_status_of_the_outcome() {
    let ok = add_message_reply(&Ok(()));
    assert_eq!((ok.status, ok.body.as_str()), (201, "Successfully added message"));
    let failed = add_message_reply(&Err(SqliteDbClientError::SqlxError("disk".to_string())));
    assert_eq!((failed.status, failed.body.as_str()), (500, "Error"));
    let text = imitation_reply(Ok("a b".to_string()), "ann");
    assert_eq!((text.status, text.body.as_str()), (200, "a b"));
    let unknown = imitation_reply(Err(SqliteDbClientError::UnknownUser("ann".to_string())), "ann");
    assert_eq!((unknown.status, unknown.body.as_str()), (404, "Unknown user: ann"));
    let broken = imitation_reply(Err(SqliteDbClientError::Other("x".to_string())), "ann");
    assert_eq!((broken.status, broken.body.as_str()), (500, "Internal error"));
}

#[test]
fn options_default_to_serving_the_local_database() {
    let options = ImitatorOptions::new();
    assert_eq!(options.db, "sqlite://messages.db?mode=rwc");
    assert_eq!(options.csv_input(), None);
    let ingest = ImitatorOptions {
        db: ImitatorOptions::default_db(),
        subcommand: Some(ImitatorSubcommands::IngestCsv { input: "rows.csv".to_string() }),
    };
    assert_eq!(ingest.csv_input(), Some("rows.csv".to_string()));
}

#[test]
fn each_user_is_drawn_by_some_draw() {
    let mut client = fresh();
    for name in ["ann", "bob", "cy"] {
        assert!(client.add_message(name, name).is_ok());
    }
    assert_eq!(client.user_by_draw(0).ok(), Some("ann".to_string()));
    assert_eq!(client.user_by_draw(1).ok(), Some("bob".to_string()));
    assert_eq!(client.user_by_draw(2).ok(), Some("cy".to_string()));
    assert_eq!(client.user_by_draw(3).ok(), Some("ann".to_string()));
    assert_eq!(client.user_by_draw(u64::MAX).ok(), Some("ann".to_string()));
    assert!(matches!(fresh().user_by_draw(0), Err(SqliteDbClientError::NoUsers)));
}

#[test]
fn only_a_stored_message_has_pairs_to_record() {
    let words = vec!["a".to_string(), "b".to_string()];
    assert_eq!(pairs_to_record(StoreOutcome::Duplicate, &words), Vec::new());
    assert_eq!(
        pairs_to_record(StoreOutcome::Stored, &words),
        vec![
            ("".to_string(), "a".to_string()),
            ("a".to_string(), "b".to_string()),
            ("b".to_string(), "".to_string()),
        ]
    );
}

#[test]
fn rows_are_taken_in_until_one_is_short() {
    let mut client = fresh();
    let rows = vec![
        vec!["ann".to_string(), "a b".to_string(), "extra".to_string()],
        vec!["bob".to_string(), "b a".to_string()],
    ];
    assert!(ingest_csv(&mut client, &rows).is_ok());
    assert_eq!(client.message_count(), 2);
    let ann = client.lookup("ann").unwrap();
    assert_eq!(client.pair_count(ann, "a", "b"), Some(1));

    let mut client = fresh();
    let rows = vec![
        vec!["ann".to_string(), "a b".to_string()],
        vec!["bob".to_string()],
        vec!["cy".to_string(), "c".to_string()],
    ];
    let failed = ingest_csv(&mut client, &rows);
    assert!(matches!(failed, Err(SqliteDbClientError::Other(what)) if what == "Rows need at least 2 cells"));
    assert_eq!(client.message_count(), 1);
    assert!(client.lookup("ann").is_some());
    assert_eq!(client.lookup("cy"), None);
}

#[test]
fn progress_is_reported_every_hundred_rows() {
    assert_eq!(checkpoint(99, 0), None);
    assert_eq!(checkpoint(100, 0), Some(100));
    assert_eq!(checkpoint(199, 100), None);
    assert_eq!(checkpoint(200, 100), Some(200));
    assert_eq!(checkpoint(250, 100), Some(200));
    assert_eq!(checkpoint(0, 0), None);
}

#[test]
fn a_short_walk_stands_where_a_walk_may_end() {
    let mut client = fresh();
    assert!(client.add_message("ann", "one two three").is_ok());
    assert!(client.add_message("ann", "one three two one two").is_ok());
    assert!(client.add_message("ann", "two").is_ok());
    let id = client.lookup("ann").unwrap();
    for _ in 0..200 {
        let words = client.imitation_words(id, 4, 10);
        assert!(words.len() <= 4);
        if words.len() < 4 {
            let last = words.last().cloned().unwrap_or_default();
            let nothing_follows = client.sample_successors(id, &last, 10).is_empty();
            assert!(nothing_follows || client.pair_count(id, &last, "").is_some());
        }
    }
    assert_eq!(client.imitation_words(id, 0, 10), Vec::<String>::new());
    assert_eq!(client.imitation_words(id, 4, 0), Vec::<String>::new());
}

#[test]
fn a_walk_goes_on_while_only_words_follow() {
    let mut client = fresh();
    assert!(client.add_message("ann", "a b c").is_ok());
    let id = client.lookup("ann").unwrap();
    assert_eq!(client.imitation_words(id, 1, 10), vec!["a"]);
    assert_eq!(client.imitation_words(id, 2, 10), vec!["a", "b"]);
    assert_eq!(client.imitation_words(id, 3, 10), vec!["a", "b", "c"]);
    assert_eq!(client.imitation_words(id, 9, 10), vec!["a", "b", "c"]);
    assert_eq!(client.generate("ann", 2, 10).ok(), Some("a b".to_string()));
}

#[test]
fn a_store_can_be_made() {
    assert!(SqliteDbClient::new().is_ok());
    let client = fresh();
    assert_eq!(client.message_count(), 0);
    assert!(matches!(client.get_random_user(), Err(SqliteDbClientError::NoUsers)));
}

#[test]
fn a_walk_step_adds_the_drawn_word_until_the_walk_is_full() {
    let candidates = vec![("a".to_string(), 3), ("".to_string(), 1), ("c".to_string(), 6)];
    let mut words: Vec<String> = Vec::new();
    assert!(walk_goes_on(&words, 2));
    assert!(walk_step(&mut words, 2, &candidates, 0));
    assert_eq!(words, vec!["a"]);
    assert!(!walk_step(&mut words, 2, &candidates, 3));
    assert_eq!(words, vec!["a"]);
    assert!(walk_step(&mut words, 2, &candidates, 4));
    assert_eq!(words, vec!["a", "c"]);
    assert!(!walk_goes_on(&words, 2));
    assert!(!walk_step(&mut words, 2, &candidates, 0));
    assert_eq!(words, vec!["a", "c"]);
    assert!(!walk_step(&mut words, 9, &Vec::new(), 0));
    assert!(!walk_goes_on(&Vec::new(), 0));
}

#[test]
fn a_user_name_is_decoded_from_the_path() {
    assert_eq!(user_name_of("ann").ok(), Some("ann".to_string()));
    assert_eq!(user_name_of("ann%20lee").ok(), Some("ann lee".to_string()));
    assert_eq!(user_name_of("a+b").ok(), Some("a+b".to_string()));
    let refused = user_name_of("%ff").err().unwrap();
    assert_eq!((refused.status, refused.body.as_str()), (400, "Invalid utf8 in username"));
}

#[test]
fn a_message_is_read_from_the_body() {
    assert_eq!(message_of(b"hello, world").ok(), Some("hello, world".to_string()));
    assert_eq!(message_of(&[0xc3, 0xa9]).ok(), Some("\u{e9}".to_string()));
    assert_eq!(message_of(b"").ok(), Some(String::new()));
    let refused = message_of(&[0x68, 0xff]).err().unwrap();
    assert_eq!((refused.status, refused.body.as_str()), (400, "Invalid utf8 in message"));
}

#[test]
fn a_random_user_reply_carries_the_payload_or_fails() {
    let ok = random_user_reply(Some("{}".to_string()));
    assert_eq!((ok.status, ok.body.as_str()), (200, "{}"));
    let failed = random_user_reply(None);
    assert_eq!((failed.status, failed.body.as_str()), (500, "Internal error"));
}

#[test]
fn each_message_is_held_once_under_its_text() {
    let mut client = fresh();
    for text in ["a", "b", "a", "c", "b"] {
        assert!(client.add_message("ann", text).is_ok());
    }
    assert_eq!(client.message_count(), 3);
}
