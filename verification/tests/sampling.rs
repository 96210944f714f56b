use imitator::sampling::{choose_weighted, next_word, pick_next, total_weight};
use imitator::tables::WordPairRow;
use imitator::transitions::{record_sequence, successors, thin, thin_by, upsert_pair};

fn candidates(items: &[(&str, u32)]) -> Vec<(String, u32)> {
    items.iter().map(|(w, c)| (w.to_string(), *c)).collect()
}

fn count(rows: &Vec<WordPairRow>, id: u32, from: &str, to: &str) -> Option<u32> {
    let mut found = None;
    for row in rows {
        if row.user_id == id && row.word_1 == from && row.word_2 == to {
            assert!(found.is_none());
            found = Some(row.count);
        }
    }
    found
}

#[test]
fn total_weight_adds_the_counts() {
    assert_eq!(total_weight(&candidates(&[("a", 3), ("b", 1), ("c", 6)])), 10);
    assert_eq!(total_weight(&Vec::new()), 0);
    assert_eq!(total_weight(&candidates(&[("a", u32::MAX), ("b", u32::MAX)])), 2 * (u32::MAX as u128));
}

#[test]
fn choose_weighted_walks_the_cumulative_weights() {
    let c = candidates(&[("a", 3), ("b", 1), ("c", 6)]);
    assert_eq!(choose_weighted(&c, 0), 0);
    assert_eq!(choose_weighted(&c, 2), 0);
    assert_eq!(choose_weighted(&c, 3), 1);
    assert_eq!(choose_weighted(&c, 4), 2);
    assert_eq!(choose_weighted(&c, 9), 2);
}

#[test]
fn choose_weighted_passes_over_a_count_of_zero() {
    let c = candidates(&[("a", 0), ("b", 2)]);
    assert_eq!(choose_weighted(&c, 0), 1);
    assert_eq!(choose_weighted(&c, 1), 1);
}

#[test]
fn each_candidate_is_chosen_in_its_share_of_the_weight() {
    let c = candidates(&[("a", 3), ("b", 1), ("c", 6)]);
    let mut hits = vec![0u32; 3];
    for raw in 0..1000u64 {
        hits[pick_next(&c, raw).unwrap()] += 1;
    }
    assert_eq!(hits, vec![300, 100, 600]);
}

#[test]
fn pick_next_reduces_the_draw_to_the_total() {
    let c = candidates(&[("a", 3), ("b", 1), ("c", 6)]);
    assert_eq!(pick_next(&c, 13), Some(1));
    assert_eq!(pick_next(&c, u64::MAX), Some(2));
    assert_eq!(pick_next(&Vec::new(), 5), None);
    assert_eq!(pick_next(&candidates(&[("a", 0)]), 5), None);
}

#[test]
fn upsert_pair_creates_then_raises() {
    let mut rows: Vec<WordPairRow> = Vec::new();
    upsert_pair(&mut rows, 7, &"a".to_string(), &"b".to_string());
    assert_eq!(count(&rows, 7, "a", "b"), Some(1));
    upsert_pair(&mut rows, 7, &"a".to_string(), &"b".to_string());
    upsert_pair(&mut rows, 7, &"b".to_string(), &"a".to_string());
    upsert_pair(&mut rows, 8, &"a".to_string(), &"b".to_string());
    assert_eq!(rows.len(), 3);
    assert_eq!(count(&rows, 7, "a", "b"), Some(2));
    assert_eq!(count(&rows, 7, "b", "a"), Some(1));
    assert_eq!(count(&rows, 8, "a", "b"), Some(1));
    assert_eq!(count(&rows, 8, "b", "a"), None);
}

#[test]
fn upsert_pair_holds_a_count_at_its_maximum() {
    let mut rows = vec![WordPairRow { user_id: 1, word_1: "a".to_string(), word_2: "b".to_string(), count: u32::MAX }];
    upsert_pair(&mut rows, 1, &"a".to_string(), &"b".to_string());
    assert_eq!(count(&rows, 1, "a", "b"), Some(u32::MAX));
}

#[test]
fn record_sequence_counts_each_occurrence() {
    let mut rows: Vec<WordPairRow> = Vec::new();
    let pairs = vec![
        ("".to_string(), "a".to_string()),
        ("a".to_string(), "a".to_string()),
        ("a".to_string(), "a".to_string()),
        ("a".to_string(), "".to_string()),
    ];
    record_sequence(&mut rows, 3, &pairs);
    assert_eq!(count(&rows, 3, "", "a"), Some(1));
    assert_eq!(count(&rows, 3, "a", "a"), Some(2));
    assert_eq!(count(&rows, 3, "a", ""), Some(1));
    assert_eq!(rows.len(), 3);
}

#[test]
fn successors_are_read_in_row_order() {
    let mut rows: Vec<WordPairRow> = Vec::new();
    for (id, from, to) in [(1, "a", "b"), (1, "a", "c"), (2, "a", "d"), (1, "b", "a"), (1, "a", "c")] {
        upsert_pair(&mut rows, id, &from.to_string(), &to.to_string());
    }
    assert_eq!(successors(&rows, 1, &"a".to_string()), candidates(&[("b", 1), ("c", 2)]));
    assert_eq!(successors(&rows, 2, &"a".to_string()), candidates(&[("d", 1)]));
    assert_eq!(successors(&rows, 1, &"z".to_string()), Vec::new());
}

#[test]
fn thin_by_removes_at_the_drawn_positions() {
    let c = candidates(&[("a", 1), ("b", 2), ("c", 3), ("d", 4)]);
    assert_eq!(thin_by(c.clone(), 2, &vec![0, 1]), candidates(&[("b", 2), ("d", 4)]));
    assert_eq!(thin_by(c.clone(), 3, &vec![7]), candidates(&[("a", 1), ("b", 2), ("c", 3)]));
    assert_eq!(thin_by(c.clone(), 4, &Vec::new()), c);
    assert_eq!(thin_by(c.clone(), 0, &vec![0, 0, 0, 0]), Vec::new());
    assert_eq!(thin_by(c.clone(), 1, &vec![0]), candidates(&[("b", 2), ("c", 3), ("d", 4)]));
}

#[test]
fn thin_keeps_the_limit_in_order() {
    let c = candidates(&[("a", 1), ("b", 2), ("c", 3), ("d", 4), ("e", 5)]);
    for _ in 0..50 {
        let kept = thin(c.clone(), 3);
        assert_eq!(kept.len(), 3);
        for i in 0..kept.len() {
            assert!(c.contains(&kept[i]));
            if i > 0 {
                assert!(kept[i - 1].1 < kept[i].1);
            }
        }
    }
    assert_eq!(thin(c.clone(), 9), c);
}

#[test]
fn thin_leaves_out_each_candidate_at_some_time() {
    let c = candidates(&[("a", 1), ("b", 2), ("c", 3)]);
    let mut left_out = vec![false; 3];
    for _ in 0..500 {
        let kept = thin(c.clone(), 2);
        for i in 0..3 {
            if !kept.contains(&c[i]) {
                left_out[i] = true;
            }
        }
    }
    assert_eq!(left_out, vec![true, true, true]);
}

#[test]
fn next_word_is_the_drawn_word_unless_the_end_mark() {
    let c = candidates(&[("a", 3), ("", 1), ("c", 6)]);
    assert_eq!(next_word(&c, 0), Some("a".to_string()));
    assert_eq!(next_word(&c, 3), None);
    assert_eq!(next_word(&c, 4), Some("c".to_string()));
    assert_eq!(next_word(&c, 10), Some("a".to_string()));
    assert_eq!(next_word(&Vec::new(), 0), None);
}
