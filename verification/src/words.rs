//! Splitting a message into words, and the word pairs a message contributes.

use vstd::prelude::*;

verus! {

/// The pattern by which a message is split: a run of word characters, or else
/// a run of anything that is not whitespace.
pub open spec fn words_pattern() -> Seq<char> {
    r"(\w+|[^\s]+)"@
}

/// A compiled pattern of the regex engine.
#[verifier::external_type_specification]
#[verifier::external_body]
pub struct ExRegex(regex::Regex);

/// Whether the regex engine, with the limits it has by default, accepts
/// `pattern`.
pub uninterp spec fn pattern_accepted(pattern: Seq<char>) -> bool;

/// The pattern from which `regex` was compiled, where it was compiled by the
/// engine with its default settings; `None` for a regex built otherwise.
pub uninterp spec fn compiled_from(regex: regex::Regex) -> Option<Seq<char>>;

/// The texts of the successive non-overlapping matches of `pattern` in `text`,
/// leftmost first, as the regex engine finds them.
pub uninterp spec fn regex_find_all(pattern: Seq<char>, text: Seq<char>) -> Seq<Seq<char>>;

/// The views of a sequence of strings.
pub open spec fn words_view(words: Seq<String>) -> Seq<Seq<char>> {
    words.map_values(|w: String| w@)
}

/// The views of a sequence of string pairs.
pub open spec fn pairs_view(pairs: Seq<(String, String)>) -> Seq<(Seq<char>, Seq<char>)> {
    pairs.map_values(|p: (String, String)| (p.0@, p.1@))
}

/// Calls `regex::Regex::new`. Trusted: whether the engine accepts depends
/// on `pattern` alone and is named `pattern_accepted`; where it accepts,
/// what comes back is compiled from `pattern` with the default settings.
#[verifier::external_body]
fn compile(pattern: &str) -> (compiled: Option<regex::Regex>)
    ensures
        compiled.is_some() == pattern_accepted(pattern@),
        compiled matches Some(regex) ==> compiled_from(regex) == Some(pattern@),
{
    match regex::Regex::new(pattern) {
        Ok(regex) => Some(regex),
        Err(_) => None,
    }
}

/// Calls `regex::Regex::find_iter` and hands out the text of each match in
/// order. Trusted: for a regex compiled with the default settings the result
/// is a function of the pattern and the text alone, named `regex_find_all`;
/// nothing is claimed of a regex built otherwise.
#[verifier::external_body]
fn find_all(regex: &regex::Regex, text: &str) -> (found: Vec<String>)
    ensures
        compiled_from(*regex) matches Some(pattern) ==> words_view(found@) == regex_find_all(pattern, text@),
{
    regex.find_iter(text).map(|m| m.as_str().to_owned()).collect()
}

/// The non-empty members of `found`, in order.
pub open spec fn nonempty_words(found: Seq<Seq<char>>) -> Seq<Seq<char>>
    decreases found.len(),
{
    if found.len() == 0 {
        Seq::empty()
    } else if found.last().len() > 0 {
        nonempty_words(found.drop_last()).push(found.last())
    } else {
        nonempty_words(found.drop_last())
    }
}

/// The words of `text`: the non-empty matches of the words pattern.
pub open spec fn words_of(text: Seq<char>) -> Seq<Seq<char>> {
    nonempty_words(regex_find_all(words_pattern(), text))
}

/// Every member of `nonempty_words(found)` is non-empty.
pub proof fn lemma_nonempty_words(found: Seq<Seq<char>>)
    ensures
        forall|i: int| 0 <= i < nonempty_words(found).len() ==> (#[trigger] nonempty_words(found)[i]).len() > 0,
        nonempty_words(found).len() <= found.len(),
    decreases found.len(),
{
    if found.len() > 0 {
        lemma_nonempty_words(found.drop_last());
    }
}

/// Drops the empty strings from `found`, keeping the order of the rest.
pub fn keep_nonempty(found: &Vec<String>) -> (words: Vec<String>)
    ensures
        words_view(words@) == nonempty_words(words_view(found@)),
{
    let mut words: Vec<String> = Vec::new();
    let mut i: usize = 0;
    assert(words_view(found@).take(0) =~= Seq::<Seq<char>>::empty());
    assert(words_view(words@) =~= Seq::<Seq<char>>::empty());
    while i < found.len()
        invariant
            i <= found.len(),
            words_view(words@) == nonempty_words(words_view(found@).take(i as int)),
        decreases found.len() - i,
    {
        let ghost before = words_view(words@);
        assert(words_view(found@).take(i + 1).drop_last() =~= words_view(found@).take(i as int));
        assert(words_view(found@).take(i + 1).last() == found@[i as int]@);
        if !found[i].as_str().is_empty() {
            let w = found[i].clone();
            words.push(w);
            assert(words_view(words@) =~= before.push(found@[i as int]@));
        }
        i += 1;
    }
    assert(words_view(found@).take(found.len() as int) =~= words_view(found@));
    words
}

/// The compiled words pattern, by which messages are split.
pub struct Tokenizer {
    words_regex: regex::Regex,
}

impl Tokenizer {
    /// The compiled pattern is the words pattern.
    pub closed spec fn wf(&self) -> bool {
        compiled_from(self.words_regex) == Some(words_pattern())
    }

    /// Compiles the words pattern. `None` where, and only where, the regex
    /// engine does not accept it.
    pub fn new() -> (tokenizer: Option<Tokenizer>)
        ensures
            tokenizer.is_some() == pattern_accepted(words_pattern()),
            tokenizer matches Some(t) ==> t.wf(),
    {
        match compile(r"(\w+|[^\s]+)") {
            Some(words_regex) => Some(Tokenizer { words_regex }),
            None => None,
        }
    }

    /// Splits `message` into its words: none of them is empty.
    pub fn tokenize(&self, message: &str) -> (words: Vec<String>)
        requires
            self.wf(),
        ensures
            words_view(words@) == words_of(message@),
            forall|i: int| 0 <= i < words@.len() ==> (#[trigger] words@[i])@.len() > 0,
    {
        let found = find_all(&self.words_regex, message);
        let words = keep_nonempty(&found);
        proof {
            lemma_nonempty_words(words_view(found@));
            assert forall|i: int| 0 <= i < words@.len() implies (#[trigger] words@[i])@.len() > 0 by {
                assert(words_view(words@)[i] == words@[i]@);
            }
        }
        words
    }
}

/// `words` between a leading and a trailing empty word, the marks of a
/// message's start and end.
pub open spec fn padded(words: Seq<Seq<char>>) -> Seq<Seq<char>> {
    seq![Seq::<char>::empty()] + words + seq![Seq::<char>::empty()]
}

/// Each word of the padded sequence with the word that follows it.
pub open spec fn pairs_of(words: Seq<Seq<char>>) -> Seq<(Seq<char>, Seq<char>)> {
    Seq::new((words.len() + 1) as nat, |i: int| (padded(words)[i], padded(words)[i + 1]))
}

/// How many of `pairs` have `word` as their first member.
pub open spec fn firsts(pairs: Seq<(Seq<char>, Seq<char>)>, word: Seq<char>) -> nat
    decreases pairs.len(),
{
    if pairs.len() == 0 {
        0
    } else if pairs.last().0 == word {
        firsts(pairs.drop_last(), word) + 1
    } else {
        firsts(pairs.drop_last(), word)
    }
}

/// How many of `pairs` have `word` as their second member.
pub open spec fn seconds(pairs: Seq<(Seq<char>, Seq<char>)>, word: Seq<char>) -> nat
    decreases pairs.len(),
{
    if pairs.len() == 0 {
        0
    } else if pairs.last().1 == word {
        seconds(pairs.drop_last(), word) + 1
    } else {
        seconds(pairs.drop_last(), word)
    }
}

/// Among the pairs of a message every word, the empty mark too, is as often
/// the first member of a pair as the second: what leads into a word leads
/// out of it again.
pub proof fn lemma_pairs_balance(words: Seq<Seq<char>>, word: Seq<char>)
    ensures
        firsts(pairs_of(words), word) == seconds(pairs_of(words), word),
    decreases words.len(),
{
    let p = pairs_of(words);
    let mark = Seq::<char>::empty();
    if words.len() == 0 {
        assert(p.drop_last().len() == 0);
        assert(p.last() == (mark, mark));
        assert(firsts(p.drop_last(), word) == 0);
        assert(seconds(p.drop_last(), word) == 0);
    } else {
        let shorter = words.drop_last();
        let q = pairs_of(shorter);
        lemma_pairs_balance(shorter, word);
        assert(p.drop_last().drop_last() =~= q.drop_last());
        assert(p.last() == (words.last(), mark));
        assert(p.drop_last().last() == (q.last().0, words.last()));
        assert(q.last().1 == mark);
        let front = p.drop_last();
        assert(firsts(front, word) == firsts(front.drop_last(), word) + if front.last().0 == word {
            1nat
        } else {
            0nat
        });
        assert(seconds(front, word) == seconds(front.drop_last(), word) + if front.last().1 == word {
            1nat
        } else {
            0nat
        });
        assert(firsts(q, word) == firsts(q.drop_last(), word) + if q.last().0 == word {
            1nat
        } else {
            0nat
        });
        assert(seconds(q, word) == seconds(q.drop_last(), word) + if q.last().1 == word {
            1nat
        } else {
            0nat
        });
    }
}

/// The consecutive pairs of `words` padded with the start and end marks.
pub fn word_pairs(words: &Vec<String>) -> (pairs: Vec<(String, String)>)
    ensures
        pairs_view(pairs@) == pairs_of(words_view(words@)),
{
    let ghost wv = words_view(words@);
    let mut pairs: Vec<(String, String)> = Vec::new();
    let mut prev: String = String::new();
    let mut i: usize = 0;
    while i < words.len()
        invariant
            i <= words.len(),
            wv == words_view(words@),
            pairs@.len() == i,
            prev@ == padded(wv)[i as int],
            forall|k: int| 0 <= k < i ==> (#[trigger] pairs@[k]).0@ == padded(wv)[k] && pairs@[k].1@ == padded(wv)[k + 1],
        decreases words.len() - i,
    {
        let w = words[i].clone();
        let next = w.clone();
        pairs.push((prev, w));
        prev = next;
        i += 1;
    }
    pairs.push((prev, String::new()));
    assert(pairs_view(pairs@) =~= pairs_of(wv));
    pairs
}

} // verus!
