//! Vectors, strings and tables at work: a few fixed computations, and the
//! counting of the words of a text.

use crate::table::Table;
use vstd::prelude::*;
use vstd::string::StringExecFns;

verus! {

/// The words of a text: its pieces between stretches of whitespace, in
/// order. This is what `str::split_whitespace` yields.
pub uninterp spec fn whitespace_words(text: Seq<char>) -> Seq<Seq<char>>;

/// How often each word of a list occurs in it. A word that does not occur
/// has no entry.
pub open spec fn word_counts(words: Seq<Seq<char>>) -> Map<Seq<char>, i32> {
    Map::new(
        |word: Seq<char>| words.to_multiset().count(word) > 0,
        |word: Seq<char>| words.to_multiset().count(word) as i32,
    )
}

/// Calls `str::split_whitespace` and collects the words as owned strings.
/// Trusted: the words are exactly those that `whitespace_words` names for
/// the text; nothing more is claimed of them.
#[verifier::external_body]
fn split_whitespace(text: &str) -> (words: Vec<String>)
    ensures
        words.deep_view() == whitespace_words(text@),
{
    text.split_whitespace().map(|word| word.to_string()).collect()
}

/// The vector 1, 2, 3 with a 4 pushed on, and its third element.
pub fn vectors() -> (r: (Vec<i32>, Option<i32>))
    ensures
        r.0@ == seq![1i32, 2i32, 3i32, 4i32],
        r.1 == Some(3i32),
{
    let mut v: Vec<i32> = vec![1, 2, 3];
    v.push(4);
    let third = if 2 < v.len() {
        Some(v[2])
    } else {
        None
    };
    proof {
        assert(v@ =~= seq![1i32, 2i32, 3i32, 4i32]);
    }
    (v, third)
}

/// Two strings joined into a third. The first is used up, the second is
/// handed back beside the result.
pub fn strings() -> (r: (String, String))
    ensures
        r.0@ == "Hello, world!"@,
        r.1@ == "world!"@,
{
    let s1 = String::from_str("Hello, ");
    let s2 = String::from_str("world!");
    let s3 = s1.concat(s2.as_str());
    proof {
        reveal_strlit("Hello, ");
        reveal_strlit("world!");
        reveal_strlit("Hello, world!");
        assert(s3@ =~= "Hello, world!"@);
    }
    (s3, s2)
}

/// As `strings`, but a copy of the first string is used up in its place:
/// the first string is handed back, and the joined one beside it.
pub fn strings_clone() -> (r: (String, String))
    ensures
        r.0@ == "Hello, "@,
        r.1@ == "Hello, world!"@,
{
    let s1 = String::from_str("Hello, ");
    let s2 = String::from_str("world!");
    let s11 = s1.clone();
    let s4 = s11.concat(s2.as_str());
    proof {
        reveal_strlit("Hello, ");
        reveal_strlit("world!");
        reveal_strlit("Hello, world!");
        assert(s4@ =~= "Hello, world!"@);
    }
    (s1, s4)
}

/// Three strings joined with hyphens between them.
pub fn strings_format() -> (s: String)
    ensures
        s@ == "tic-tac-toe"@,
{
    let s1 = String::from_str("tic");
    let s2 = String::from_str("tac");
    let s3 = String::from_str("toe");
    let mut s = String::new();
    s.append(s1.as_str());
    s.append("-");
    s.append(s2.as_str());
    s.append("-");
    s.append(s3.as_str());
    proof {
        reveal_strlit("tic");
        reveal_strlit("tac");
        reveal_strlit("toe");
        reveal_strlit("-");
        reveal_strlit("tic-tac-toe");
        assert(s@ =~= "tic-tac-toe"@);
    }
    s
}

/// What a round of score keeping gives: two lookups, and the table at two
/// moments.
pub struct Scores {
    /// The score of the blue team after its first entry.
    pub first: i32,
    /// The score of the blue team after its entry was overwritten.
    pub second: i32,
    /// The table after the two insertions.
    pub inserted: Table,
    /// The table after an entry was asked for each of two teams.
    pub entered: Table,
}

/// Keeps the scores of two teams. Blue gets 10 and then 25: the second
/// insertion overwrites the first. Then each of Yellow and Blue gets 50
/// unless it has a score: Yellow gets it, Blue keeps its 25.
pub fn hashmaps() -> (r: Scores)
    ensures
        r.first == 10,
        r.second == 25,
        r.inserted@ == Map::<Seq<char>, i32>::empty().insert("Blue"@, 25i32),
        r.entered@ == Map::<Seq<char>, i32>::empty().insert("Blue"@, 25i32).insert(
            "Yellow"@,
            50i32,
        ),
{
    proof {
        reveal_strlit("Blue");
        reveal_strlit("Yellow");
    }
    let mut scores = Table::new();
    scores.insert(String::from_str("Blue"), 10);
    let team_name = String::from_str("Blue");
    let first = scores.get(&team_name).unwrap_or(0);
    scores.insert(String::from_str("Blue"), 25);
    let second = scores.get(&team_name).unwrap_or(0);
    let inserted = scores.snapshot();
    proof {
        assert(inserted@ =~= Map::<Seq<char>, i32>::empty().insert("Blue"@, 25i32));
    }
    scores.or_insert(String::from_str("Yellow"), 50);
    scores.or_insert(String::from_str("Blue"), 50);
    proof {
        assert("Blue"@.len() != "Yellow"@.len());
        assert(scores@ =~= Map::<Seq<char>, i32>::empty().insert("Blue"@, 25i32).insert(
            "Yellow"@,
            50i32,
        ));
    }
    Scores { first: first, second: second, inserted: inserted, entered: scores }
}

/// Counts how often each word of a list occurs in it. No word may occur
/// more often than an `i32` can count.
pub fn count_words(words: &Vec<String>) -> (counts: Table)
    requires
        forall|word: Seq<char>| words.deep_view().to_multiset().count(word) <= i32::MAX,
    ensures
        counts@ == word_counts(words.deep_view()),
{
    let mut counts = Table::new();
    let mut i: usize = 0;
    proof {
        assert forall|word: Seq<char>| words.deep_view().take(0).to_multiset().count(word)
            == 0 by {
            lemma_count_at_most_len(words.deep_view().take(0), word);
        }
        assert(counts@ =~= word_counts(words.deep_view().take(0)));
    }
    while i < words.len()
        invariant
            0 <= i <= words@.len(),
            words.deep_view().len() == words@.len(),
            counts@ == word_counts(words.deep_view().take(i as int)),
            forall|word: Seq<char>| words.deep_view().to_multiset().count(word) <= i32::MAX,
        decreases words@.len() - i,
    {
        let ghost seen = words.deep_view().take(i as int);
        let ghost word = words@[i as int]@;
        proof {
            assert(words.deep_view()[i as int] == word);
            assert(words.deep_view().take(i + 1) =~= seen.push(word));
            vstd::seq_lib::to_multiset_build(seen, word);
            lemma_count_of_prefix(words.deep_view(), i + 1, word);
        }
        counts.add_one(words[i].clone());
        proof {
            assert(counts@ =~= word_counts(words.deep_view().take(i + 1)));
        }
        i += 1;
    }
    proof {
        assert(words.deep_view().take(i as int) =~= words.deep_view());
    }
    counts
}

/// A word occurs in a prefix of a list at most as often as in the list.
proof fn lemma_count_of_prefix(words: Seq<Seq<char>>, n: int, word: Seq<char>)
    requires
        0 <= n <= words.len(),
    ensures
        words.take(n).to_multiset().count(word) <= words.to_multiset().count(word),
    decreases words.len() - n,
{
    if n < words.len() {
        lemma_count_of_prefix(words, n + 1, word);
        assert(words.take(n + 1) =~= words.take(n).push(words[n]));
        vstd::seq_lib::to_multiset_build(words.take(n), words[n]);
    } else {
        assert(words.take(n) =~= words);
    }
}

/// The text whose words `hashmaps_counter` counts.
pub open spec fn counted_text() -> Seq<char> {
    "hello world wonderful world"@
}

/// Counts the words of a fixed text. The result is `None` only where the
/// text has more words than an `i32` can count.
pub fn hashmaps_counter() -> (r: Option<Table>)
    ensures
        match r {
            Some(counts) => whitespace_words(counted_text()).len() <= i32::MAX && counts@
                == word_counts(whitespace_words(counted_text())),
            None => whitespace_words(counted_text()).len() > i32::MAX,
        },
{
    let text = "hello world wonderful world";
    let words = split_whitespace(text);
    if words.len() <= i32::MAX as usize {
        proof {
            assert forall|word: Seq<char>|
                words.deep_view().to_multiset().count(word) <= i32::MAX by {
                lemma_count_at_most_len(words.deep_view(), word);
            }
        }
        Some(count_words(&words))
    } else {
        None
    }
}

/// No word occurs in a list more often than the list is long.
proof fn lemma_count_at_most_len(words: Seq<Seq<char>>, word: Seq<char>)
    ensures
        words.to_multiset().count(word) <= words.len(),
{
    vstd::seq_lib::to_multiset_len(words);
    vstd::multiset::axiom_count_le_len(words.to_multiset(), word);
}

} // verus!
