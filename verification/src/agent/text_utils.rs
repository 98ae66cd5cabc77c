//! Text processing shared by all matchers: tokens, edit distance, n-grams.

use vstd::prelude::*;
use crate::unicode::{
    alphabetic, chars_of, lowercase, nfkd, nfkd_text, numeric, string_of, trimmed, white_space,
};

verus! {

/// Whether a character belongs to a word: it is a letter or a number
/// character.
pub open spec fn word_character(c: char) -> bool {
    alphabetic(c) || numeric(c)
}

/// A scan for words from left to right: the words that are complete, and the
/// characters of the word that is still open.
pub struct WordScan {
    pub done: Seq<Seq<char>>,
    pub current: Seq<char>,
}

impl WordScan {
    /// The words found when the text ends here.
    pub open spec fn finished(self) -> Seq<Seq<char>> {
        if self.current.len() > 0 {
            self.done.push(self.current)
        } else {
            self.done
        }
    }
}

/// Scans `s`: white space closes the open word, a letter or a number
/// character joins it, and any other character is dropped without closing
/// it.
pub open spec fn scan_words(s: Seq<char>) -> WordScan
    decreases s.len(),
{
    if s.len() == 0 {
        WordScan { done: Seq::empty(), current: Seq::empty() }
    } else {
        let before = scan_words(s.drop_last());
        let c = s.last();
        if white_space(c) {
            WordScan { done: before.finished(), current: Seq::empty() }
        } else if word_character(c) {
            WordScan { done: before.done, current: before.current.push(c) }
        } else {
            before
        }
    }
}

/// The tokens of a text: the words of its lowercase form that white space
/// separates, each made of its letters and number characters, every other
/// character removed.
pub open spec fn tokens(text: Seq<char>) -> Seq<Seq<char>> {
    scan_words(lowercase(text)).finished()
}

/// The texts that a sequence of strings holds.
pub open spec fn texts(v: Seq<String>) -> Seq<Seq<char>> {
    v.map_values(|s: String| s@)
}

/// Whether every character of `w` is a letter or a number character, and
/// no white space.
pub open spec fn all_word_characters(w: Seq<char>) -> bool {
    forall|j: int| 0 <= j < w.len() ==> word_character(#[trigger] w[j]) && !white_space(w[j])
}

/// Every word that a scan has completed is non-empty and made of letters
/// and number characters, and so is the open word.
pub proof fn lemma_scan_words_characters(s: Seq<char>)
    ensures
        forall|i: int|
            0 <= i < scan_words(s).done.len() ==> {
                &&& (#[trigger] scan_words(s).done[i]).len() > 0
                &&& all_word_characters(scan_words(s).done[i])
            },
        all_word_characters(scan_words(s).current),
    decreases s.len(),
{
    if s.len() > 0 {
        lemma_scan_words_characters(s.drop_last());
        let before = scan_words(s.drop_last());
        let after = scan_words(s);
        let c = s.last();
        if white_space(c) {
            assert forall|i: int| 0 <= i < after.done.len() implies {
                &&& (#[trigger] after.done[i]).len() > 0
                &&& all_word_characters(after.done[i])
            } by {
                if i < before.done.len() {
                    assert(after.done[i] == before.done[i]);
                }
            }
        } else if word_character(c) {
            assert forall|j: int| 0 <= j < after.current.len() implies word_character(
                #[trigger] after.current[j],
            ) && !white_space(after.current[j]) by {
                if j < before.current.len() {
                    assert(after.current[j] == before.current[j]);
                }
            }
        }
    }
}

/// Every token is non-empty and made of letters and number characters.
pub proof fn lemma_tokens_are_words(text: Seq<char>)
    ensures
        forall|i: int|
            0 <= i < tokens(text).len() ==> {
                &&& (#[trigger] tokens(text)[i]).len() > 0
                &&& all_word_characters(tokens(text)[i])
            },
{
    lemma_scan_words_characters(lowercase(text));
}

/// Splits a text into its lowercase word tokens.
pub fn tokenize(text: &str) -> (r: Vec<String>)
    ensures
        texts(r@) == tokens(text@),
{
    let lowered = text.to_lowercase();
    let chars = chars_of(lowered.as_str());
    let mut done: Vec<String> = Vec::new();
    let mut current: Vec<char> = Vec::new();
    let mut i: usize = 0;
    while i < chars.len()
        invariant
            i <= chars@.len(),
            texts(done@) == scan_words(chars@.take(i as int)).done,
            current@ == scan_words(chars@.take(i as int)).current,
        decreases chars@.len() - i,
    {
        let c = chars[i];
        proof {
            assert(chars@.take(i + 1).drop_last() == chars@.take(i as int));
        }
        if c.is_whitespace() {
            if current.len() > 0 {
                let word = string_of(&current, 0, current.len());
                proof {
                    assert(current@.subrange(0, current@.len() as int) == current@);
                    assert(texts(done@.push(word)) == texts(done@).push(word@));
                }
                done.push(word);
                current = Vec::new();
            }
        } else if c.is_alphabetic() || c.is_numeric() {
            current.push(c);
        }
        i += 1;
    }
    proof {
        assert(chars@.take(chars@.len() as int) == chars@);
    }
    if current.len() > 0 {
        let word = string_of(&current, 0, current.len());
        proof {
            assert(current@.subrange(0, current@.len() as int) == current@);
            assert(texts(done@.push(word)) == texts(done@).push(word@));
        }
        done.push(word);
    }
    done
}

/// The texts of `s` without repetition, each at the place of its first
/// occurrence.
pub open spec fn distinct(s: Seq<Seq<char>>) -> Seq<Seq<char>>
    decreases s.len(),
{
    if s.len() == 0 {
        Seq::empty()
    } else {
        let before = distinct(s.drop_last());
        if before.contains(s.last()) {
            before
        } else {
            before.push(s.last())
        }
    }
}

/// `distinct(s)` holds every text of `s`, and each only once.
pub proof fn lemma_distinct(s: Seq<Seq<char>>)
    ensures
        distinct(s).no_duplicates(),
        distinct(s).to_set() == s.to_set(),
        distinct(s).len() <= s.len(),
    decreases s.len(),
{
    if s.len() > 0 {
        lemma_distinct(s.drop_last());
        let before = distinct(s.drop_last());
        assert forall|t: Seq<char>| distinct(s).to_set().contains(t) <==> s.to_set().contains(
            t,
        ) by {
            if s.contains(t) {
                let i = choose|i: int| 0 <= i < s.len() && s[i] == t;
                if i < s.len() - 1 {
                    assert(s.drop_last()[i] == t);
                    assert(s.drop_last().to_set().contains(t));
                    assert(before.contains(t));
                    let k = choose|k: int| 0 <= k < before.len() && before[k] == t;
                    assert(distinct(s)[k] == t);
                } else if before.contains(t) {
                    let k = choose|k: int| 0 <= k < before.len() && before[k] == t;
                    assert(distinct(s)[k] == t);
                } else {
                    assert(distinct(s)[before.len() as int] == t);
                }
            }
            if distinct(s).contains(t) {
                let k = choose|k: int| 0 <= k < distinct(s).len() && distinct(s)[k] == t;
                if k < before.len() {
                    assert(before[k] == t);
                    assert(before.to_set().contains(t));
                    assert(s.drop_last().contains(t));
                    let i = choose|i: int| 0 <= i < s.drop_last().len() && s.drop_last()[i] == t;
                    assert(s[i] == t);
                } else {
                    assert(s[s.len() - 1] == t);
                }
            }
        }
        assert(distinct(s).to_set() =~= s.to_set());
    } else {
        assert(distinct(s).to_set() =~= s.to_set());
    }
}

/// Whether `v` holds a string with the text of `word`.
fn holds_text(v: &Vec<String>, word: &String) -> (r: bool)
    ensures
        r == texts(v@).contains(word@),
{
    let mut i: usize = 0;
    while i < v.len()
        invariant
            i <= v@.len(),
            forall|k: int| 0 <= k < i ==> texts(v@)[k] != word@,
        decreases v@.len() - i,
    {
        if v[i] == *word {
            assert(texts(v@)[i as int] == word@);
            return true;
        }
        i += 1;
    }
    false
}

/// The tokens `found` without repetition, in the order of first occurrence.
fn distinct_tokens(found: Vec<String>) -> (r: Vec<String>)
    ensures
        texts(r@) == distinct(texts(found@)),
{
    let mut out: Vec<String> = Vec::new();
    let mut i: usize = 0;
    while i < found.len()
        invariant
            i <= found@.len(),
            texts(out@) == distinct(texts(found@).take(i as int)),
        decreases found@.len() - i,
    {
        proof {
            assert(texts(found@).take(i + 1).drop_last() == texts(found@).take(i as int));
            assert(texts(found@).take(i + 1).last() == found@[i as int]@);
        }
        if !holds_text(&out, &found[i]) {
            let word = found[i].clone();
            proof {
                assert(texts(out@.push(word)) == texts(out@).push(word@));
            }
            out.push(word);
        }
        i += 1;
    }
    proof {
        assert(texts(found@).take(found@.len() as int) == texts(found@));
    }
    out
}

/// The distinct tokens of a text, in the order of first occurrence.
pub fn unique_terms(text: &str) -> (r: Vec<String>)
    ensures
        texts(r@) == distinct(tokens(text@)),
        texts(r@).no_duplicates(),
        texts(r@).to_set() == tokens(text@).to_set(),
{
    proof {
        lemma_distinct(tokens(text@));
    }
    distinct_tokens(tokenize(text))
}

/// The German stop words.
pub open spec fn stopwords_de() -> Seq<Seq<char>> {
    seq![
        "der"@, "die"@, "das"@, "und"@, "in"@, "ist"@, "von"@, "mit"@, "zum"@, "zur"@, "zu"@,
        "ein"@, "eine"@, "eines"@,
    ]
}

/// The English stop words.
pub open spec fn stopwords_en() -> Seq<Seq<char>> {
    seq![
        "the"@, "and"@, "is"@, "in"@, "of"@, "to"@, "a"@, "with"@, "for"@, "on"@, "at"@,
        "this"@, "that"@,
    ]
}

/// Whether a language tag, in any letter case, asks for the German list.
pub open spec fn is_german(lang: Seq<char>) -> bool {
    lowercase(lang) == "de"@ || lowercase(lang) == "deu"@ || lowercase(lang) == "german"@
}

/// The stop words of a language: the German list for a German tag, the
/// English list for any other.
pub open spec fn stopwords(lang: Seq<char>) -> Seq<Seq<char>> {
    if is_german(lang) {
        stopwords_de()
    } else {
        stopwords_en()
    }
}

/// Whether `token` is a stop word of the German list, or of the English one.
fn is_stopword(token: &str, german: bool) -> (r: bool)
    ensures
        r == (if german { stopwords_de() } else { stopwords_en() }).contains(token@),
{
    if german {
        let ghost l = stopwords_de();
        proof {
            assert(l.len() == 14);
            assert(l[0] == "der"@ && l[1] == "die"@ && l[2] == "das"@ && l[3] == "und"@);
            assert(l[4] == "in"@ && l[5] == "ist"@ && l[6] == "von"@ && l[7] == "mit"@);
            assert(l[8] == "zum"@ && l[9] == "zur"@ && l[10] == "zu"@ && l[11] == "ein"@);
            assert(l[12] == "eine"@ && l[13] == "eines"@);
        }
        token.eq("der") || token.eq("die") || token.eq("das") || token.eq("und") || token.eq("in")
            || token.eq("ist") || token.eq("von") || token.eq("mit") || token.eq("zum")
            || token.eq("zur") || token.eq("zu") || token.eq("ein") || token.eq("eine")
            || token.eq("eines")
    } else {
        let ghost l = stopwords_en();
        proof {
            assert(l.len() == 13);
            assert(l[0] == "the"@ && l[1] == "and"@ && l[2] == "is"@ && l[3] == "in"@);
            assert(l[4] == "of"@ && l[5] == "to"@ && l[6] == "a"@ && l[7] == "with"@);
            assert(l[8] == "for"@ && l[9] == "on"@ && l[10] == "at"@ && l[11] == "this"@);
            assert(l[12] == "that"@);
        }
        token.eq("the") || token.eq("and") || token.eq("is") || token.eq("in") || token.eq("of")
            || token.eq("to") || token.eq("a") || token.eq("with") || token.eq("for")
            || token.eq("on") || token.eq("at") || token.eq("this") || token.eq("that")
    }
}

/// Removes the stop words of the language `lang` from a list of tokens.
pub fn remove_stopwords(found: Vec<String>, lang: &str) -> (r: Vec<String>)
    ensures
        texts(r@) == texts(found@).filter(|t: Seq<char>| !stopwords(lang@).contains(t)),
{
    let tag = lang.to_lowercase();
    let german = tag.as_str().eq("de") || tag.as_str().eq("deu") || tag.as_str().eq("german");
    let ghost keep = |t: Seq<char>| !stopwords(lang@).contains(t);
    let mut out: Vec<String> = Vec::new();
    let mut i: usize = 0;
    while i < found.len()
        invariant
            i <= found@.len(),
            german == is_german(lang@),
            keep == |t: Seq<char>| !stopwords(lang@).contains(t),
            texts(out@) == texts(found@).take(i as int).filter(keep),
        decreases found@.len() - i,
    {
        proof {
            let head = texts(found@).take(i as int);
            let one = seq![found@[i as int]@];
            assert(texts(found@).take(i + 1) == head + one);
            Seq::filter_distributes_over_add(head, one, keep);
            assert(one.drop_last() == Seq::<Seq<char>>::empty());
            assert(one.drop_last().filter(keep) == Seq::<Seq<char>>::empty());
            reveal_with_fuel(Seq::filter, 2);
            assert(one.filter(keep) == if keep(one.last()) { one } else { Seq::empty() });
        }
        if !is_stopword(found[i].as_str(), german) {
            let word = found[i].clone();
            proof {
                assert(texts(out@.push(word)) == texts(out@).push(word@));
                assert(texts(out@).push(word@) == texts(out@) + seq![word@]);
            }
            out.push(word);
        }
        i += 1;
    }
    proof {
        assert(texts(found@).take(found@.len() as int) == texts(found@));
    }
    out
}

/// The set of the tokens of a text.
pub open spec fn term_set(text: Seq<char>) -> Set<Seq<char>> {
    tokens(text).to_set()
}

/// A number of items as a `usize`, held at `usize::MAX` where it is larger.
pub open spec fn saturated(n: nat) -> usize {
    if n <= usize::MAX {
        n as usize
    } else {
        usize::MAX
    }
}

/// How many of the distinct texts of `a` occur in `b`.
fn count_common(a: &Vec<String>, b: &Vec<String>) -> (n: usize)
    requires
        texts(a@).no_duplicates(),
    ensures
        n == texts(a@).to_set().intersect(texts(b@).to_set()).len(),
        n <= a@.len(),
{
    let ghost other = texts(b@).to_set();
    let mut n: usize = 0;
    let mut i: usize = 0;
    proof {
        assert(texts(a@).take(0).to_set().intersect(other) =~= Set::<Seq<char>>::empty());
    }
    while i < a.len()
        invariant
            i <= a@.len(),
            n <= i,
            other == texts(b@).to_set(),
            texts(a@).no_duplicates(),
            n == texts(a@).take(i as int).to_set().intersect(other).len(),
        decreases a@.len() - i,
    {
        let ghost before = texts(a@).take(i as int);
        let ghost t = a@[i as int]@;
        proof {
            vstd::seq_lib::seq_to_set_is_finite(before);
            vstd::set_lib::lemma_len_intersect(before.to_set(), other);
            assert(texts(a@).take(i + 1) == before.push(t));
            before.lemma_push_to_set_commute(t);
            assert(!before.to_set().contains(t)) by {
                if before.contains(t) {
                    let k = choose|k: int| 0 <= k < before.len() && before[k] == t;
                    assert(texts(a@)[k] == texts(a@)[i as int]);
                }
            }
            if other.contains(t) {
                assert(before.push(t).to_set().intersect(other) =~= before.to_set().intersect(
                    other,
                ).insert(t));
            } else {
                assert(before.push(t).to_set().intersect(other) =~= before.to_set().intersect(
                    other,
                ));
            }
        }
        if holds_text(b, &a[i]) {
            n += 1;
        }
        i += 1;
    }
    proof {
        assert(texts(a@).take(a@.len() as int) == texts(a@));
    }
    n
}

/// The Jaccard similarity of the token sets of two texts, as a fraction:
/// the number of tokens that both texts have, and the number of tokens that
/// at least one of them has. The similarity is the first divided by the
/// second, and 0 where the second is 0.
pub fn jaccard_similarity(a: &str, b: &str) -> (r: (usize, usize))
    ensures
        r.0 == term_set(a@).intersect(term_set(b@)).len(),
        r.1 == saturated(term_set(a@).union(term_set(b@)).len()),
{
    let set_a = unique_terms(a);
    let set_b = unique_terms(b);
    let common = count_common(&set_a, &set_b);
    proof {
        texts(set_a@).unique_seq_to_set();
        texts(set_b@).unique_seq_to_set();
        vstd::seq_lib::seq_to_set_is_finite(tokens(a@));
        vstd::seq_lib::seq_to_set_is_finite(tokens(b@));
        vstd::set_lib::lemma_set_intersect_union_lens(term_set(a@), term_set(b@));
        vstd::set_lib::lemma_len_intersect(term_set(b@), term_set(a@));
        assert(term_set(b@).intersect(term_set(a@)) =~= term_set(a@).intersect(term_set(b@)));
    }
    let rest = set_b.len() - common;
    let all = if set_a.len() <= usize::MAX - rest {
        set_a.len() + rest
    } else {
        usize::MAX
    };
    (common, all)
}

/// The character n-grams of a text: nothing for an empty text or `n == 0`,
/// the text itself where it is shorter than `n`, else each run of `n`
/// characters in turn.
pub open spec fn ngrams(text: Seq<char>, n: nat) -> Seq<Seq<char>> {
    if text.len() == 0 || n == 0 {
        Seq::empty()
    } else if text.len() < n {
        seq![text]
    } else {
        Seq::new((text.len() - n + 1) as nat, |i: int| text.subrange(i, i + n))
    }
}

/// Splits a text into its n-grams of `n` characters.
pub fn create_ngrams(text: &str, n: usize) -> (r: Vec<String>)
    ensures
        texts(r@) == ngrams(text@, n as nat),
{
    let chars = chars_of(text);
    let mut out: Vec<String> = Vec::new();
    if chars.len() == 0 || n == 0 {
        assert(texts(out@) =~= Seq::<Seq<char>>::empty());
        return out;
    }
    if chars.len() < n {
        let whole = string_of(&chars, 0, chars.len());
        proof {
            assert(chars@.subrange(0, chars@.len() as int) == chars@);
            assert(texts(out@.push(whole)) =~= seq![text@]);
        }
        out.push(whole);
        return out;
    }
    let last = chars.len() - n;
    let mut i: usize = 0;
    while i <= last
        invariant
            i <= last + 1,
            n > 0,
            last + n == chars@.len() <= usize::MAX,
            chars@ == text@,
            out@.len() == i,
            forall|k: int| 0 <= k < i ==> (#[trigger] out@[k])@ == text@.subrange(k, k + n),
        decreases last + 1 - i,
    {
        let gram = string_of(&chars, i, i + n);
        out.push(gram);
        i += 1;
    }
    assert(texts(out@) =~= ngrams(text@, n as nat));
    out
}

/// The normal form of a text: lowercase, in compatibility decomposition,
/// without leading and trailing white space.
pub open spec fn normalized(text: Seq<char>) -> Seq<char> {
    trimmed(nfkd(lowercase(text)))
}

/// Normalizes a text for comparison.
pub fn normalize_text(text: &str) -> (r: String)
    ensures
        r@ == normalized(text@),
{
    let lowered = text.to_lowercase();
    let decomposed = nfkd_text(lowered.as_str());
    decomposed.as_str().trim().to_string()
}

/// The smallest of three numbers.
pub open spec fn min3(x: nat, y: nat, z: nat) -> nat {
    if x <= y && x <= z {
        x
    } else if y <= z {
        y
    } else {
        z
    }
}

/// The Levenshtein distance of two texts: the least number of characters to
/// insert, delete or replace to turn `a` into `b`.
pub open spec fn edit_distance(a: Seq<char>, b: Seq<char>) -> nat
    decreases a.len() + b.len(),
{
    if a.len() == 0 {
        b.len()
    } else if b.len() == 0 {
        a.len()
    } else {
        let cost: nat = if a.last() == b.last() { 0 } else { 1 };
        min3(
            edit_distance(a.drop_last(), b) + 1,
            edit_distance(a, b.drop_last()) + 1,
            edit_distance(a.drop_last(), b.drop_last()) + cost,
        )
    }
}

/// The distance of two texts is at most the length of the longer one.
pub proof fn lemma_edit_distance_bound(a: Seq<char>, b: Seq<char>)
    ensures
        edit_distance(a, b) <= a.len() || edit_distance(a, b) <= b.len(),
    decreases a.len() + b.len(),
{
    if a.len() > 0 && b.len() > 0 {
        lemma_edit_distance_bound(a.drop_last(), b.drop_last());
    }
}

/// The distance of a text to itself is 0.
pub proof fn lemma_edit_distance_same(a: Seq<char>)
    ensures
        edit_distance(a, a) == 0,
    decreases a.len(),
{
    if a.len() > 0 {
        lemma_edit_distance_same(a.drop_last());
    }
}

/// Only equal texts have the distance 0.
pub proof fn lemma_edit_distance_zero(a: Seq<char>, b: Seq<char>)
    requires
        edit_distance(a, b) == 0,
    ensures
        a == b,
    decreases a.len() + b.len(),
{
    if a.len() == 0 || b.len() == 0 {
        assert(a =~= b);
    } else {
        lemma_edit_distance_zero(a.drop_last(), b.drop_last());
        assert(a =~= a.drop_last().push(a.last()));
        assert(b =~= b.drop_last().push(b.last()));
    }
}

/// Levenshtein distance between two strings, counted in characters.
pub fn levenshtein_distance(a: &str, b: &str) -> (d: usize)
    ensures
        d == edit_distance(a@, b@),
{
    let a_chars = chars_of(a);
    let b_chars = chars_of(b);
    let a_len = a_chars.len();
    let b_len = b_chars.len();
    if a_len == 0 {
        return b_len;
    }
    if b_len == 0 {
        return a_len;
    }
    // row[j] is the distance between the first i characters of a and the first j + 1 of b
    let mut row: Vec<usize> = Vec::new();
    let mut j: usize = 0;
    while j < b_len
        invariant
            j <= b_len,
            b_len == b_chars@.len(),
            row@.len() == j,
            forall|k: int| 0 <= k < j ==> row@[k] == #[trigger] edit_distance(a_chars@.take(0), b_chars@.take(k + 1)),
        decreases b_len - j,
    {
        row.push(j + 1);
        j += 1;
    }
    let mut result: usize = b_len;
    let mut i: usize = 0;
    while i < a_len
        invariant
            i <= a_len,
            a_len == a_chars@.len(),
            b_len == b_chars@.len(),
            b_len > 0,
            row@.len() == b_len,
            forall|k: int| 0 <= k < b_len ==> row@[k] == #[trigger] edit_distance(a_chars@.take(i as int), b_chars@.take(k + 1)),
            result == edit_distance(a_chars@.take(i as int), b_chars@),
        decreases a_len - i,
    {
        // left: distance for (i + 1, j); diagonal: distance for (i, j)
        let mut left: usize = i + 1;
        let mut diagonal: usize = i;
        let mut j: usize = 0;
        while j < b_len
            invariant
                j <= b_len,
                i < a_len,
                a_len == a_chars@.len(),
                b_len == b_chars@.len(),
                row@.len() == b_len,
                left == edit_distance(a_chars@.take(i + 1), b_chars@.take(j as int)),
                diagonal == edit_distance(a_chars@.take(i as int), b_chars@.take(j as int)),
                forall|k: int| 0 <= k < j ==> row@[k] == #[trigger] edit_distance(a_chars@.take(i + 1), b_chars@.take(k + 1)),
                forall|k: int| j <= k < b_len ==> row@[k] == #[trigger] edit_distance(a_chars@.take(i as int), b_chars@.take(k + 1)),
            decreases b_len - j,
        {
            let up = row[j];
            let ghost pa = a_chars@.take(i + 1);
            let ghost pb = b_chars@.take(j + 1);
            proof {
                assert(pa.drop_last() == a_chars@.take(i as int));
                assert(pb.drop_last() == b_chars@.take(j as int));
                assert(pa.last() == a_chars@[i as int]);
                assert(pb.last() == b_chars@[j as int]);
                lemma_edit_distance_bound(a_chars@.take(i as int), b_chars@.take(j as int));
            }
            let cost: usize = if a_chars[i] == b_chars[j] { 0 } else { 1 };
            let mut best = diagonal + cost;
            if left < best {
                best = left + 1;
            }
            if up < best {
                best = up + 1;
            }
            proof {
                assert(up == edit_distance(pa.drop_last(), pb));
                assert(left == edit_distance(pa, pb.drop_last()));
                assert(diagonal == edit_distance(pa.drop_last(), pb.drop_last()));
                assert(pa.len() > 0 && pb.len() > 0);
            }
            assert(best == edit_distance(pa, pb));
            diagonal = up;
            left = best;
            row.set(j, best);
            j += 1;
        }
        proof {
            assert(b_chars@.take(b_len as int) == b_chars@);
        }
        result = left;
        i += 1;
    }
    proof {
        assert(a_chars@.take(a_len as int) == a_chars@);
    }
    result
}

} // verus!
