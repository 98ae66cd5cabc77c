//! The ranked agent: an index of term frequencies for BM25 scoring, and the
//! choice of the answer from the scores of the documents.

use vstd::prelude::*;
use indexmap::IndexMap;
use crate::agent::{
    copy_examples, corpus_view, no_match, no_training_data, AgentError, AnswerView, ExampleView,
    ResponseFormat, TrainingExample, ONE_BITS,
};
use crate::agent::text_utils::{tokenize, tokens, texts};

verus! {

/// An insertion-ordered hash map of the crate `indexmap`.
#[verifier::external_type_specification]
#[verifier::external_body]
#[verifier::reject_recursive_types(K)]
#[verifier::reject_recursive_types(V)]
#[verifier::reject_recursive_types(S)]
pub struct ExIndexMap<K, V, S>(IndexMap<K, V, S>);

/// The count that a map from terms to counts holds for each term.
pub uninterp spec fn term_counts(m: IndexMap<String, usize>) -> Map<Seq<char>, usize>;

/// `IndexMap::new` makes a map without entries.
#[verifier::external_body]
fn counts_new() -> (m: IndexMap<String, usize>)
    ensures
        term_counts(m).dom() =~= Set::empty(),
{
    IndexMap::new()
}

/// `IndexMap::get` returns the value stored for the key, if there is one.
#[verifier::external_body]
fn counts_get(m: &IndexMap<String, usize>, term: &str) -> (r: Option<usize>)
    ensures
        r is Some <==> term_counts(*m).contains_key(term@),
        r is Some ==> r->Some_0 == term_counts(*m)[term@],
{
    m.get(term).copied()
}

/// `IndexMap::insert` stores the value for the key, in place of the value
/// that the key had, and leaves the other entries as they are.
#[verifier::external_body]
fn counts_insert(m: &mut IndexMap<String, usize>, term: String, count: usize)
    ensures
        term_counts(*final(m)) == term_counts(*old(m)).insert(term@, count),
{
    m.insert(term, count);
}

/// How often `term` occurs in a sequence of tokens.
pub open spec fn occurrences(found: Seq<Seq<char>>, term: Seq<char>) -> nat
    decreases found.len(),
{
    if found.len() == 0 {
        0
    } else {
        occurrences(found.drop_last(), term) + if found.last() == term {
            1nat
        } else {
            0nat
        }
    }
}

/// In how many documents of the corpus `term` occurs at least once.
pub open spec fn document_frequency(corpus: Seq<ExampleView>, term: Seq<char>) -> nat
    decreases corpus.len(),
{
    if corpus.len() == 0 {
        0
    } else {
        document_frequency(corpus.drop_last(), term) + if tokens(corpus.last().input).contains(
            term,
        ) {
            1nat
        } else {
            0nat
        }
    }
}

/// A term occurs in a sequence of tokens exactly where its number of
/// occurrences is positive, and never more often than the sequence is long.
pub proof fn lemma_occurrences(found: Seq<Seq<char>>, term: Seq<char>)
    ensures
        occurrences(found, term) > 0 <==> found.contains(term),
        occurrences(found, term) <= found.len(),
    decreases found.len(),
{
    if found.len() > 0 {
        lemma_occurrences(found.drop_last(), term);
        if found.drop_last().contains(term) {
            let k = choose|k: int| 0 <= k < found.drop_last().len() && found.drop_last()[k] == term;
            assert(found[k] == term);
        }
        if found.contains(term) && found.last() != term {
            let k = choose|k: int| 0 <= k < found.len() && found[k] == term;
            assert(found.drop_last()[k] == term);
        }
        if found.last() == term {
            assert(found[found.len() - 1] == term);
        }
    }
}

/// A term occurs in no more documents than the corpus has, and in none
/// where no document holds it.
pub proof fn lemma_document_frequency(corpus: Seq<ExampleView>, term: Seq<char>)
    ensures
        document_frequency(corpus, term) <= corpus.len(),
        document_frequency(corpus, term) > 0 <==> exists|i: int|
            0 <= i < corpus.len() && #[trigger] tokens(corpus[i].input).contains(term),
    decreases corpus.len(),
{
    if corpus.len() > 0 {
        let rest = corpus.drop_last();
        lemma_document_frequency(rest, term);
        if exists|i: int| 0 <= i < rest.len() && #[trigger] tokens(rest[i].input).contains(term) {
            let i = choose|i: int|
                0 <= i < rest.len() && #[trigger] tokens(rest[i].input).contains(term);
            assert(tokens(corpus[i].input).contains(term));
        }
        if exists|i: int|
            0 <= i < corpus.len() && #[trigger] tokens(corpus[i].input).contains(term) {
            let i = choose|i: int|
                0 <= i < corpus.len() && #[trigger] tokens(corpus[i].input).contains(term);
            if i < rest.len() {
                assert(tokens(rest[i].input).contains(term));
            }
        }
        if tokens(corpus.last().input).contains(term) {
            assert(tokens(corpus[corpus.len() - 1].input).contains(term));
        }
    }
}

/// Whether a table holds, for each term of `found`, how often it occurs
/// there, and nothing else.
pub open spec fn term_frequency_table(table: Map<Seq<char>, usize>, found: Seq<Seq<char>>) -> bool {
    forall|t: Seq<char>|
        {
            &&& #[trigger] table.contains_key(t) <==> occurrences(found, t) > 0
            &&& table.contains_key(t) ==> table[t] == occurrences(found, t)
        }
}

/// Whether a table holds, for each term, the number of documents of
/// `corpus` with it, one more for a term of `seen`, and nothing else.
pub open spec fn document_frequency_table(
    table: Map<Seq<char>, usize>,
    corpus: Seq<ExampleView>,
    seen: Seq<Seq<char>>,
) -> bool {
    forall|t: Seq<char>|
        {
            &&& #[trigger] table.contains_key(t) <==> document_frequency(corpus, t) + occurrences(
                seen,
                t,
            ) > 0
            &&& table.contains_key(t) ==> table[t] == document_frequency(corpus, t) + if seen.contains(
                t,
            ) {
                1nat
            } else {
                0nat
            }
        }
}

/// Counts the terms of one document: returns its table of term
/// frequencies, and adds the document to the table of document frequencies.
fn index_document(
    found: &Vec<String>,
    term_df: &mut IndexMap<String, usize>,
    Ghost(corpus): Ghost<Seq<ExampleView>>,
) -> (doc_terms: IndexMap<String, usize>)
    requires
        document_frequency_table(term_counts(*old(term_df)), corpus, Seq::empty()),
        corpus.len() < usize::MAX,
    ensures
        term_frequency_table(term_counts(doc_terms), texts(found@)),
        document_frequency_table(term_counts(*final(term_df)), corpus, texts(found@)),
{
    let mut doc_terms = counts_new();
    let ghost all = texts(found@);
    let mut j: usize = 0;
    proof {
        assert(all.take(0) =~= Seq::<Seq<char>>::empty());
    }
    while j < found.len()
        invariant
            j <= found@.len(),
            all == texts(found@),
            corpus.len() < usize::MAX,
            term_frequency_table(term_counts(doc_terms), all.take(j as int)),
            document_frequency_table(term_counts(*term_df), corpus, all.take(j as int)),
        decreases found@.len() - j,
    {
        let ghost before = all.take(j as int);
        let ghost after = all.take(j + 1);
        let ghost term = found@[j as int]@;
        let ghost old_tf = term_counts(doc_terms);
        let ghost old_df = term_counts(*term_df);
        proof {
            assert(after.drop_last() == before);
            assert(after.last() == term);
            lemma_occurrences(before, term);
            lemma_document_frequency(corpus, term);
            assert(old_tf.contains_key(term) <==> occurrences(before, term) > 0);
            assert(old_df.contains_key(term) <==> document_frequency(corpus, term) + occurrences(
                before,
                term,
            ) > 0);
        }
        match counts_get(&doc_terms, found[j].as_str()) {
            Some(count) => {
                counts_insert(&mut doc_terms, found[j].clone(), count + 1);
            },
            None => {
                counts_insert(&mut doc_terms, found[j].clone(), 1);
                match counts_get(term_df, found[j].as_str()) {
                    Some(count) => {
                        counts_insert(term_df, found[j].clone(), count + 1);
                    },
                    None => {
                        counts_insert(term_df, found[j].clone(), 1);
                    },
                }
            },
        }
        proof {
            let new_tf = term_counts(doc_terms);
            let new_df = term_counts(*term_df);
            assert forall|t: Seq<char>|
                {
                    &&& #[trigger] new_tf.contains_key(t) <==> occurrences(after, t) > 0
                    &&& new_tf.contains_key(t) ==> new_tf[t] == occurrences(after, t)
                } by {
                assert(old_tf.contains_key(t) <==> occurrences(before, t) > 0);
            }
            assert forall|t: Seq<char>|
                {
                    &&& #[trigger] new_df.contains_key(t) <==> document_frequency(corpus, t)
                        + occurrences(after, t) > 0
                    &&& new_df.contains_key(t) ==> new_df[t] == document_frequency(corpus, t)
                        + if after.contains(t) {
                        1nat
                    } else {
                        0nat
                    }
                } by {
                lemma_occurrences(before, t);
                lemma_occurrences(after, t);
                assert(old_df.contains_key(t) <==> document_frequency(corpus, t) + occurrences(
                    before,
                    t,
                ) > 0);
            }
        }
        j += 1;
    }
    proof {
        assert(all.take(found@.len() as int) == all);
    }
    doc_terms
}

/// The bit pattern of the single-precision number 1.2.
pub const DEFAULT_K1_BITS: u32 = 0x3F99_999A;

/// The bit pattern of the single-precision number 0.75.
pub const DEFAULT_B_BITS: u32 = 0x3F40_0000;

/// Whether `bits` is the bit pattern of a positive, finite single-precision
/// number: the sign is clear, and the rest is neither zero nor an infinity
/// nor a NaN.
pub open spec fn is_positive_number(bits: u32) -> bool {
    0 < bits < 0x7F80_0000
}

/// Whether `bits` is the bit pattern of a single-precision number between
/// 0.0 and 1.0, the bounds included.
pub open spec fn is_share(bits: u32) -> bool {
    bits <= ONE_BITS || bits == 0x8000_0000
}

/// The frequencies that BM25 needs of one term in one document.
#[derive(Clone, Copy, Debug, PartialEq, Eq)]
pub struct TermStat {
    /// How often the term occurs in the document.
    pub tf: usize,
    /// In how many documents the term occurs.
    pub df: usize,
}

/// What BM25 needs to score one document against a query.
#[derive(Debug, PartialEq)]
pub struct ScoreInput {
    /// The number of tokens of the document.
    pub doc_len: usize,
    /// The weight of the document's example, as a bit pattern.
    pub weight_bits: u32,
    /// The frequencies of each token of the query that occurs in the
    /// document, in the order of the query, a repeated token repeated.
    pub terms: Vec<TermStat>,
}

/// What BM25 needs to score one document, as a mathematical value.
pub struct ScoreInputView {
    pub doc_len: nat,
    pub weight_bits: u32,
    pub terms: Seq<TermStat>,
}

impl View for ScoreInput {
    type V = ScoreInputView;

    open spec fn view(&self) -> ScoreInputView {
        ScoreInputView {
            doc_len: self.doc_len as nat,
            weight_bits: self.weight_bits,
            terms: self.terms@,
        }
    }
}

/// The frequencies of `term` in document `i` of the corpus.
pub open spec fn term_stat(corpus: Seq<ExampleView>, i: int, term: Seq<char>) -> TermStat {
    TermStat {
        tf: occurrences(tokens(corpus[i].input), term) as usize,
        df: document_frequency(corpus, term) as usize,
    }
}

/// The frequencies of each of the tokens `asked` that occurs in document
/// `i`, in the order of `asked`.
pub open spec fn term_stats(corpus: Seq<ExampleView>, i: int, asked: Seq<Seq<char>>) -> Seq<
    TermStat,
>
    decreases asked.len(),
{
    if asked.len() == 0 {
        Seq::empty()
    } else {
        let before = term_stats(corpus, i, asked.drop_last());
        if tokens(corpus[i].input).contains(asked.last()) {
            before.push(term_stat(corpus, i, asked.last()))
        } else {
            before
        }
    }
}

/// What BM25 needs to score document `i` against the query.
pub open spec fn score_input(corpus: Seq<ExampleView>, query: Seq<char>, i: int) -> ScoreInputView {
    ScoreInputView {
        doc_len: tokens(corpus[i].input).len(),
        weight_bits: corpus[i].weight_bits,
        terms: term_stats(corpus, i, tokens(query)),
    }
}

/// Whether document `i` has a token of the query.
pub open spec fn relevant(corpus: Seq<ExampleView>, query: Seq<char>, i: int) -> bool {
    exists|t: Seq<char>| #[trigger]
        tokens(query).contains(t) && tokens(corpus[i].input).contains(t)
}

/// The integer that stands for a score given as the bit pattern of a
/// single-precision number: it is 0 for a NaN, else it has the sign of the
/// score and grows with it, so that keys are ordered as the scores are and
/// are positive exactly where the score is.
pub open spec fn score_key(bits: u32) -> int {
    let magnitude = bits % 0x8000_0000;
    if magnitude > 0x7F80_0000 {
        0
    } else if bits >= 0x8000_0000 {
        -magnitude
    } else {
        magnitude as int
    }
}

/// The key by which document `i` is ranked: that of the score that was
/// given for it where it has a token of the query, else 0.
pub open spec fn rank_key(corpus: Seq<ExampleView>, query: Seq<char>, scores: Seq<u32>, i: int) -> int {
    if 0 <= i < scores.len() && relevant(corpus, query, i) {
        score_key(scores[i])
    } else {
        0
    }
}

/// The integer that stands for a score.
pub fn key_of_score(bits: u32) -> (key: i64)
    ensures
        key == score_key(bits),
{
    let magnitude = bits % 0x8000_0000;
    if magnitude > 0x7F80_0000 {
        0
    } else if bits >= 0x8000_0000 {
        -(magnitude as i64)
    } else {
        magnitude as i64
    }
}

/// Whether document `i` is ranked first: its key is larger than that of
/// each document before it, and no smaller than that of any after it.
pub open spec fn top_ranked(
    corpus: Seq<ExampleView>,
    query: Seq<char>,
    scores: Seq<u32>,
    i: int,
) -> bool {
    &&& 0 <= i < corpus.len()
    &&& forall|j: int|
        0 <= j < corpus.len() ==> {
            &&& rank_key(corpus, query, scores, i) >= #[trigger] rank_key(corpus, query, scores, j)
            &&& j < i ==> rank_key(corpus, query, scores, i) > rank_key(corpus, query, scores, j)
        }
}

/// Whether document `i` is ranked first with a positive key.
pub open spec fn best_ranked(
    corpus: Seq<ExampleView>,
    query: Seq<char>,
    scores: Seq<u32>,
    i: int,
) -> bool {
    top_ranked(corpus, query, scores, i) && rank_key(corpus, query, scores, i) > 0
}

/// The answer of the ranked agent to a query, given the scores of its
/// documents: that there is no training data where it has no documents,
/// the answer of the document that is ranked first where its key is
/// positive, else that there is no match.
pub open spec fn ranked_answer(corpus: Seq<ExampleView>, query: Seq<char>, scores: Seq<u32>) -> AnswerView {
    if corpus.len() == 0 {
        no_training_data()
    } else if exists|i: int| best_ranked(corpus, query, scores, i) {
        corpus[choose|i: int| best_ranked(corpus, query, scores, i)].output
    } else {
        no_match()
    }
}

/// An agent that ranks its documents against a query by BM25.
pub struct TfidfAgent {
    docs: Vec<TrainingExample>,
    term_df: IndexMap<String, usize>,
    doc_term_freq: Vec<IndexMap<String, usize>>,
    doc_lengths: Vec<usize>,
    bm25_k1_bits: u32,
    bm25_b_bits: u32,
}

impl TfidfAgent {
    #[verifier::type_invariant]
    spec fn indexed(self) -> bool {
        let corpus = corpus_view(self.docs@);
        &&& self.doc_term_freq@.len() == self.docs@.len()
        &&& self.doc_lengths@.len() == self.docs@.len()
        &&& document_frequency_table(term_counts(self.term_df), corpus, Seq::empty())
        &&& forall|i: int|
            0 <= i < self.docs@.len() ==> {
                &&& term_frequency_table(
                    term_counts(#[trigger] self.doc_term_freq@[i]),
                    tokens(corpus[i].input),
                )
                &&& self.doc_lengths@[i] == tokens(corpus[i].input).len()
            }
    }

    /// The documents that the agent holds.
    pub closed spec fn corpus(&self) -> Seq<ExampleView> {
        corpus_view(self.docs@)
    }

    /// The parameter k1 of BM25, as a bit pattern.
    pub closed spec fn k1(&self) -> u32 {
        self.bm25_k1_bits
    }

    /// The parameter b of BM25, as a bit pattern.
    pub closed spec fn b(&self) -> u32 {
        self.bm25_b_bits
    }

    /// An agent without documents, with k1 = 1.2 and b = 0.75.
    pub fn new() -> (r: Self)
        ensures
            r.corpus() == Seq::<ExampleView>::empty(),
            r.k1() == DEFAULT_K1_BITS,
            r.b() == DEFAULT_B_BITS,
    {
        let r = TfidfAgent {
            docs: Vec::new(),
            term_df: counts_new(),
            doc_term_freq: Vec::new(),
            doc_lengths: Vec::new(),
            bm25_k1_bits: DEFAULT_K1_BITS,
            bm25_b_bits: DEFAULT_B_BITS,
        };
        assert(r.corpus() =~= Seq::<ExampleView>::empty());
        r
    }

    /// The same agent with other parameters of BM25, given as the bit
    /// patterns of single-precision numbers: k1 must be positive and finite,
    /// b between 0.0 and 1.0. Other parameters are refused.
    pub fn with_bm25_params(self, k1_bits: u32, b_bits: u32) -> (r: Result<Self, AgentError>)
        ensures
            is_positive_number(k1_bits) && is_share(b_bits) ==> r is Ok && r->Ok_0.corpus()
                == self.corpus() && r->Ok_0.k1() == k1_bits && r->Ok_0.b() == b_bits,
            !(is_positive_number(k1_bits) && is_share(b_bits)) ==> r is Err
                && r->Err_0 is InvalidInputError,
    {
        proof {
            use_type_invariant(&self);
        }
        if 0 < k1_bits && k1_bits < 0x7F80_0000 && (b_bits <= ONE_BITS || b_bits == 0x8000_0000) {
            Ok(
                TfidfAgent {
                    docs: self.docs,
                    term_df: self.term_df,
                    doc_term_freq: self.doc_term_freq,
                    doc_lengths: self.doc_lengths,
                    bm25_k1_bits: k1_bits,
                    bm25_b_bits: b_bits,
                },
            )
        } else {
            Err(
                AgentError::InvalidInputError(
                    "k1 must be positive and b between 0 and 1".to_string(),
                ),
            )
        }
    }

    /// The parameter k1 of BM25, as the bit pattern of a single-precision number.
    pub fn k1_bits(&self) -> (r: u32)
        ensures
            r == self.k1(),
    {
        self.bm25_k1_bits
    }

    /// The parameter b of BM25, as the bit pattern of a single-precision number.
    pub fn b_bits(&self) -> (r: u32)
        ensures
            r == self.b(),
    {
        self.bm25_b_bits
    }

    /// The number of documents.
    pub fn doc_count(&self) -> (r: usize)
        ensures
            r == self.corpus().len(),
    {
        self.docs.len()
    }

    /// Replaces the documents of the agent by a copy of `data`, and builds
    /// the tables of term and document frequencies anew.
    pub fn train(&mut self, data: &[TrainingExample])
        ensures
            final(self).corpus() == corpus_view(data@),
            final(self).k1() == old(self).k1(),
            final(self).b() == old(self).b(),
    {
        let docs = copy_examples(data);
        let ghost corpus = corpus_view(docs@);
        let mut term_df = counts_new();
        let mut doc_term_freq: Vec<IndexMap<String, usize>> = Vec::new();
        let mut doc_lengths: Vec<usize> = Vec::new();
        let mut i: usize = 0;
        proof {
            assert(corpus.take(0) =~= Seq::<ExampleView>::empty());
            assert forall|t: Seq<char>| occurrences(Seq::empty(), t) == 0 by {}
        }
        while i < docs.len()
            invariant
                i <= docs@.len(),
                corpus == corpus_view(docs@),
                doc_term_freq@.len() == i,
                doc_lengths@.len() == i,
                document_frequency_table(term_counts(term_df), corpus.take(i as int), Seq::empty()),
                forall|k: int|
                    0 <= k < i ==> {
                        &&& term_frequency_table(
                            term_counts(#[trigger] doc_term_freq@[k]),
                            tokens(corpus[k].input),
                        )
                        &&& doc_lengths@[k] == tokens(corpus[k].input).len()
                    },
            decreases docs@.len() - i,
        {
            let terms = tokenize(docs[i].input.as_str());
            let doc_terms = index_document(&terms, &mut term_df, Ghost(corpus.take(i as int)));
            proof {
                let found = tokens(corpus[i as int].input);
                assert(texts(terms@) == found);
                assert(corpus.take(i + 1).drop_last() == corpus.take(i as int));
                assert(corpus.take(i + 1).last() == corpus[i as int]);
                assert forall|t: Seq<char>|
                    {
                        &&& #[trigger] term_counts(term_df).contains_key(t) <==> document_frequency(
                            corpus.take(i + 1),
                            t,
                        ) + occurrences(Seq::empty(), t) > 0
                        &&& term_counts(term_df).contains_key(t) ==> term_counts(term_df)[t]
                            == document_frequency(corpus.take(i + 1), t) + if Seq::<
                            Seq<char>,
                        >::empty().contains(t) {
                            1nat
                        } else {
                            0nat
                        }
                    } by {
                    lemma_occurrences(found, t);
                    assert(term_counts(term_df).contains_key(t) <==> document_frequency(
                        corpus.take(i as int),
                        t,
                    ) + occurrences(found, t) > 0);
                }
            }
            doc_term_freq.push(doc_terms);
            doc_lengths.push(terms.len());
            i += 1;
        }
        proof {
            assert(corpus.take(docs@.len() as int) == corpus);
        }
        *self = TfidfAgent {
            docs,
            term_df,
            doc_term_freq,
            doc_lengths,
            bm25_k1_bits: self.bm25_k1_bits,
            bm25_b_bits: self.bm25_b_bits,
        };
    }
    /// The frequencies of each token of the query that occurs in document `i`.
    fn document_stats(&self, i: usize, asked: &Vec<String>) -> (r: Vec<TermStat>)
        requires
            i < self.docs@.len(),
        ensures
            r@ == term_stats(self.corpus(), i as int, texts(asked@)),
    {
        proof {
            use_type_invariant(self);
        }
        let ghost corpus = self.corpus();
        let ghost found = tokens(corpus[i as int].input);
        let mut stats: Vec<TermStat> = Vec::new();
        let mut j: usize = 0;
        proof {
            assert(texts(asked@).take(0) =~= Seq::<Seq<char>>::empty());
        }
        while j < asked.len()
            invariant
                j <= asked@.len(),
                i < self.docs@.len(),
                corpus == corpus_view(self.docs@),
                found == tokens(corpus[i as int].input),
                self.doc_term_freq@.len() == self.docs@.len(),
                term_frequency_table(term_counts(self.doc_term_freq@[i as int]), found),
                document_frequency_table(term_counts(self.term_df), corpus, Seq::empty()),
                stats@ == term_stats(corpus, i as int, texts(asked@).take(j as int)),
            decreases asked@.len() - j,
        {
            let ghost term = asked@[j as int]@;
            proof {
                assert(texts(asked@).take(j + 1).drop_last() == texts(asked@).take(j as int));
                assert(texts(asked@).take(j + 1).last() == term);
                lemma_occurrences(found, term);
                lemma_document_frequency(corpus, term);
                assert(term_counts(self.doc_term_freq@[i as int]).contains_key(term)
                    <==> occurrences(found, term) > 0);
                assert(term_counts(self.term_df).contains_key(term) <==> document_frequency(
                    corpus,
                    term,
                ) + occurrences(Seq::empty(), term) > 0);
            }
            match counts_get(&self.doc_term_freq[i], asked[j].as_str()) {
                Some(tf) => {
                    let in_corpus = counts_get(&self.term_df, asked[j].as_str());
                    proof {
                        assert(tokens(corpus[i as int].input).contains(term));
                        assert(in_corpus is Some);
                    }
                    match in_corpus {
                        Some(df) => {
                            stats.push(TermStat { tf, df });
                        },
                        None => {},
                    }
                },
                None => {},
            }
            j += 1;
        }
        proof {
            assert(texts(asked@).take(asked@.len() as int) == texts(asked@));
        }
        stats
    }

    /// What BM25 needs to score each document against the query, in the
    /// order of the documents.
    pub fn score_inputs(&self, input: &str) -> (plan: Vec<ScoreInput>)
        ensures
            plan@.len() == self.corpus().len(),
            forall|i: int|
                0 <= i < plan@.len() ==> (#[trigger] plan@[i])@ == score_input(
                    self.corpus(),
                    input@,
                    i,
                ),
    {
        proof {
            use_type_invariant(self);
        }
        let asked = tokenize(input);
        let mut plan: Vec<ScoreInput> = Vec::new();
        let mut i: usize = 0;
        proof {
            assert forall|k: int| 0 <= k < self.docs@.len() implies #[trigger] self.doc_lengths@[k]
                == tokens(corpus_view(self.docs@)[k].input).len() by {
                assert(term_frequency_table(
                    term_counts(self.doc_term_freq@[k]),
                    tokens(corpus_view(self.docs@)[k].input),
                ));
            }
        }
        while i < self.docs.len()
            invariant
                i <= self.docs@.len(),
                self.doc_lengths@.len() == self.docs@.len(),
                texts(asked@) == tokens(input@),
                forall|k: int|
                    0 <= k < self.docs@.len() ==> #[trigger] self.doc_lengths@[k] == tokens(
                        corpus_view(self.docs@)[k].input,
                    ).len(),
                plan@.len() == i,
                forall|k: int|
                    0 <= k < i ==> (#[trigger] plan@[k])@ == score_input(
                        corpus_view(self.docs@),
                        input@,
                        k,
                    ),
            decreases self.docs@.len() - i,
        {
            let terms = self.document_stats(i, &asked);
            plan.push(
                ScoreInput {
                    doc_len: self.doc_lengths[i],
                    weight_bits: self.docs[i].weight_bits,
                    terms,
                },
            );
            i += 1;
        }
        plan
    }

    /// Whether document `i` has one of the tokens `asked`.
    fn has_any(&self, i: usize, asked: &Vec<String>) -> (r: bool)
        requires
            i < self.docs@.len(),
        ensures
            r == exists|t: Seq<char>| #[trigger]
                texts(asked@).contains(t) && tokens(self.corpus()[i as int].input).contains(t),
    {
        proof {
            use_type_invariant(self);
        }
        let ghost corpus = self.corpus();
        let ghost found = tokens(corpus[i as int].input);
        let mut j: usize = 0;
        while j < asked.len()
            invariant
                j <= asked@.len(),
                i < self.docs@.len(),
                self.doc_term_freq@.len() == self.docs@.len(),
                found == tokens(corpus_view(self.docs@)[i as int].input),
                term_frequency_table(term_counts(self.doc_term_freq@[i as int]), found),
                forall|k: int| 0 <= k < j ==> !found.contains(#[trigger] texts(asked@)[k]),
            decreases asked@.len() - j,
        {
            let ghost term = asked@[j as int]@;
            proof {
                lemma_occurrences(found, term);
                assert(term_counts(self.doc_term_freq@[i as int]).contains_key(term)
                    <==> occurrences(found, term) > 0);
                assert(texts(asked@)[j as int] == term);
            }
            if counts_get(&self.doc_term_freq[i], asked[j].as_str()).is_some() {
                proof {
                    assert(texts(asked@).contains(term) && found.contains(term));
                }
                return true;
            }
            j += 1;
        }
        proof {
            assert forall|t: Seq<char>| !(#[trigger] texts(asked@).contains(t) && found.contains(
                t,
            )) by {
                if texts(asked@).contains(t) {
                    let k = choose|k: int| 0 <= k < texts(asked@).len() && texts(asked@)[k] == t;
                    assert(!found.contains(texts(asked@)[k]));
                }
            }
        }
        false
    }

    /// The answer to a query, given the BM25 score of each document as the
    /// bit pattern of a single-precision number. A document without a token
    /// of the query counts as scoring 0, whatever was given for it, as does
    /// one for which nothing was given; so a query without a token that
    /// occurs in a document gets the answer that there is no match.
    pub fn predict(&self, input: &str, scores: &[u32]) -> (r: ResponseFormat)
        ensures
            r@ == ranked_answer(self.corpus(), input@, scores@),
            self.corpus().len() > 0 && (forall|i: int|
                0 <= i < self.corpus().len() ==> !relevant(self.corpus(), input@, i)) ==> r@
                == no_match(),
    {
        proof {
            if self.corpus().len() > 0 && (forall|i: int|
                0 <= i < self.corpus().len() ==> !relevant(self.corpus(), input@, i)) {
                lemma_no_shared_term_no_match(self.corpus(), input@, scores@);
            }
        }
        if self.docs.len() == 0 {
            assert(self.corpus().len() == 0);
            return ResponseFormat::Text("No training data available.".to_string());
        }
        let ghost corpus = self.corpus();
        let asked = tokenize(input);
        let mut best: usize = 0;
        let mut best_key: i64 = 0;
        let mut i: usize = 0;
        while i < self.docs.len()
            invariant
                i <= self.docs@.len(),
                self.docs@.len() > 0,
                corpus == corpus_view(self.docs@),
                texts(asked@) == tokens(input@),
                i == 0 ==> best == 0 && best_key == 0,
                i > 0 ==> best < i && best_key == rank_key(corpus, input@, scores@, best as int),
                forall|j: int|
                    0 <= j < i ==> {
                        &&& best_key >= #[trigger] rank_key(corpus, input@, scores@, j)
                        &&& j < best ==> best_key > rank_key(corpus, input@, scores@, j)
                    },
            decreases self.docs@.len() - i,
        {
            let key = if i < scores.len() && self.has_any(i, &asked) {
                key_of_score(scores[i])
            } else {
                0
            };
            assert(key == rank_key(corpus, input@, scores@, i as int));
            if i == 0 || key > best_key {
                best = i;
                best_key = key;
            }
            i += 1;
        }
        proof {
            assert(top_ranked(corpus, input@, scores@, best as int));
        }
        if best_key > 0 {
            proof {
                assert(best_ranked(corpus, input@, scores@, best as int));
                let c = choose|c: int| best_ranked(corpus, input@, scores@, c);
                assert(c == best) by {
                    assert(rank_key(corpus, input@, scores@, c) >= rank_key(
                        corpus,
                        input@,
                        scores@,
                        best as int,
                    ));
                    assert(rank_key(corpus, input@, scores@, best as int) >= rank_key(
                        corpus,
                        input@,
                        scores@,
                        c,
                    ));
                }
            }
            self.docs[best].output.clone()
        } else {
            proof {
                assert forall|c: int| !best_ranked(corpus, input@, scores@, c) by {
                    if top_ranked(corpus, input@, scores@, c) {
                        assert(rank_key(corpus, input@, scores@, best as int) >= rank_key(
                            corpus,
                            input@,
                            scores@,
                            c,
                        ));
                    }
                }
            }
            ResponseFormat::Text("No matching answer found.".to_string())
        }
    }
}

impl Default for TfidfAgent {
    fn default() -> (r: Self)
        ensures
            r.corpus() == Seq::<ExampleView>::empty(),
            r.k1() == DEFAULT_K1_BITS,
            r.b() == DEFAULT_B_BITS,
    {
        Self::new()
    }
}

/// A query without a token that occurs in a document gets the answer that
/// there is no match, whatever the scores are.
pub proof fn lemma_no_shared_term_no_match(
    corpus: Seq<ExampleView>,
    query: Seq<char>,
    scores: Seq<u32>,
)
    requires
        corpus.len() > 0,
        forall|i: int| 0 <= i < corpus.len() ==> !relevant(corpus, query, i),
    ensures
        ranked_answer(corpus, query, scores) == no_match(),
{
    assert forall|i: int| !best_ranked(corpus, query, scores, i) by {
        if 0 <= i < corpus.len() {
            assert(!relevant(corpus, query, i));
        }
    }
}

/// Where only one document has a token of the query, and its key is
/// positive, it is ranked above every other document, and its answer is
/// the answer to the query.
pub proof fn lemma_only_relevant_document_wins(
    corpus: Seq<ExampleView>,
    query: Seq<char>,
    scores: Seq<u32>,
    d: int,
)
    requires
        0 <= d < corpus.len(),
        d < scores.len(),
        score_key(scores[d]) > 0,
        relevant(corpus, query, d),
        forall|j: int| 0 <= j < corpus.len() && j != d ==> !relevant(corpus, query, j),
    ensures
        forall|j: int|
            0 <= j < corpus.len() && j != d ==> rank_key(corpus, query, scores, d) > #[trigger] rank_key(
                corpus,
                query,
                scores,
                j,
            ),
        ranked_answer(corpus, query, scores) == corpus[d].output,
{
    assert forall|j: int| 0 <= j < corpus.len() && j != d implies rank_key(corpus, query, scores, d)
        > #[trigger] rank_key(corpus, query, scores, j) by {
        assert(!relevant(corpus, query, j));
    }
    assert(best_ranked(corpus, query, scores, d));
    let c = choose|c: int| best_ranked(corpus, query, scores, c);
    assert(c == d) by {
        if c != d {
            assert(rank_key(corpus, query, scores, d) > rank_key(corpus, query, scores, c));
            assert(rank_key(corpus, query, scores, c) >= rank_key(corpus, query, scores, d));
        }
    }
}

/// Among the first `n` documents, one has the largest key and is the first
/// to have it.
proof fn lemma_top_among(corpus: Seq<ExampleView>, query: Seq<char>, scores: Seq<u32>, n: int) -> (b:
    int)
    requires
        0 < n <= corpus.len(),
    ensures
        0 <= b < n,
        forall|j: int|
            0 <= j < n ==> {
                &&& rank_key(corpus, query, scores, b) >= #[trigger] rank_key(
                    corpus,
                    query,
                    scores,
                    j,
                )
                &&& j < b ==> rank_key(corpus, query, scores, b) > rank_key(
                    corpus,
                    query,
                    scores,
                    j,
                )
            },
    decreases n,
{
    if n == 1 {
        0
    } else {
        let before = lemma_top_among(corpus, query, scores, n - 1);
        if rank_key(corpus, query, scores, n - 1) > rank_key(corpus, query, scores, before) {
            n - 1
        } else {
            before
        }
    }
}

/// Of documents, one is ranked first.
pub proof fn lemma_top_ranked_exists(corpus: Seq<ExampleView>, query: Seq<char>, scores: Seq<u32>)
    requires
        corpus.len() > 0,
    ensures
        exists|i: int| top_ranked(corpus, query, scores, i),
{
    let b = lemma_top_among(corpus, query, scores, corpus.len() as int);
    assert(top_ranked(corpus, query, scores, b));
}

/// The ranked agent with documents gives the answer of the document that
/// is ranked first where the key of that document is positive, and says
/// that there is no match where it is 0 or less.
pub proof fn lemma_ranked_answer_cases(
    corpus: Seq<ExampleView>,
    query: Seq<char>,
    scores: Seq<u32>,
)
    requires
        corpus.len() > 0,
    ensures
        exists|i: int|
            #[trigger] top_ranked(corpus, query, scores, i) && ranked_answer(corpus, query, scores)
                == (if rank_key(corpus, query, scores, i) > 0 {
                corpus[i].output
            } else {
                no_match()
            }),
{
    lemma_top_ranked_exists(corpus, query, scores);
    let t = choose|i: int| top_ranked(corpus, query, scores, i);
    if rank_key(corpus, query, scores, t) > 0 {
        assert(best_ranked(corpus, query, scores, t));
        let c = choose|c: int| best_ranked(corpus, query, scores, c);
        assert(c == t) by {
            assert(rank_key(corpus, query, scores, c) >= rank_key(corpus, query, scores, t));
            assert(rank_key(corpus, query, scores, t) >= rank_key(corpus, query, scores, c));
        }
    } else {
        assert forall|c: int| !best_ranked(corpus, query, scores, c) by {
            if top_ranked(corpus, query, scores, c) {
                assert(rank_key(corpus, query, scores, t) >= rank_key(corpus, query, scores, c));
            }
        }
    }
    assert(top_ranked(corpus, query, scores, t));
}

/// Of two documents with the same key, the later one is never ranked first.
pub proof fn lemma_ranking_first_wins(
    corpus: Seq<ExampleView>,
    query: Seq<char>,
    scores: Seq<u32>,
    i: int,
    j: int,
)
    requires
        0 <= i < j < corpus.len(),
        rank_key(corpus, query, scores, i) == rank_key(corpus, query, scores, j),
    ensures
        !top_ranked(corpus, query, scores, j),
{
}

/// The frequencies that are handed out for a document are those of tokens
/// that occur in it: each occurs at least once in the document and in at
/// least one document, and there are none exactly where the document has no
/// token of the query. This holds of a corpus and a document whose sizes a
/// machine can hold.
pub proof fn lemma_term_stats(corpus: Seq<ExampleView>, i: int, asked: Seq<Seq<char>>)
    requires
        0 <= i < corpus.len() <= usize::MAX,
        tokens(corpus[i].input).len() <= usize::MAX,
    ensures
        forall|k: int|
            0 <= k < term_stats(corpus, i, asked).len() ==> {
                &&& 1 <= (#[trigger] term_stats(corpus, i, asked)[k]).tf <= tokens(
                    corpus[i].input,
                ).len()
                &&& 1 <= term_stats(corpus, i, asked)[k].df <= corpus.len()
            },
        term_stats(corpus, i, asked).len() > 0 <==> exists|t: Seq<char>| #[trigger]
            asked.contains(t) && tokens(corpus[i].input).contains(t),
    decreases asked.len(),
{
    let found = tokens(corpus[i].input);
    if asked.len() > 0 {
        let rest = asked.drop_last();
        let last = asked.last();
        lemma_term_stats(corpus, i, rest);
        lemma_occurrences(found, last);
        lemma_document_frequency(corpus, last);
        let stats = term_stats(corpus, i, asked);
        assert forall|k: int| 0 <= k < stats.len() implies {
            &&& 1 <= (#[trigger] stats[k]).tf <= found.len()
            &&& 1 <= stats[k].df <= corpus.len()
        } by {
            if k < term_stats(corpus, i, rest).len() {
                assert(stats[k] == term_stats(corpus, i, rest)[k]);
            }
        }
        if exists|t: Seq<char>| #[trigger] rest.contains(t) && found.contains(t) {
            let t = choose|t: Seq<char>| #[trigger] rest.contains(t) && found.contains(t);
            let k = choose|k: int| 0 <= k < rest.len() && rest[k] == t;
            assert(asked[k] == t);
            assert(asked.contains(t) && found.contains(t));
        }
        if found.contains(last) {
            assert(asked[asked.len() - 1] == last);
            assert(asked.contains(last) && found.contains(last));
        }
        if exists|t: Seq<char>| #[trigger] asked.contains(t) && found.contains(t) {
            let t = choose|t: Seq<char>| #[trigger] asked.contains(t) && found.contains(t);
            let k = choose|k: int| 0 <= k < asked.len() && asked[k] == t;
            if k < rest.len() {
                assert(rest[k] == t);
                assert(rest.contains(t) && found.contains(t));
            }
        }
    }
}

} // verus!
