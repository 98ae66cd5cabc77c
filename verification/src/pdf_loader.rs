//! Turning the text of a document into training examples: the text is cut
//! into overlapping chunks, and each chunk becomes an example.

use vstd::prelude::*;
use vstd::string::StringExecFns;
use crate::agent::{AgentError, AnswerView, ExampleView, ResponseFormat, TrainingExample, ONE_BITS};
use crate::knowledge::KnowledgeBase;
use crate::unicode::{chars_of, decimal, push_decimal, string_of, trim_start, trimmed};

verus! {

/// What can go wrong when a document is loaded.
#[derive(Debug)]
pub enum PdfError {
    /// Reading failed, with the message of the fault.
    IoError(String),
    /// The document could not be taken apart, with the reason.
    PdfError(String),
    /// There is no file at the path.
    InvalidPath(String),
}

/// The message of an error, as a text.
pub open spec fn pdf_error_message(e: PdfError) -> Seq<char> {
    match e {
        PdfError::IoError(reason) => "IO Error: "@ + reason@,
        PdfError::PdfError(reason) => "PDF Error: "@ + reason@,
        PdfError::InvalidPath(path) => "Invalid Path: "@ + path@,
    }
}

impl PdfError {
    /// The message that describes this error.
    pub fn message(&self) -> (r: String)
        ensures
            r@ == pdf_error_message(*self),
    {
        match self {
            PdfError::IoError(reason) => "IO Error: ".to_string().concat(reason.as_str()),
            PdfError::PdfError(reason) => "PDF Error: ".to_string().concat(reason.as_str()),
            PdfError::InvalidPath(path) => "Invalid Path: ".to_string().concat(path.as_str()),
        }
    }
}

/// How a text is cut into chunks.
#[derive(Clone, Copy, Debug)]
pub struct PdfLoaderConfig {
    /// The least number of characters of a chunk.
    pub min_chunk_size: usize,
    /// The largest number of characters of a chunk.
    pub max_chunk_size: usize,
    /// The number of characters that a chunk shares with the one before it.
    pub chunk_overlap: usize,
    /// The weight of each example, as the bit pattern of a
    /// single-precision number.
    pub default_weight_bits: u32,
    /// Whether an example tells which chunk it is.
    pub include_metadata: bool,
    /// Whether the text is cut at the ends of sentences.
    pub split_by_sentence: bool,
}

impl Default for PdfLoaderConfig {
    fn default() -> (r: Self)
        ensures
            r == (PdfLoaderConfig {
                min_chunk_size: 50,
                max_chunk_size: 1000,
                chunk_overlap: 200,
                default_weight_bits: ONE_BITS,
                include_metadata: true,
                split_by_sentence: true,
            }),
    {
        PdfLoaderConfig {
            min_chunk_size: 50,
            max_chunk_size: 1000,
            chunk_overlap: 200,
            default_weight_bits: ONE_BITS,
            include_metadata: true,
            split_by_sentence: true,
        }
    }
}

/// Whether a character ends a sentence.
pub open spec fn ends_sentence(c: char) -> bool {
    c == '.' || c == '!' || c == '?'
}

/// A scan for sentences from left to right: the sentences that are
/// complete, and the characters of the sentence that is still open.
pub struct SentenceScan {
    pub done: Seq<Seq<char>>,
    pub current: Seq<char>,
}

impl SentenceScan {
    /// The sentences found when the text ends here.
    pub open spec fn finished(self) -> Seq<Seq<char>> {
        if self.current.len() > 0 {
            self.done.push(self.current)
        } else {
            self.done
        }
    }
}

/// Scans `s`: each character joins the open sentence, and a full stop, an
/// exclamation mark or a question mark closes it.
pub open spec fn scan_sentences(s: Seq<char>) -> SentenceScan
    decreases s.len(),
{
    if s.len() == 0 {
        SentenceScan { done: Seq::empty(), current: Seq::empty() }
    } else {
        let before = scan_sentences(s.drop_last());
        let current = before.current.push(s.last());
        if ends_sentence(s.last()) {
            SentenceScan { done: before.done.push(current), current: Seq::empty() }
        } else {
            SentenceScan { done: before.done, current }
        }
    }
}

/// The segments of a text that end with a sentence: the text is cut behind
/// each full stop, exclamation mark and question mark, and nothing is lost.
pub open spec fn sentence_segments(s: Seq<char>) -> Seq<Seq<char>> {
    scan_sentences(s).finished()
}

/// The segments without the white space before them, those left out that
/// hold nothing else.
pub open spec fn without_leading_space(segments: Seq<Seq<char>>) -> Seq<Seq<char>>
    decreases segments.len(),
{
    if segments.len() == 0 {
        Seq::empty()
    } else {
        let before = without_leading_space(segments.drop_last());
        let sentence = trim_start(segments.last());
        if sentence.len() > 0 {
            before.push(sentence)
        } else {
            before
        }
    }
}

/// The sentences of a text: it is cut behind each full stop, exclamation
/// mark and question mark, and a sentence starts with its first character
/// that is no white space.
pub open spec fn sentences(s: Seq<char>) -> Seq<Seq<char>> {
    without_leading_space(sentence_segments(s))
}

/// The segments of a text, put together again, are the text.
pub proof fn lemma_segments_cover(s: Seq<char>)
    ensures
        scan_sentences(s).done.flatten() + scan_sentences(s).current == s,
        sentence_segments(s).flatten() == s,
    decreases s.len(),
{
    let scan = scan_sentences(s);
    if s.len() > 0 {
        let before = scan_sentences(s.drop_last());
        lemma_segments_cover(s.drop_last());
        let current = before.current.push(s.last());
        assert(s =~= s.drop_last().push(s.last()));
        assert(before.done.flatten() + current =~= (before.done.flatten() + before.current).push(
            s.last(),
        ));
        if ends_sentence(s.last()) {
            before.done.lemma_flatten_push(current);
            assert(scan.done.flatten() + scan.current =~= s);
        }
    } else {
        assert(scan.done.flatten() + scan.current =~= s);
    }
    if scan.current.len() > 0 {
        scan.done.lemma_flatten_push(scan.current);
    } else {
        assert(scan.done.flatten() + scan.current =~= scan.done.flatten());
    }
}

/// The characters `v[from..to]`.
fn part_of(v: &Vec<char>, from: usize, to: usize) -> (r: Vec<char>)
    requires
        from <= to <= v@.len(),
    ensures
        r@ == v@.subrange(from as int, to as int),
{
    let mut out: Vec<char> = Vec::new();
    let mut i: usize = from;
    while i < to
        invariant
            from <= i <= to <= v@.len(),
            out@ == v@.subrange(from as int, i as int),
        decreases to - i,
    {
        out.push(v[i]);
        i += 1;
    }
    out
}

/// The number of characters of white space at the start of a text.
fn leading_white_space(v: &Vec<char>) -> (n: usize)
    ensures
        n <= v@.len(),
        v@.skip(n as int) == trim_start(v@),
{
    let mut i: usize = 0;
    proof {
        assert(v@.skip(0) == v@);
    }
    while i < v.len() && v[i].is_whitespace()
        invariant
            i <= v@.len(),
            trim_start(v@.skip(i as int)) == trim_start(v@),
        decreases v@.len() - i,
    {
        proof {
            assert(v@.skip(i as int).first() == v@[i as int]);
            assert(v@.skip(i as int).drop_first() == v@.skip(i + 1));
        }
        i += 1;
    }
    proof {
        if i < v@.len() {
            assert(v@.skip(i as int).first() == v@[i as int]);
        }
    }
    i
}

/// The segments of a text that end with a sentence, each as its characters.
fn sentence_parts(chars: &Vec<char>) -> (r: Vec<Vec<char>>)
    ensures
        r@.map_values(|p: Vec<char>| p@) == sentence_segments(chars@),
{
    let ghost view = |p: Vec<char>| p@;
    let mut done: Vec<Vec<char>> = Vec::new();
    let mut start: usize = 0;
    let mut i: usize = 0;
    while i < chars.len()
        invariant
            start <= i <= chars@.len(),
            view == |p: Vec<char>| p@,
            done@.map_values(view) == scan_sentences(chars@.take(i as int)).done,
            chars@.subrange(start as int, i as int) == scan_sentences(chars@.take(i as int)).current,
        decreases chars@.len() - i,
    {
        let c = chars[i];
        proof {
            assert(chars@.take(i + 1).drop_last() == chars@.take(i as int));
            assert(chars@.subrange(start as int, i + 1) == chars@.subrange(
                start as int,
                i as int,
            ).push(c));
        }
        if c == '.' || c == '!' || c == '?' {
            let sentence = part_of(chars, start, i + 1);
            proof {
                assert(done@.push(sentence).map_values(view) == done@.map_values(view).push(
                    sentence@,
                ));
                assert(chars@.subrange(i + 1, i + 1) == Seq::<char>::empty());
            }
            done.push(sentence);
            start = i + 1;
        }
        i += 1;
    }
    proof {
        assert(chars@.take(chars@.len() as int) == chars@);
    }
    if start < chars.len() {
        let sentence = part_of(chars, start, chars.len());
        proof {
            assert(done@.push(sentence).map_values(view) == done@.map_values(view).push(sentence@));
        }
        done.push(sentence);
    }
    done
}

/// The state of cutting a text into chunks: the chunks that are complete,
/// and the characters gathered for the next one.
pub struct ChunkState {
    pub chunks: Seq<Seq<char>>,
    pub current: Seq<char>,
}

/// The state before a segment of `length` characters is added: where the
/// segment would make the gathered text longer than the largest size, and
/// the gathered text has the least size, it becomes a chunk, and its last
/// characters, as many as the overlap, start the next one.
pub open spec fn make_room(state: ChunkState, length: nat, config: PdfLoaderConfig) -> ChunkState {
    if state.current.len() + length > config.max_chunk_size && state.current.len()
        >= config.min_chunk_size {
        ChunkState {
            chunks: state.chunks.push(state.current),
            current: if config.chunk_overlap == 0 {
                Seq::empty()
            } else if state.current.len() > config.chunk_overlap {
                state.current.subrange(
                    state.current.len() - config.chunk_overlap,
                    state.current.len() as int,
                )
            } else {
                state.current
            },
        }
    } else {
        state
    }
}

/// The state after the gathered text was cut once where it is longer than
/// the largest size: its first characters, as many as the largest size,
/// become a chunk, and the rest, with the overlap before it, stays.
pub open spec fn cut_long(state: ChunkState, config: PdfLoaderConfig) -> ChunkState {
    if state.current.len() > config.max_chunk_size {
        ChunkState {
            chunks: state.chunks.push(state.current.take(config.max_chunk_size as int)),
            current: state.current.skip(config.max_chunk_size - config.chunk_overlap),
        }
    } else {
        state
    }
}

/// The state after a segment was added.
pub open spec fn add_segment(state: ChunkState, segment: Seq<char>, config: PdfLoaderConfig) -> ChunkState {
    let room = make_room(state, segment.len(), config);
    cut_long(ChunkState { chunks: room.chunks, current: room.current + segment }, config)
}

/// The state after each of the segments was added in order.
pub open spec fn add_segments(segments: Seq<Seq<char>>, config: PdfLoaderConfig) -> ChunkState
    decreases segments.len(),
{
    if segments.len() == 0 {
        ChunkState { chunks: Seq::empty(), current: Seq::empty() }
    } else {
        add_segment(add_segments(segments.drop_last(), config), segments.last(), config)
    }
}

/// The segments that a text is made of: its sentences, or its characters.
pub open spec fn segments_of(text: Seq<char>, config: PdfLoaderConfig) -> Seq<Seq<char>> {
    if config.split_by_sentence {
        sentence_segments(text)
    } else {
        text.map_values(|c: char| seq![c])
    }
}

/// The chunks of a text: none for a text of white space, the text without
/// the white space around it where that is no longer than the largest size,
/// else what adding its segments one by one gives, with the text gathered
/// at the end as the last chunk where it has the least size.
pub open spec fn chunks_of(text: Seq<char>, config: PdfLoaderConfig) -> Seq<Seq<char>> {
    let body = trimmed(text);
    if body.len() == 0 {
        Seq::empty()
    } else if body.len() <= config.max_chunk_size {
        seq![body]
    } else {
        let end = add_segments(segments_of(body, config), config);
        if end.current.len() > 0 && end.current.len() >= config.min_chunk_size {
            end.chunks.push(end.current)
        } else {
            end.chunks
        }
    }
}

/// What tells of an example which chunk it is, as JSON text.
pub open spec fn chunk_metadata(index: nat, total: nat) -> Seq<char> {
    "{\"chunk_index\":"@ + decimal(index) + ",\"total_chunks\":"@ + decimal(total) + "}"@
}

/// The example that chunk `i` of `chunks` becomes.
pub open spec fn chunk_example(chunks: Seq<Seq<char>>, i: int, config: PdfLoaderConfig) -> ExampleView {
    ExampleView {
        input: chunks[i],
        output: AnswerView::Text(chunks[i]),
        weight_bits: config.default_weight_bits,
        metadata: if config.include_metadata {
            Some(chunk_metadata(i as nat, chunks.len()))
        } else {
            None
        },
    }
}

/// The texts of a sequence of vectors of characters.
pub open spec fn parts_view(parts: Seq<Vec<char>>) -> Seq<Seq<char>> {
    parts.map_values(|p: Vec<char>| p@)
}

/// Cuts texts into chunks and makes training examples of them.
pub struct PdfLoader {
    config: PdfLoaderConfig,
}

impl PdfLoader {
    #[verifier::type_invariant]
    spec fn overlap_fits(self) -> bool {
        self.config.chunk_overlap <= self.config.max_chunk_size
    }

    /// The configuration of the loader.
    pub closed spec fn config(&self) -> PdfLoaderConfig {
        self.config
    }

    /// A loader with the default configuration.
    pub fn new() -> (r: Self)
        ensures
            r.config() == (PdfLoaderConfig {
                min_chunk_size: 50,
                max_chunk_size: 1000,
                chunk_overlap: 200,
                default_weight_bits: ONE_BITS,
                include_metadata: true,
                split_by_sentence: true,
            }),
    {
        PdfLoader { config: PdfLoaderConfig::default() }
    }

    /// A loader with the given configuration, which is refused where the
    /// overlap is larger than the largest size of a chunk.
    pub fn with_config(config: PdfLoaderConfig) -> (r: Result<Self, AgentError>)
        ensures
            config.chunk_overlap <= config.max_chunk_size ==> r is Ok && r->Ok_0.config() == config,
            config.chunk_overlap > config.max_chunk_size ==> r is Err
                && r->Err_0 is InvalidInputError,
    {
        if config.chunk_overlap <= config.max_chunk_size {
            Ok(PdfLoader { config })
        } else {
            Err(
                AgentError::InvalidInputError(
                    "chunk overlap is larger than the largest chunk size".to_string(),
                ),
            )
        }
    }

    /// Cuts a text into its sentences.
    pub fn split_into_sentences(&self, text: &str) -> (r: Vec<String>)
        ensures
            crate::agent::text_utils::texts(r@) == sentences(text@),
    {
        let chars = chars_of(text);
        let parts = sentence_parts(&chars);
        let ghost raw = parts_view(parts@);
        let mut out: Vec<String> = Vec::new();
        let mut i: usize = 0;
        proof {
            assert(raw.take(0) =~= Seq::<Seq<char>>::empty());
        }
        while i < parts.len()
            invariant
                i <= parts@.len(),
                raw == parts_view(parts@),
                crate::agent::text_utils::texts(out@) == without_leading_space(raw.take(i as int)),
            decreases parts@.len() - i,
        {
            proof {
                assert(raw.take(i + 1).drop_last() == raw.take(i as int));
                assert(raw.take(i + 1).last() == parts@[i as int]@);
            }
            let skip = leading_white_space(&parts[i]);
            if skip < parts[i].len() {
                let sentence = string_of(&parts[i], skip, parts[i].len());
                proof {
                    assert(crate::agent::text_utils::texts(out@.push(sentence))
                        == crate::agent::text_utils::texts(out@).push(sentence@));
                }
                out.push(sentence);
            }
            i += 1;
        }
        proof {
            assert(raw.take(parts@.len() as int) == raw);
        }
        out
    }

    /// The segments of a text: its sentences, or its characters.
    fn segments(&self, body: &Vec<char>) -> (r: Vec<Vec<char>>)
        ensures
            parts_view(r@) == segments_of(body@, self.config()),
    {
        if self.config.split_by_sentence {
            sentence_parts(body)
        } else {
            let mut out: Vec<Vec<char>> = Vec::new();
            let mut i: usize = 0;
            while i < body.len()
                invariant
                    i <= body@.len(),
                    out@.len() == i,
                    forall|k: int| 0 <= k < i ==> (#[trigger] out@[k])@ == seq![body@[k]],
                decreases body@.len() - i,
            {
                let mut one: Vec<char> = Vec::new();
                one.push(body[i]);
                assert(one@ =~= seq![body@[i as int]]);
                out.push(one);
                i += 1;
            }
            assert(parts_view(out@) =~= body@.map_values(|c: char| seq![c]));
            out
        }
    }

    /// Adds one segment to the state of cutting.
    fn add_to_chunks(&self, chunks: &mut Vec<Vec<char>>, current: Vec<char>, segment: &Vec<char>) -> (r:
        Vec<char>)
        ensures
            (ChunkState { chunks: parts_view(final(chunks)@), current: r@ }) == add_segment(
                ChunkState { chunks: parts_view(old(chunks)@), current: current@ },
                segment@,
                self.config(),
            ),
    {
        proof {
            use_type_invariant(self);
        }
        let config = self.config;
        let mut current = current;
        let ghost before = ChunkState { chunks: parts_view(chunks@), current: current@ };
        let long = segment.len() > config.max_chunk_size || current.len() > config.max_chunk_size
            - segment.len();
        if long && current.len() >= config.min_chunk_size {
            let rest = if config.chunk_overlap == 0 {
                Vec::new()
            } else if current.len() > config.chunk_overlap {
                part_of(&current, current.len() - config.chunk_overlap, current.len())
            } else {
                part_of(&current, 0, current.len())
            };
            proof {
                assert(current@.subrange(0, current@.len() as int) == current@);
                assert(parts_view(chunks@.push(current)) == parts_view(chunks@).push(current@));
            }
            chunks.push(current);
            current = rest;
        }
        let ghost room = ChunkState { chunks: parts_view(chunks@), current: current@ };
        assert(room == make_room(before, segment@.len(), config));
        let mut k: usize = 0;
        while k < segment.len()
            invariant
                k <= segment@.len(),
                current@ == room.current + segment@.take(k as int),
            decreases segment@.len() - k,
        {
            current.push(segment[k]);
            proof {
                assert(segment@.take(k + 1) == segment@.take(k as int).push(segment@[k as int]));
            }
            k += 1;
        }
        proof {
            assert(segment@.take(segment@.len() as int) == segment@);
        }
        if current.len() > config.max_chunk_size {
            let head = part_of(&current, 0, config.max_chunk_size);
            let rest = part_of(
                &current,
                config.max_chunk_size - config.chunk_overlap,
                current.len(),
            );
            proof {
                assert(parts_view(chunks@.push(head)) == parts_view(chunks@).push(head@));
            }
            chunks.push(head);
            current = rest;
        }
        current
    }

    /// Cuts a text into overlapping chunks, each as its characters.
    fn chunk_parts(&self, text: &str) -> (r: Vec<Vec<char>>)
        ensures
            parts_view(r@) == chunks_of(text@, self.config()),
    {
        let config = self.config;
        let mut chunks: Vec<Vec<char>> = Vec::new();
        let body = chars_of(text.trim());
        if body.len() == 0 {
            assert(parts_view(chunks@) =~= Seq::<Seq<char>>::empty());
            return chunks;
        }
        if body.len() <= config.max_chunk_size {
            proof {
                assert(parts_view(chunks@.push(body)) =~= seq![body@]);
            }
            chunks.push(body);
            return chunks;
        }
        let segments = self.segments(&body);
        let mut current: Vec<char> = Vec::new();
        let mut i: usize = 0;
        proof {
            assert(parts_view(chunks@) =~= Seq::<Seq<char>>::empty());
            assert(parts_view(segments@).take(0) =~= Seq::<Seq<char>>::empty());
        }
        while i < segments.len()
            invariant
                i <= segments@.len(),
                config == self.config(),
                (ChunkState { chunks: parts_view(chunks@), current: current@ }) == add_segments(
                    parts_view(segments@).take(i as int),
                    config,
                ),
            decreases segments@.len() - i,
        {
            proof {
                assert(parts_view(segments@).take(i + 1).drop_last() == parts_view(segments@).take(
                    i as int,
                ));
                assert(parts_view(segments@).take(i + 1).last() == segments@[i as int]@);
            }
            current = self.add_to_chunks(&mut chunks, current, &segments[i]);
            i += 1;
        }
        proof {
            assert(parts_view(segments@).take(segments@.len() as int) == parts_view(segments@));
        }
        if current.len() > 0 && current.len() >= config.min_chunk_size {
            proof {
                assert(parts_view(chunks@.push(current)) == parts_view(chunks@).push(current@));
            }
            chunks.push(current);
        }
        chunks
    }

    /// Cuts a text into overlapping chunks.
    pub fn split_text_into_chunks(&self, text: &str) -> (r: Vec<String>)
        ensures
            crate::agent::text_utils::texts(r@) == chunks_of(text@, self.config()),
    {
        let parts = self.chunk_parts(text);
        let mut out: Vec<String> = Vec::new();
        let mut i: usize = 0;
        while i < parts.len()
            invariant
                i <= parts@.len(),
                out@.len() == i,
                forall|k: int| 0 <= k < i ==> (#[trigger] out@[k])@ == parts@[k]@,
            decreases parts@.len() - i,
        {
            let chunk = string_of(&parts[i], 0, parts[i].len());
            proof {
                assert(parts@[i as int]@.subrange(0, parts@[i as int]@.len() as int)
                    == parts@[i as int]@);
            }
            out.push(chunk);
            i += 1;
        }
        proof {
            assert(crate::agent::text_utils::texts(out@) =~= parts_view(parts@));
        }
        out
    }

    /// Cuts a text into chunks and makes an example of each: the chunk is
    /// its input and its answer.
    pub fn text_to_training_examples(&self, text: &str) -> (r: Vec<TrainingExample>)
        ensures
            r@.len() == chunks_of(text@, self.config()).len(),
            forall|i: int|
                0 <= i < r@.len() ==> (#[trigger] r@[i])@ == chunk_example(
                    chunks_of(text@, self.config()),
                    i,
                    self.config(),
                ),
    {
        let chunks = self.split_text_into_chunks(text);
        let ghost all = chunks_of(text@, self.config());
        let mut examples: Vec<TrainingExample> = Vec::new();
        let mut i: usize = 0;
        while i < chunks.len()
            invariant
                i <= chunks@.len(),
                crate::agent::text_utils::texts(chunks@) == all,
                examples@.len() == i,
                forall|k: int|
                    0 <= k < i ==> (#[trigger] examples@[k])@ == chunk_example(all, k, self.config()),
            decreases chunks@.len() - i,
        {
            let metadata = if self.config.include_metadata {
                let mut json = "{\"chunk_index\":".to_string();
                push_decimal(&mut json, i);
                json.append(",\"total_chunks\":");
                push_decimal(&mut json, chunks.len());
                json.append("}");
                Some(json)
            } else {
                None
            };
            proof {
                assert(all[i as int] == chunks@[i as int]@);
            }
            examples.push(
                TrainingExample {
                    input: chunks[i].clone(),
                    output: ResponseFormat::Text(chunks[i].clone()),
                    weight_bits: self.config.default_weight_bits,
                    metadata,
                },
            );
            i += 1;
        }
        examples
    }

    /// Cuts a text into chunks and makes a knowledge base of their
    /// examples, which carry no metadata there.
    pub fn text_to_knowledge_base(&self, text: &str) -> (kb: KnowledgeBase)
        ensures
            kb.path() is None,
            kb.examples().len() == chunks_of(text@, self.config()).len(),
            forall|i: int|
                0 <= i < kb.examples().len() ==> (#[trigger] kb.examples()[i])@ == (ExampleView {
                    metadata: None,
                    ..chunk_example(chunks_of(text@, self.config()), i, self.config())
                }),
    {
        let examples = self.text_to_training_examples(text);
        let mut kb = KnowledgeBase::new();
        let mut i: usize = 0;
        while i < examples.len()
            invariant
                i <= examples@.len(),
                kb.path() is None,
                kb.examples().len() == i,
                forall|k: int|
                    0 <= k < i ==> (#[trigger] kb.examples()[k])@ == (ExampleView {
                        metadata: None,
                        ..examples@[k]@
                    }),
            decreases examples@.len() - i,
        {
            kb.add_example(
                examples[i].input.clone(),
                examples[i].output.clone(),
                examples[i].weight_bits,
            );
            i += 1;
        }
        kb
    }
}

} // verus!
