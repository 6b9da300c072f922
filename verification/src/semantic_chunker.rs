//! The semantic chunker: splits markdown into chunks at headings, each chunk
//! carrying the path of headings above it, then embeds and stores the chunks.

use vstd::prelude::*;
use crate::error::NebulaError;
use crate::ports::call_index;
use crate::text::{
    append_str, chars_of, join, join_strings, lines, lines_of, string_of, string_of_range, trim,
    trim_chars, trim_start, views,
};

verus! {

pub const INPUT_TOPIC: &'static str = "nebula.doc.markdown_ready";
pub const DEFAULT_EMBEDDING_MODEL: &'static str = "all-MiniLM-L6-v2";

/// Markdown ready to be chunked.
#[derive(Debug, Clone, PartialEq, Eq)]
pub struct MarkdownReadyEvent {
    pub source_path: String,
    pub source_sha256: String,
    pub markdown: String,
    pub markdown_sha256: String,
}

/// A chunk of a document, with the headings above it, outermost first.
#[derive(Debug, Clone, PartialEq, Eq)]
pub struct SemanticChunk {
    pub text: String,
    pub heading_path: Vec<String>,
    pub source_path: String,
    pub source_sha256: String,
}

/// A chunk with its embedding. `embedding` holds the bits of `f32` values.
#[derive(Debug, Clone, PartialEq, Eq)]
pub struct VectorRecord {
    pub chunk: SemanticChunk,
    pub embedding: Vec<u32>,
}

/// The inference host that embeds text; the embedding holds `f32` bits.
pub trait InferenceHost {
    fn embed(&mut self, model: &str, text: &str) -> Result<Vec<u32>, NebulaError>;
}

/// The vector store.
pub trait VectorStore {
    fn upsert(&mut self, record: &VectorRecord) -> Result<(), NebulaError>;
}

/// `embed`, called through `inference` with `model` and `text`, may answer
/// `answer`.
#[verifier::inline]
pub open spec fn text_embedded<I: InferenceHost>(
    inference: &mut I,
    model: &str,
    text: &str,
    answer: Result<Vec<u32>, NebulaError>,
) -> bool {
    call_ensures(I::embed, (inference, model, text), answer)
}

/// `upsert`, called through `store` with `record`, may answer `answer`.
#[verifier::inline]
pub open spec fn record_upserted<S: VectorStore>(
    store: &mut S,
    record: &VectorRecord,
    answer: Result<(), NebulaError>,
) -> bool {
    call_ensures(S::upsert, (store, record), answer)
}

/// The answers of the ports for one chunk, in call order: the embedding,
/// then the upsert. An answer to a call that was not made is never used.
pub struct ChunkAnswers {
    pub embedded: Result<Vec<u32>, NebulaError>,
    pub upserted: Result<(), NebulaError>,
}

/// The first failure among the answers for a chunk, in call order.
pub open spec fn chunk_error(a: ChunkAnswers) -> Option<NebulaError> {
    match a.embedded {
        Err(e) => Some(e),
        Ok(_) => match a.upserted {
            Err(e) => Some(e),
            Ok(_) => None,
        },
    }
}

/// Whether `record` is the record of chunk `k` of `event`'s markdown with
/// the embedding `embedding`.
pub open spec fn is_chunk_record(event: MarkdownReadyEvent, k: int, embedding: Vec<u32>, record: VectorRecord) -> bool {
    &&& chunk_view(record.chunk) == split_spec(event.markdown@)[k]
    &&& record.chunk.source_path == event.source_path
    &&& record.chunk.source_sha256 == event.source_sha256
    &&& record.embedding == embedding
}

/// Whether storing chunk `k` of `event`'s markdown made the calls that `a`
/// answers: its text embedded with `DEFAULT_EMBEDDING_MODEL`, then, when that
/// succeeded, the upsert of its record with that embedding.
pub open spec fn chunk_calls<I: InferenceHost, S: VectorStore>(
    event: MarkdownReadyEvent,
    k: int,
    a: ChunkAnswers,
) -> bool {
    &&& exists|mi: &mut I, model: &str, text: &str|
        #[trigger] text_embedded(mi, model, text, a.embedded) && model@ == DEFAULT_EMBEDDING_MODEL@
            && text@ == split_spec(event.markdown@)[k].0
    &&& a.embedded matches Ok(embedding) ==> exists|ms: &mut S, record: &VectorRecord|
        #[trigger] record_upserted(ms, record, a.upserted) && is_chunk_record(
            event,
            k,
            embedding,
            *record,
        )
}

/// Whether storing the chunks of `event`'s markdown, in order, made the calls
/// that `answers` answer, every chunk but the last stored without failure.
pub open spec fn chunks_made<I: InferenceHost, S: VectorStore>(
    event: MarkdownReadyEvent,
    answers: Seq<ChunkAnswers>,
) -> bool {
    &&& answers.len() <= split_spec(event.markdown@).len()
    &&& forall|k: int| 0 <= k < answers.len() ==> #[trigger] chunk_calls::<I, S>(event, k, answers[k])
    &&& forall|k: int| 0 <= k < answers.len() - 1 ==> #[trigger] chunk_error(answers[k]) is None
}

// ---------------------------------------------------------------------------
// Headings
// ---------------------------------------------------------------------------

/// The number of `#` characters that `s` starts with.
pub open spec fn hash_run(s: Seq<char>) -> nat
    decreases s.len(),
{
    if s.len() > 0 && s[0] == '#' {
        1 + hash_run(s.drop_first())
    } else {
        0
    }
}

/// The level and title of a heading line: after leading whitespace, one to
/// six `#` followed by a space; the title is the rest, trimmed.
pub open spec fn heading_of(line: Seq<char>) -> Option<(nat, Seq<char>)> {
    let t = trim_start(line);
    let level = hash_run(t);
    if level == 0 || level > 6 || !(level < t.len() && t[level as int] == ' ') {
        None
    } else {
        Some((level, trim(t.subrange(level + 1 as int, t.len() as int))))
    }
}

/// `hash_run` after a prefix of `#` characters.
proof fn lemma_hash_run(s: Seq<char>, i: int)
    requires
        0 <= i <= s.len(),
        forall|k: int| 0 <= k < i ==> s[k] == '#',
    ensures
        hash_run(s) == i + hash_run(s.skip(i)),
    decreases i,
{
    if i > 0 {
        lemma_hash_run(s.drop_first(), i - 1);
        assert(s.drop_first().skip(i - 1) =~= s.skip(i));
    } else {
        assert(s.skip(0) =~= s);
    }
}

/// A line made of `k` `#` characters, a space and a title is a heading of
/// level `k` with the trimmed title when `k` is one to six, and is no heading
/// when `k` is more than six.
pub proof fn law_heading_levels(k: nat, title: Seq<char>)
    requires
        k >= 1,
    ensures
        1 <= k <= 6 ==> heading_of(Seq::new(k, |i: int| '#') + seq![' '] + title) == Some(
            (k, trim(title)),
        ),
        k > 6 ==> heading_of(Seq::new(k, |i: int| '#') + seq![' '] + title) is None,
{
    let line = Seq::new(k, |i: int| '#') + seq![' '] + title;
    assert(line[0] == '#');
    assert(!crate::text::spec_is_whitespace(line[0]));
    assert(trim_start(line) == line);
    lemma_hash_run(line, k as int);
    assert(line.skip(k as int)[0] == ' ');
    assert(hash_run(line.skip(k as int)) == 0);
    assert(line[k as int] == ' ');
    assert(line.subrange(k + 1 as int, line.len() as int) =~= title);
}

/// Leading spaces do not change whether a line is a heading, nor its level
/// or title.
pub proof fn law_heading_ignores_indent(line: Seq<char>)
    ensures
        heading_of(seq![' '] + line) == heading_of(line),
{
    let l = seq![' '] + line;
    assert(l.drop_first() =~= line);
}

/// A run of `#` characters not followed by a space does not make a heading,
/// and neither does a line that does not start with `#`.
pub proof fn law_heading_needs_hashes_and_space(k: nat, c: char, rest: Seq<char>)
    requires
        c != '#',
        c != ' ',
        !crate::text::spec_is_whitespace(c),
    ensures
        heading_of(Seq::new(k, |i: int| '#') + seq![c] + rest) is None,
{
    let line = Seq::new(k, |i: int| '#') + seq![c] + rest;
    if k > 0 {
        assert(line[0] == '#');
    } else {
        assert(line[0] == c);
    }
    assert(trim_start(line) == line);
    lemma_hash_run(line, k as int);
    assert(line.skip(k as int)[0] == c);
    assert(hash_run(line.skip(k as int)) == 0);
    assert(line[k as int] == c);
}

/// The level and title of a heading line, if it is one.
pub fn parse_heading(line: &Vec<char>) -> (r: Option<(usize, String)>)
    ensures
        match heading_of(line@) {
            None => r is None,
            Some((level, title)) => r matches Some(p) && p.0 == level && p.1@ == title,
        },
{
    let t = crate::text::trim_start_chars(line);
    let mut level: usize = 0;
    while level < t.len() && t[level] == '#'
        invariant
            level <= t.len(),
            forall|k: int| 0 <= k < level ==> t@[k] == '#',
        decreases t.len() - level,
    {
        level = level + 1;
    }
    proof {
        lemma_hash_run(t@, level as int);
        if level < t.len() {
            assert(t@.skip(level as int)[0] == t@[level as int]);
        }
        assert(hash_run(t@.skip(level as int)) == 0);
    }
    if level == 0 || level > 6 || !(level < t.len() && t[level] == ' ') {
        return None;
    }
    let rest = crate::text::subrange_chars(&t, level + 1, t.len());
    let title = trim_chars(&rest);
    Some((level, string_of(&title)))
}

// ---------------------------------------------------------------------------
// Splitting
// ---------------------------------------------------------------------------

/// The headings of the stack whose level is below `level`, in order.
pub open spec fn keep_below(stack: Seq<(nat, Seq<char>)>, level: nat) -> Seq<(nat, Seq<char>)>
    decreases stack.len(),
{
    if stack.len() == 0 {
        Seq::empty()
    } else {
        let earlier = keep_below(stack.drop_last(), level);
        if stack.last().0 < level {
            earlier.push(stack.last())
        } else {
            earlier
        }
    }
}

/// The titles of a heading stack.
pub open spec fn titles(stack: Seq<(nat, Seq<char>)>) -> Seq<Seq<char>> {
    stack.map_values(|h: (nat, Seq<char>)| h.1)
}

/// The text of a chunk: its heading path joined by ` > ` and a blank line
/// (when there is a heading), then its body lines joined by line feeds.
pub open spec fn chunk_text(headings: Seq<Seq<char>>, body: Seq<Seq<char>>) -> Seq<char> {
    (if headings.len() > 0 {
        join(headings, " > "@) + "\n\n"@
    } else {
        Seq::empty()
    }) + join(body, "\n"@)
}

/// The chunks with the pending body added as a chunk, if it is not empty.
pub open spec fn flush(chunks: Seq<(Seq<char>, Seq<Seq<char>>)>, headings: Seq<Seq<char>>, body: Seq<Seq<char>>) -> Seq<(Seq<char>, Seq<Seq<char>>)> {
    if body.len() == 0 {
        chunks
    } else {
        chunks.push((chunk_text(headings, body), headings))
    }
}

/// The state of the split after some lines: the heading stack, the pending
/// body lines (trimmed) and the finished chunks (text and heading path).
pub open spec fn split_state(lines: Seq<Seq<char>>) -> (Seq<(nat, Seq<char>)>, Seq<Seq<char>>, Seq<(Seq<char>, Seq<Seq<char>>)>)
    decreases lines.len(),
{
    if lines.len() == 0 {
        (Seq::empty(), Seq::empty(), Seq::empty())
    } else {
        let (stack, body, chunks) = split_state(lines.drop_last());
        let line = lines.last();
        match heading_of(line) {
            Some((level, title)) => (
                keep_below(stack, level).push((level, title)),
                Seq::empty(),
                flush(chunks, titles(stack), body),
            ),
            None => if trim(line).len() > 0 {
                (stack, body.push(trim(line)), chunks)
            } else {
                (stack, body, chunks)
            },
        }
    }
}

/// The chunks of a markdown text (text and heading path), in order: a
/// heading closes the chunk before it and opens a new heading path in which
/// it replaces every heading of its level or deeper.
pub open spec fn split_spec(markdown: Seq<char>) -> Seq<(Seq<char>, Seq<Seq<char>>)> {
    let (stack, body, chunks) = split_state(lines(markdown));
    flush(chunks, titles(stack), body)
}

/// The content of a chunk: its text and heading path. Its source (path and
/// digest) is the same for every chunk of a document, and `same_chunk` and
/// `is_split_of` state it apart.
pub open spec fn chunk_view(c: SemanticChunk) -> (Seq<char>, Seq<Seq<char>>) {
    (c.text@, views(c.heading_path@))
}

/// Whether two chunks have the same text, heading path and source.
pub open spec fn same_chunk(a: SemanticChunk, b: SemanticChunk) -> bool {
    &&& chunk_view(a) == chunk_view(b)
    &&& a.source_path == b.source_path
    &&& a.source_sha256 == b.source_sha256
}

/// Whether `chunks` are the chunks of `event`'s markdown, each naming the
/// event's source.
pub open spec fn is_split_of(event: MarkdownReadyEvent, chunks: Seq<SemanticChunk>) -> bool {
    &&& chunks.map_values(|c: SemanticChunk| chunk_view(c)) == split_spec(event.markdown@)
    &&& forall|k: int|
        0 <= k < chunks.len() ==> (#[trigger] chunks[k]).source_path == event.source_path
            && chunks[k].source_sha256 == event.source_sha256
}

/// Appends the pending body as a chunk, when it is not empty, and clears it.
fn flush_chunk(
    event: &MarkdownReadyEvent,
    chunks: &mut Vec<SemanticChunk>,
    headings: &Vec<String>,
    body: &mut Vec<String>,
)
    ensures
        final(chunks)@.map_values(|c: SemanticChunk| chunk_view(c)) == flush(
            old(chunks)@.map_values(|c: SemanticChunk| chunk_view(c)),
            views(headings@),
            views(old(body)@),
        ),
        final(chunks)@.len() >= old(chunks)@.len(),
        forall|k: int|
            0 <= k < old(chunks)@.len() ==> #[trigger] final(chunks)@[k] == old(chunks)@[k],
        forall|k: int|
            old(chunks)@.len() <= k < final(chunks)@.len() ==> (#[trigger] final(chunks)@[k]).source_path
                == event.source_path && final(chunks)@[k].source_sha256 == event.source_sha256,
        final(body)@.len() == 0,
{
    if body.len() == 0 {
        return;
    }
    let mut text = String::new();
    if headings.len() > 0 {
        let path = join_strings(headings, " > ");
        append_str(&mut text, path.as_str());
        append_str(&mut text, "\n\n");
    }
    let joined = join_strings(body, "\n");
    append_str(&mut text, joined.as_str());
    let heading_path = crate::text::copy_strings(headings);
    let chunk = SemanticChunk {
        text,
        heading_path,
        source_path: event.source_path.clone(),
        source_sha256: event.source_sha256.clone(),
    };
    let ghost before = chunks@;
    chunks.push(chunk);
    proof {
        assert(chunks@.map_values(|c: SemanticChunk| chunk_view(c)) =~= before.map_values(
            |c: SemanticChunk| chunk_view(c),
        ).push(chunk_view(chunk)));
        assert(text@ == chunk_text(views(headings@), views(old(body)@)));
    }
    body.clear();
}

/// The stack view: levels and titles.
pub open spec fn stack_view(stack: Seq<(usize, String)>) -> Seq<(nat, Seq<char>)> {
    stack.map_values(|h: (usize, String)| (h.0 as nat, h.1@))
}

/// The headings of the stack below `level`, then the new heading.
fn push_heading(stack: &Vec<(usize, String)>, level: usize, title: String) -> (r: Vec<(usize, String)>)
    ensures
        stack_view(r@) == keep_below(stack_view(stack@), level as nat).push((level as nat, title@)),
{
    let mut r: Vec<(usize, String)> = Vec::new();
    let mut i: usize = 0;
    while i < stack.len()
        invariant
            i <= stack@.len(),
            stack_view(r@) == keep_below(stack_view(stack@).take(i as int), level as nat),
        decreases stack.len() - i,
    {
        proof {
            let t = stack_view(stack@).take(i + 1);
            assert(t.drop_last() =~= stack_view(stack@).take(i as int));
            assert(t.last() == stack_view(stack@)[i as int]);
        }
        if stack[i].0 < level {
            let ghost before = r@;
            r.push((stack[i].0, stack[i].1.clone()));
            proof {
                assert(stack_view(r@) =~= stack_view(before).push(stack_view(stack@)[i as int]));
            }
        }
        i = i + 1;
    }
    assert(stack_view(stack@).take(stack@.len() as int) =~= stack_view(stack@));
    let ghost before = r@;
    r.push((level, title));
    proof {
        assert(stack_view(r@) =~= stack_view(before).push((level as nat, title@)));
    }
    r
}

/// The titles of a heading stack.
fn stack_titles(stack: &Vec<(usize, String)>) -> (r: Vec<String>)
    ensures
        views(r@) == titles(stack_view(stack@)),
{
    let mut r: Vec<String> = Vec::new();
    let mut i: usize = 0;
    while i < stack.len()
        invariant
            i <= stack@.len(),
            r@.len() == i,
            views(r@) == titles(stack_view(stack@)).take(i as int),
        decreases stack.len() - i,
    {
        let ghost before = r@;
        let c = stack[i].1.clone();
        assert(c@ == titles(stack_view(stack@))[i as int]);
        r.push(c);
        proof {
            let want = titles(stack_view(stack@));
            assert(r@ == before.push(c));
            assert forall|j: int| 0 <= j < i + 1 implies #[trigger] views(r@)[j] == want.take(
                i + 1,
            )[j] by {
                if j < i {
                    assert(r@[j] == before[j]);
                    assert(views(before)[j] == want.take(i as int)[j]);
                } else {
                    assert(r@[j] == c);
                    assert(want.take(i + 1)[j] == want[j]);
                }
            }
            assert(views(r@) =~= want.take(i + 1));
        }
        i = i + 1;
    }
    assert(titles(stack_view(stack@)).take(stack@.len() as int) =~= titles(stack_view(stack@)));
    r
}

/// Splits markdown into chunks at headings. Markdown with no body text at
/// all is refused with `NoSemanticChunks`.
pub fn split_markdown(event: &MarkdownReadyEvent) -> (r: Result<Vec<SemanticChunk>, NebulaError>)
    ensures
        split_spec(event.markdown@).len() == 0 ==> r == Err::<Vec<SemanticChunk>, NebulaError>(
            NebulaError::NoSemanticChunks,
        ),
        split_spec(event.markdown@).len() > 0 ==> (r matches Ok(chunks) && is_split_of(
            *event,
            chunks@,
        )),
{
    let chars = chars_of(event.markdown.as_str());
    let all_lines = lines_of(&chars);
    let ghost ls = lines(event.markdown@);
    let mut stack: Vec<(usize, String)> = Vec::new();
    let mut headings: Vec<String> = Vec::new();
    let mut body: Vec<String> = Vec::new();
    let mut chunks: Vec<SemanticChunk> = Vec::new();
    let mut i: usize = 0;
    while i < all_lines.len()
        invariant
            i <= all_lines@.len(),
            chars@ == event.markdown@,
            ls == lines(event.markdown@),
            all_lines@.len() == ls.len(),
            forall|k: int| 0 <= k < all_lines@.len() ==> (#[trigger] all_lines@[k])@ == ls[k],
            split_state(ls.take(i as int)) == (
                stack_view(stack@),
                views(body@),
                chunks@.map_values(|c: SemanticChunk| chunk_view(c)),
            ),
            views(headings@) == titles(stack_view(stack@)),
            forall|k: int|
                0 <= k < chunks@.len() ==> (#[trigger] chunks@[k]).source_path == event.source_path
                    && chunks@[k].source_sha256 == event.source_sha256,
        decreases all_lines.len() - i,
    {
        let line = &all_lines[i];
        proof {
            let t = ls.take(i + 1);
            assert(t.drop_last() =~= ls.take(i as int));
            assert(t.last() == line@);
        }
        match parse_heading(line) {
            Some((level, title)) => {
                flush_chunk(event, &mut chunks, &headings, &mut body);
                stack = push_heading(&stack, level, title);
                headings = stack_titles(&stack);
                proof {
                    assert(views(body@) =~= Seq::<Seq<char>>::empty());
                }
            },
            None => {
                let trimmed = trim_chars(line);
                if trimmed.len() > 0 {
                    let ghost before = body@;
                    body.push(string_of(&trimmed));
                    proof {
                        assert(views(body@) =~= views(before).push(trim(line@)));
                    }
                }
            },
        }
        i = i + 1;
    }
    assert(ls.take(all_lines@.len() as int) =~= ls);
    flush_chunk(event, &mut chunks, &headings, &mut body);
    if chunks.len() == 0 {
        return Err(NebulaError::NoSemanticChunks);
    }
    Ok(chunks)
}

/// Embeds a chunk's text with `DEFAULT_EMBEDDING_MODEL`.
fn embed_call<I: InferenceHost>(inference: &mut I, text: &str) -> (x: Result<Vec<u32>, NebulaError>)
    ensures
        exists|m: &mut I, model: &str|
            *m == *old(inference) && *final(m) == *final(inference) && #[trigger] text_embedded(
                m,
                model,
                text,
                x,
            ) && model@ == DEFAULT_EMBEDDING_MODEL@,
{
    inference.embed(DEFAULT_EMBEDDING_MODEL, text)
}

/// Upserts a record.
fn upsert_call<S: VectorStore>(store: &mut S, record: &VectorRecord) -> (x: Result<(), NebulaError>)
    ensures
        exists|m: &mut S| *m == *old(store) && *final(m) == *final(store) && #[trigger] record_upserted(m, record, x),
{
    store.upsert(record)
}

/// Storing one more chunk after chunks that were all stored keeps the calls
/// made.
proof fn lemma_chunks_extend<I: InferenceHost, S: VectorStore>(
    event: MarkdownReadyEvent,
    answers: Seq<ChunkAnswers>,
    w: ChunkAnswers,
)
    requires
        chunks_made::<I, S>(event, answers),
        answers.len() < split_spec(event.markdown@).len(),
        forall|k: int| 0 <= k < answers.len() ==> #[trigger] chunk_error(answers[k]) is None,
        chunk_calls::<I, S>(event, answers.len() as int, w),
    ensures
        chunks_made::<I, S>(event, answers.push(w)),
        answers.push(w).last() == w,
        forall|k: int| 0 <= k < answers.len() ==> answers.push(w)[k] == answers[k],
{
    let all = answers.push(w);
    assert forall|k: int| 0 <= k < all.len() implies #[trigger] chunk_calls::<I, S>(event, k, all[k]) by {
        if k < answers.len() {
            assert(all[k] == answers[k]);
        }
    }
    assert forall|k: int| 0 <= k < all.len() - 1 implies #[trigger] chunk_error(all[k]) is None by {
        assert(all[k] == answers[k]);
    }
}

/// Splits the markdown, embeds each chunk with `DEFAULT_EMBEDDING_MODEL` and
/// upserts the records, in chunk order. A refused document or a failing port
/// ends the call with its error.
pub fn chunk_embed_and_store<I: InferenceHost, S: VectorStore>(
    inference: &mut I,
    store: &mut S,
    event: MarkdownReadyEvent,
) -> (r: Result<Vec<VectorRecord>, NebulaError>)
    ensures
        split_spec(event.markdown@).len() == 0 ==> r == Err::<Vec<VectorRecord>, NebulaError>(
            NebulaError::NoSemanticChunks,
        ),
        r matches Ok(records) ==> is_split_of(
            event,
            records@.map_values(|rec: VectorRecord| rec.chunk),
        ),
        split_spec(event.markdown@).len() == 0 ==> *final(inference) == *old(inference)
            && *final(store) == *old(store),
        split_spec(event.markdown@).len() > 0 ==> exists|
            answers: Seq<ChunkAnswers>,
            istates: Seq<I>,
            sstates: Seq<S>,
        |
            #![trigger chunks_made::<I, S>(event, answers), istates[0], sstates[0]]
            chunks_made::<I, S>(event, answers) && istates.len() == answers.len() + 1 && istates[0]
                == *old(inference) && istates.last() == *final(inference) && sstates.len()
                == answers.len() + 1 && sstates[0] == *old(store) && sstates.last() == *final(store)
                && (forall|k: int|
                #![trigger call_index(k)]
                call_index(k) && k < answers.len() ==> (exists|mi: &mut I, model: &str, text: &str|
                    *mi == istates[k] && *final(mi) == istates[k + 1] && #[trigger] text_embedded(
                        mi,
                        model,
                        text,
                        answers[k].embedded,
                    ) && model@ == DEFAULT_EMBEDDING_MODEL@ && text@ == split_spec(event.markdown@)[k].0)
                    && (answers[k].embedded is Err ==> sstates[k + 1] == sstates[k]) && (answers[k].embedded is Ok
                    ==> exists|ms: &mut S, record: &VectorRecord|
                    *ms == sstates[k] && *final(ms) == sstates[k + 1] && #[trigger] record_upserted(
                        ms,
                        record,
                        answers[k].upserted,
                    ) && is_chunk_record(event, k, answers[k].embedded->Ok_0, *record)))
                && answers.len() >= 1 && match chunk_error(
                answers.last(),
            ) {
                Some(e) => r == Err::<Vec<VectorRecord>, NebulaError>(e),
                None => answers.len() == split_spec(event.markdown@).len() && (r matches Ok(records)
                    && records@.len() == answers.len() && forall|k: int|
                    0 <= k < answers.len() ==> is_chunk_record(
                        event,
                        k,
                        answers[k].embedded->Ok_0,
                        #[trigger] records@[k],
                    )),
            },
{
    let chunks = split_markdown(&event)?;
    let ghost mut answers: Seq<ChunkAnswers> = Seq::empty();
    let ghost mut istates: Seq<I> = seq![*inference];
    let ghost mut sstates: Seq<S> = seq![*store];
    let mut records: Vec<VectorRecord> = Vec::new();
    let mut i: usize = 0;
    while i < chunks.len()
        invariant
            i <= chunks@.len(),
            split_spec(event.markdown@).len() > 0,
            is_split_of(event, chunks@),
            records@.len() == i,
            answers.len() == i,
            forall|k: int| 0 <= k < i ==> same_chunk(#[trigger] records@[k].chunk, chunks@[k]),
            chunks_made::<I, S>(event, answers),
            forall|k: int| 0 <= k < i ==> #[trigger] chunk_error(answers[k]) is None,
            forall|k: int|
                0 <= k < i ==> is_chunk_record(
                    event,
                    k,
                    answers[k].embedded->Ok_0,
                    #[trigger] records@[k],
                ),
            istates.len() == i + 1,
            istates[0] == *old(inference),
            istates.last() == *inference,
            sstates.len() == i + 1,
            sstates[0] == *old(store),
            sstates.last() == *store,
            forall|k: int|
                #![trigger call_index(k)]
                call_index(k) && k < i ==> (exists|mi: &mut I, model: &str, text: &str|
                    *mi == istates[k] && *final(mi) == istates[k + 1] && #[trigger] text_embedded(
                        mi,
                        model,
                        text,
                        answers[k].embedded,
                    ) && model@ == DEFAULT_EMBEDDING_MODEL@ && text@ == split_spec(event.markdown@)[k].0)
                    && (answers[k].embedded is Err ==> sstates[k + 1] == sstates[k]) && (answers[k].embedded is Ok
                    ==> exists|ms: &mut S, record: &VectorRecord|
                    *ms == sstates[k] && *final(ms) == sstates[k + 1] && #[trigger] record_upserted(
                        ms,
                        record,
                        answers[k].upserted,
                    ) && is_chunk_record(event, k, answers[k].embedded->Ok_0, *record)),
        decreases chunks.len() - i,
    {
        proof {
            assert(chunks@.map_values(|c: SemanticChunk| chunk_view(c))[i as int] == chunk_view(chunks@[i as int]));
        }
        let chunk = SemanticChunk {
            text: chunks[i].text.clone(),
            heading_path: crate::text::copy_strings(&chunks[i].heading_path),
            source_path: chunks[i].source_path.clone(),
            source_sha256: chunks[i].source_sha256.clone(),
        };
        let ghost ipre = *inference;
        let ghost spre = *store;
        let embedded = embed_call(inference, chunk.text.as_str());
        let embedding = match embedded {
            Ok(v) => v,
            Err(e) => {
                proof {
                    let w = ChunkAnswers { embedded, upserted: Err(e) };
                    lemma_chunks_extend::<I, S>(event, answers, w);
                    let old_answers = answers;
                    let old_is = istates;
                    let old_ss = sstates;
                    answers = answers.push(w);
                    istates = istates.push(*inference);
                    sstates = sstates.push(*store);
                    assert forall|k: int|
                        #![trigger call_index(k)]
                        call_index(k) && k < i + 1 implies (exists|mi: &mut I, model: &str, text: &str|
                            *mi == istates[k] && *final(mi) == istates[k + 1] && #[trigger] text_embedded(
                                mi,
                                model,
                                text,
                                answers[k].embedded,
                            ) && model@ == DEFAULT_EMBEDDING_MODEL@ && text@ == split_spec(event.markdown@)[k].0)
                            && (answers[k].embedded is Err ==> sstates[k + 1] == sstates[k]) && (answers[k].embedded is Ok
                            ==> exists|ms: &mut S, record: &VectorRecord|
                            *ms == sstates[k] && *final(ms) == sstates[k + 1] && #[trigger] record_upserted(
                                ms,
                                record,
                                answers[k].upserted,
                            ) && is_chunk_record(event, k, answers[k].embedded->Ok_0, *record)) by {
                        if k < i {
                            assert(istates[k] == old_is[k] && istates[k + 1] == old_is[k + 1]
                                && sstates[k] == old_ss[k] && sstates[k + 1] == old_ss[k + 1]
                                && answers[k] == old_answers[k]);
                        } else {
                            assert(istates[k] == ipre && istates[k + 1] == *inference && sstates[k]
                                == spre && sstates[k + 1] == *store && answers[k] == w);
                        }
                    }
                    assert(answers.last() == w);
                    assert(istates.len() == answers.len() + 1 && istates[0] == *old(inference));
                    assert(sstates.len() == answers.len() + 1 && sstates[0] == *old(store));
                }
                return Err(e);
            },
        };
        let record = VectorRecord { chunk, embedding };
        let upserted = upsert_call(store, &record);
        let ghost w = ChunkAnswers { embedded, upserted };
        proof {
            assert(is_chunk_record(event, i as int, embedding, record));
            assert(chunk_calls::<I, S>(event, i as int, w));
            lemma_chunks_extend::<I, S>(event, answers, w);
            let old_answers = answers;
            let old_is = istates;
            let old_ss = sstates;
            answers = answers.push(w);
            istates = istates.push(*inference);
            sstates = sstates.push(*store);
            assert forall|k: int|
                #![trigger call_index(k)]
                call_index(k) && k < i + 1 implies (exists|mi: &mut I, model: &str, text: &str|
                    *mi == istates[k] && *final(mi) == istates[k + 1] && #[trigger] text_embedded(
                        mi,
                        model,
                        text,
                        answers[k].embedded,
                    ) && model@ == DEFAULT_EMBEDDING_MODEL@ && text@ == split_spec(event.markdown@)[k].0)
                    && (answers[k].embedded is Err ==> sstates[k + 1] == sstates[k]) && (answers[k].embedded is Ok
                    ==> exists|ms: &mut S, record: &VectorRecord|
                    *ms == sstates[k] && *final(ms) == sstates[k + 1] && #[trigger] record_upserted(
                        ms,
                        record,
                        answers[k].upserted,
                    ) && is_chunk_record(event, k, answers[k].embedded->Ok_0, *record)) by {
                if k < i {
                    assert(istates[k] == old_is[k] && istates[k + 1] == old_is[k + 1]
                        && sstates[k] == old_ss[k] && sstates[k + 1] == old_ss[k + 1]
                        && answers[k] == old_answers[k]);
                } else {
                    assert(istates[k] == ipre && istates[k + 1] == *inference && sstates[k]
                        == spre && sstates[k + 1] == *store && answers[k] == w);
                }
            }
            assert(answers.last() == w);
            assert(istates.len() == answers.len() + 1 && istates[0] == *old(inference));
            assert(sstates.len() == answers.len() + 1 && sstates[0] == *old(store));
        }
        if let Err(e) = upserted {
            return Err(e);
        }
        assert(same_chunk(record.chunk, chunks@[i as int]));
        records.push(record);
        i = i + 1;
    }
    proof {
        assert(istates.len() == answers.len() + 1 && istates[0] == *old(inference));
        assert(sstates.len() == answers.len() + 1 && sstates[0] == *old(store));
        let rc = records@.map_values(|rec: VectorRecord| rec.chunk);
        assert(rc.map_values(|c: SemanticChunk| chunk_view(c)) =~= chunks@.map_values(
            |c: SemanticChunk| chunk_view(c),
        ));
        assert forall|k: int| 0 <= k < rc.len() implies (#[trigger] rc[k]).source_path
            == event.source_path && rc[k].source_sha256 == event.source_sha256 by {
            assert(same_chunk(records@[k].chunk, chunks@[k]));
        }
    }
    Ok(records)
}

// ---------------------------------------------------------------------------
// Heading paths
// ---------------------------------------------------------------------------

/// Whether the heading levels of a stack strictly increase, each from 1 to 6.
pub open spec fn levels_increase(stack: Seq<(nat, Seq<char>)>) -> bool {
    &&& forall|i: int, j: int| 0 <= i < j < stack.len() ==> #[trigger] stack[i].0 < #[trigger] stack[j].0
    &&& forall|i: int| 0 <= i < stack.len() ==> 1 <= #[trigger] stack[i].0 <= 6
}

/// A heading's level is from 1 to 6.
proof fn lemma_heading_level(line: Seq<char>)
    ensures
        heading_of(line) matches Some(h) ==> 1 <= h.0 <= 6,
{
}

/// What `keep_below` keeps comes from the stack and is below the level.
proof fn lemma_keep_below(stack: Seq<(nat, Seq<char>)>, level: nat)
    ensures
        forall|x: (nat, Seq<char>)| #[trigger] keep_below(stack, level).contains(x) ==> stack.contains(x)
            && x.0 < level,
        levels_increase(stack) ==> levels_increase(keep_below(stack, level)),
    decreases stack.len(),
{
    if stack.len() > 0 {
        let rest = stack.drop_last();
        lemma_keep_below(rest, level);
        let k = keep_below(stack, level);
        let kr = keep_below(rest, level);
        assert forall|x: (nat, Seq<char>)| #[trigger] k.contains(x) implies stack.contains(x)
            && x.0 < level by {
            if kr.contains(x) {
                let i = choose|i: int| 0 <= i < rest.len() && rest[i] == x;
                assert(stack[i] == x);
            } else {
                assert(x == stack.last());
                assert(stack[stack.len() - 1] == x);
            }
        }
        if levels_increase(stack) {
            assert(levels_increase(rest)) by {
                assert forall|i: int, j: int| 0 <= i < j < rest.len() implies #[trigger] rest[i].0
                    < #[trigger] rest[j].0 by {
                    assert(rest[i] == stack[i] && rest[j] == stack[j]);
                }
                assert forall|i: int| 0 <= i < rest.len() implies 1 <= #[trigger] rest[i].0 <= 6 by {
                    assert(rest[i] == stack[i]);
                }
            }
            if stack.last().0 < level {
                assert forall|i: int| 0 <= i < kr.len() implies #[trigger] kr[i].0 < stack.last().0 by {
                    assert(kr.contains(kr[i]));
                    let j = choose|j: int| 0 <= j < rest.len() && rest[j] == kr[i];
                    assert(stack[j] == rest[j]);
                }
                assert(k == kr.push(stack.last()));
                assert forall|i: int, j: int| 0 <= i < j < k.len() implies #[trigger] k[i].0
                    < #[trigger] k[j].0 by {
                    if j < kr.len() {
                        assert(k[i] == kr[i] && k[j] == kr[j]);
                    } else {
                        assert(k[i] == kr[i]);
                    }
                }
                assert forall|i: int| 0 <= i < k.len() implies 1 <= #[trigger] k[i].0 <= 6 by {
                    if i < kr.len() {
                        assert(k[i] == kr[i]);
                    } else {
                        assert(k[i] == stack[stack.len() - 1]);
                    }
                }
            }
        }
    }
}

/// The heading path in force at any line has strictly increasing levels,
/// each from 1 to 6: a heading closes every open heading of its level or
/// deeper before it opens.
pub proof fn law_heading_levels_increase(lines: Seq<Seq<char>>)
    ensures
        levels_increase(split_state(lines).0),
    decreases lines.len(),
{
    if lines.len() > 0 {
        law_heading_levels_increase(lines.drop_last());
        let (stack, body, chunks) = split_state(lines.drop_last());
        lemma_heading_level(lines.last());
        match heading_of(lines.last()) {
            Some((level, title)) => {
                lemma_keep_below(stack, level);
                let k = keep_below(stack, level);
                let next = k.push((level, title));
                assert forall|i: int| 0 <= i < k.len() implies #[trigger] k[i].0 < level by {
                    assert(k.contains(k[i]));
                }
                assert forall|i: int, j: int| 0 <= i < j < next.len() implies #[trigger] next[i].0
                    < #[trigger] next[j].0 by {
                    assert(next[i] == k[i]);
                    if j < k.len() {
                        assert(next[j] == k[j]);
                    }
                }
                assert forall|i: int| 0 <= i < next.len() implies 1 <= #[trigger] next[i].0 <= 6 by {
                    if i < k.len() {
                        assert(next[i] == k[i]);
                    }
                }
            },
            None => {},
        }
    }
}

} // verus!
