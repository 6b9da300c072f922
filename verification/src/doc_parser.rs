//! The document parser: fetches an updated file over WebDAV, turns it into
//! markdown (markdown as is, plain text and PDF text by a deterministic
//! heading and paragraph rule) and announces the markdown with its digest.

use vstd::prelude::*;
use crate::error::NebulaError;
use crate::hashing::{sha256_hex, sha256_hex_spec};
use crate::tenant_core::utf8_len;
use crate::text::{
    append_str, chars_of, lines, lines_of, owned, push_char, str_eq, string_of, trim, trim_bounds,
    trim_chars, utf8_len_at_most,
};

verus! {

pub const INPUT_TOPIC: &'static str = "nebula.fs.file_updated";
pub const OUTPUT_TOPIC: &'static str = "nebula.doc.markdown_ready";

/// A file changed on a tenant's volume.
#[derive(Debug, Clone, PartialEq, Eq)]
pub struct FileUpdatedEvent {
    pub path: String,
    pub mime_type: String,
    pub sha256: String,
    pub tunnel_host: String,
}

/// The markdown of a file, with the digests of source and markdown.
#[derive(Debug, Clone, PartialEq, Eq)]
pub struct MarkdownReadyEvent {
    pub source_path: String,
    pub source_sha256: String,
    pub markdown: String,
    pub markdown_sha256: String,
}

/// The WebDAV client that reaches a tenant's volume.
pub trait WebDavClient {
    fn fetch(&mut self, tunnel_host: &str, path: &str) -> Result<Vec<u8>, NebulaError>;
}

/// Where markdown goes.
pub trait EventBus {
    fn publish(&mut self, topic: &str, event: &MarkdownReadyEvent) -> Result<(), NebulaError>;
}

/// `fetch`, called through `client` with `tunnel_host` and `path`, may
/// answer `answer`.
#[verifier::inline]
pub open spec fn file_fetched<C: WebDavClient>(
    client: &mut C,
    tunnel_host: &str,
    path: &str,
    answer: Result<Vec<u8>, NebulaError>,
) -> bool {
    call_ensures(C::fetch, (client, tunnel_host, path), answer)
}

/// `publish`, called through `bus` with `topic` and `event`, may answer
/// `answer`.
#[verifier::inline]
pub open spec fn markdown_published<B: EventBus>(
    bus: &mut B,
    topic: &str,
    event: &MarkdownReadyEvent,
    answer: Result<(), NebulaError>,
) -> bool {
    call_ensures(B::publish, (bus, topic, event), answer)
}

// ---------------------------------------------------------------------------
// Standard-library calls without a vstd specification
// ---------------------------------------------------------------------------

/// Calls `String::from_utf8`: the bytes decoded when they are valid UTF-8,
/// otherwise the text of the error (its `Display`). The contract states when
/// the bytes decode and to what; the error's text is left unsaid.
#[verifier::external_body]
fn utf8_decode(bytes: &[u8]) -> (r: Result<String, String>)
    ensures
        r is Ok <==> vstd::utf8::valid_utf8(bytes@),
        r matches Ok(s) ==> s@ == vstd::utf8::decode_utf8(bytes@),
{
    match String::from_utf8(bytes.to_vec()) {
        Ok(s) => Ok(s),
        Err(e) => Err(e.to_string()),
    }
}

/// What `String::from_utf8_lossy` makes of `bytes`.
pub uninterp spec fn spec_utf8_lossy(bytes: Seq<u8>) -> Seq<char>;

/// Calls `String::from_utf8_lossy`, which replaces each invalid sequence by
/// U+FFFD. The result is named by `spec_utf8_lossy`; the contract also states
/// the documented fact that valid UTF-8 is decoded unchanged.
#[verifier::external_body]
fn utf8_lossy(bytes: &[u8]) -> (s: String)
    ensures
        s@ == spec_utf8_lossy(bytes@),
        vstd::utf8::valid_utf8(bytes@) ==> s@ == vstd::utf8::decode_utf8(bytes@),
{
    String::from_utf8_lossy(bytes).into_owned()
}

/// Whether `char::is_alphabetic` holds of a character (the Unicode
/// `Alphabetic` property).
pub uninterp spec fn spec_is_alphabetic(c: char) -> bool;

/// Calls `char::is_alphabetic`. The result is named by `spec_is_alphabetic`;
/// the contract also states that ASCII letters are alphabetic and ASCII
/// digits, spaces and `#` are not.
#[verifier::external_body]
fn is_alphabetic(c: char) -> (b: bool)
    ensures
        b == spec_is_alphabetic(c),
        ('a' <= c <= 'z' || 'A' <= c <= 'Z') ==> b,
        ('0' <= c <= '9' || c == ' ' || c == '#') ==> !b,
{
    c.is_alphabetic()
}

/// What `str::to_uppercase` makes of a string.
pub uninterp spec fn spec_to_uppercase(s: Seq<char>) -> Seq<char>;

/// Whether every character of `s` is ASCII.
pub open spec fn is_ascii_text(s: Seq<char>) -> bool {
    forall|i: int| 0 <= i < s.len() ==> (#[trigger] s[i] as u32) < 0x80
}

/// The ASCII uppercase of a character: `a` to `z` become `A` to `Z`, every
/// other character stays.
pub open spec fn ascii_upper(c: char) -> char {
    if 'a' <= c <= 'z' {
        ((c as u32) - 32) as char
    } else {
        c
    }
}

/// Calls `str::to_uppercase` (the Unicode uppercase mapping). The result is
/// named by `spec_to_uppercase`; the contract also states what the
/// documentation gives for ASCII text: each ASCII character maps to its ASCII
/// uppercase, one for one.
#[verifier::external_body]
fn to_uppercase(s: &str) -> (u: String)
    ensures
        u@ == spec_to_uppercase(s@),
        is_ascii_text(s@) ==> u@ == s@.map_values(|c: char| ascii_upper(c)),
{
    s.to_uppercase()
}

// ---------------------------------------------------------------------------
// Plain text to markdown
// ---------------------------------------------------------------------------

/// The number of alphabetic characters of `s`.
pub open spec fn alphabetic_count(s: Seq<char>) -> nat
    decreases s.len(),
{
    if s.len() == 0 {
        0
    } else {
        alphabetic_count(s.drop_last()) + if spec_is_alphabetic(s.last()) {
            1nat
        } else {
            0nat
        }
    }
}

/// A line reads as a heading when it has more than three letters, at most 96
/// bytes of UTF-8, and no letter that uppercasing would change.
pub open spec fn is_heading(line: Seq<char>) -> bool {
    &&& alphabetic_count(line) > 3
    &&& utf8_len(line) <= 96
    &&& line == spec_to_uppercase(line)
}

/// Whether a line reads as a heading.
pub fn looks_like_heading(line: &str) -> (b: bool)
    ensures
        b == is_heading(line@),
{
    let chars = chars_of(line);
    let mut letters: usize = 0;
    let mut i: usize = 0;
    while i < chars.len()
        invariant
            i <= chars.len(),
            letters == alphabetic_count(chars@.take(i as int)),
            letters <= i,
        decreases chars.len() - i,
    {
        proof {
            let t = chars@.take(i + 1);
            assert(t.drop_last() =~= chars@.take(i as int));
            assert(t.last() == chars@[i as int]);
        }
        if is_alphabetic(chars[i]) {
            letters = letters + 1;
        }
        i = i + 1;
    }
    assert(chars@.take(chars.len() as int) =~= chars@);
    if letters <= 3 || !utf8_len_at_most(&chars, 96) {
        return false;
    }
    let upper = to_uppercase(line);
    str_eq(line, upper.as_str())
}

/// The markdown written for the trimmed lines so far, and whether the last of
/// them was blank (true before any line). A heading line becomes `# line`, a
/// text line a paragraph; a run of blank lines after text leaves one extra
/// line feed.
pub open spec fn markdown_fold(lines: Seq<Seq<char>>) -> (Seq<char>, bool)
    decreases lines.len(),
{
    if lines.len() == 0 {
        (Seq::empty(), true)
    } else {
        let (md, previous_blank) = markdown_fold(lines.drop_last());
        let line = lines.last();
        if line.len() == 0 {
            (if previous_blank { md } else { md.push('\n') }, true)
        } else if is_heading(line) {
            (md + "# "@ + line + "\n\n"@, false)
        } else {
            (md + line + "\n\n"@, false)
        }
    }
}

/// The markdown written for lines is empty exactly when every line is
/// blank, and after a non-blank line the last line is not reported blank
/// until a blank line comes.
pub proof fn law_markdown_empty_iff_blank(lines: Seq<Seq<char>>)
    ensures
        markdown_fold(lines).0.len() == 0 <==> forall|k: int|
            0 <= k < lines.len() ==> (#[trigger] lines[k]).len() == 0,
        !markdown_fold(lines).1 ==> markdown_fold(lines).0.len() > 0,
    decreases lines.len(),
{
    if lines.len() > 0 {
        let rest = lines.drop_last();
        law_markdown_empty_iff_blank(rest);
        assert forall|k: int| 0 <= k < rest.len() implies rest[k] == lines[k] by {}
        if markdown_fold(lines).0.len() == 0 {
            assert(lines.last().len() == 0);
            assert forall|k: int| 0 <= k < lines.len() implies (#[trigger] lines[k]).len() == 0 by {
                if k < rest.len() {
                    assert(rest[k] == lines[k]);
                }
            }
        }
        if forall|k: int| 0 <= k < lines.len() ==> (#[trigger] lines[k]).len() == 0 {
            assert(lines[lines.len() - 1].len() == 0);
            assert forall|k: int| 0 <= k < rest.len() implies (#[trigger] rest[k]).len() == 0 by {
                assert(lines[k].len() == 0);
            }
        }
    }
}

/// The trimmed lines of a text.
pub open spec fn trimmed_lines(text: Seq<char>) -> Seq<Seq<char>> {
    lines(text).map_values(|l: Seq<char>| trim(l))
}

/// The markdown body of a text, trimmed.
pub open spec fn markdown_body(text: Seq<char>) -> Seq<char> {
    trim(markdown_fold(trimmed_lines(text)).0)
}

/// Turns text (read lossily as UTF-8) into markdown: headings and
/// paragraphs, trimmed, ending in one line feed. Text with nothing but
/// whitespace is refused with `EmptyDocument`.
pub fn deterministic_text_to_markdown(bytes: &[u8]) -> (r: Result<String, NebulaError>)
    ensures
        markdown_body(spec_utf8_lossy(bytes@)).len() == 0 ==> r == Err::<String, NebulaError>(
            NebulaError::EmptyDocument,
        ),
        markdown_body(spec_utf8_lossy(bytes@)).len() > 0 ==> (r matches Ok(m) && m@
            == markdown_body(spec_utf8_lossy(bytes@)).push('\n')),
{
    let text = utf8_lossy(bytes);
    let chars = chars_of(text.as_str());
    let raw_lines = lines_of(&chars);
    let ghost tl = trimmed_lines(text@);
    let mut markdown = String::new();
    let mut previous_blank = true;
    let mut i: usize = 0;
    while i < raw_lines.len()
        invariant
            i <= raw_lines@.len(),
            chars@ == text@,
            tl == trimmed_lines(text@),
            raw_lines@.len() == lines(chars@).len(),
            forall|k: int| 0 <= k < raw_lines@.len() ==> (#[trigger] raw_lines@[k])@ == lines(chars@)[k],
            (markdown@, previous_blank) == markdown_fold(tl.take(i as int)),
        decreases raw_lines.len() - i,
    {
        let line = trim_chars(&raw_lines[i]);
        proof {
            let t = tl.take(i + 1);
            assert(t.drop_last() =~= tl.take(i as int));
            assert(t.last() == line@);
        }
        if line.len() == 0 {
            if !previous_blank {
                push_char(&mut markdown, '\n');
            }
            previous_blank = true;
        } else {
            let s = string_of(&line);
            if looks_like_heading(s.as_str()) {
                append_str(&mut markdown, "# ");
                append_str(&mut markdown, s.as_str());
                append_str(&mut markdown, "\n\n");
            } else {
                append_str(&mut markdown, s.as_str());
                append_str(&mut markdown, "\n\n");
            }
            previous_blank = false;
        }
        i = i + 1;
    }
    assert(tl.take(raw_lines@.len() as int) =~= tl);
    let md_chars = chars_of(markdown.as_str());
    let (lo, hi) = trim_bounds(&md_chars);
    if lo == hi {
        return Err(NebulaError::EmptyDocument);
    }
    let mut out = crate::text::string_of_range(&md_chars, lo, hi);
    push_char(&mut out, '\n');
    Ok(out)
}

// ---------------------------------------------------------------------------
// Documents
// ---------------------------------------------------------------------------

/// Turns a document into markdown according to its MIME type: markdown is
/// taken as is (refused with `InvalidUtf8` when not UTF-8); plain text and
/// PDF text go through the deterministic rule; any other type is refused with
/// `UnsupportedMimeType`, holding the type.
pub fn parse_document_to_markdown(bytes: &[u8], mime_type: &str) -> (r: Result<String, NebulaError>)
    ensures
        mime_type@ == "text/markdown"@ ==> (if vstd::utf8::valid_utf8(bytes@) {
            r matches Ok(m) && m@ == vstd::utf8::decode_utf8(bytes@)
        } else {
            r matches Err(NebulaError::InvalidUtf8(_))
        }),
        (mime_type@ == "text/plain"@ || mime_type@ == "application/pdf"@) ==> (if markdown_body(
            spec_utf8_lossy(bytes@),
        ).len() == 0 {
            r == Err::<String, NebulaError>(NebulaError::EmptyDocument)
        } else {
            r matches Ok(m) && m@ == markdown_body(spec_utf8_lossy(bytes@)).push('\n')
        }),
        !(mime_type@ == "text/markdown"@ || mime_type@ == "text/plain"@ || mime_type@
            == "application/pdf"@) ==> (r matches Err(NebulaError::UnsupportedMimeType(m)) && m@
            == mime_type@),
{
    proof {
        reveal_strlit("text/markdown");
        reveal_strlit("text/plain");
        reveal_strlit("application/pdf");
        assert("text/plain"@.len() != "text/markdown"@.len());
        assert("application/pdf"@.len() != "text/markdown"@.len());
    }
    if str_eq(mime_type, "text/markdown") {
        match utf8_decode(bytes) {
            Ok(s) => Ok(s),
            Err(detail) => Err(NebulaError::InvalidUtf8(detail)),
        }
    } else if str_eq(mime_type, "text/plain") || str_eq(mime_type, "application/pdf") {
        deterministic_text_to_markdown(bytes)
    } else {
        Err(NebulaError::UnsupportedMimeType(owned(mime_type)))
    }
}

/// Whether `m` is the markdown of the document `bytes` of type `mime_type`.
pub open spec fn is_markdown_of(mime_type: Seq<char>, bytes: Seq<u8>, m: Seq<char>) -> bool {
    ||| mime_type == "text/markdown"@ && vstd::utf8::valid_utf8(bytes) && m
        == vstd::utf8::decode_utf8(bytes)
    ||| (mime_type == "text/plain"@ || mime_type == "application/pdf"@) && markdown_body(
        spec_utf8_lossy(bytes),
    ).len() > 0 && m == markdown_body(spec_utf8_lossy(bytes)).push('\n')
}

/// Whether `r` is what `parse_document_to_markdown` gives for the document
/// `bytes` of type `mime_type`: markdown is decoded as UTF-8 (refused with
/// `InvalidUtf8` when it is not), plain text and PDF text go through the
/// deterministic rule (refused with `EmptyDocument` when nothing is left),
/// and any other type is refused with `UnsupportedMimeType`.
pub open spec fn is_parse_outcome(mime_type: Seq<char>, bytes: Seq<u8>, r: Result<String, NebulaError>) -> bool {
    if mime_type == "text/markdown"@ {
        if vstd::utf8::valid_utf8(bytes) {
            r matches Ok(m) && m@ == vstd::utf8::decode_utf8(bytes)
        } else {
            r matches Err(NebulaError::InvalidUtf8(_))
        }
    } else if mime_type == "text/plain"@ || mime_type == "application/pdf"@ {
        if markdown_body(spec_utf8_lossy(bytes)).len() == 0 {
            r == Err::<String, NebulaError>(NebulaError::EmptyDocument)
        } else {
            r matches Ok(m) && m@ == markdown_body(spec_utf8_lossy(bytes)).push('\n')
        }
    } else {
        r matches Err(NebulaError::UnsupportedMimeType(m)) && m@ == mime_type
    }
}

/// Whether `m` is the markdown of some document of type `mime_type`.
pub open spec fn is_markdown_of_some(mime_type: Seq<char>, m: Seq<char>) -> bool {
    exists|bytes: Seq<u8>| is_markdown_of(mime_type, bytes, m)
}

/// Fetches the updated file, turns it into markdown and publishes it on
/// `OUTPUT_TOPIC` with the markdown's hex SHA-256. A refused document or a
/// failing port ends the call with its error.
pub fn ingest_file<C: WebDavClient, B: EventBus>(
    client: &mut C,
    bus: &mut B,
    event: FileUpdatedEvent,
) -> (r: Result<MarkdownReadyEvent, NebulaError>)
    ensures
        r matches Ok(out) ==> {
            &&& out.source_path == event.path
            &&& out.source_sha256 == event.sha256
            &&& out.markdown_sha256@ == sha256_hex_spec(out.markdown@)
            &&& is_markdown_of_some(event.mime_type@, out.markdown@)
        },
        exists|mc: &mut C, host: &str, path: &str, fetched: Result<Vec<u8>, NebulaError>|
            #[trigger] file_fetched(mc, host, path, fetched) && *mc == *old(client) && *final(mc)
                == *final(client) && host@ == event.tunnel_host@ && path@ == event.path@
                && match fetched {
                Err(e) => r == Err::<MarkdownReadyEvent, NebulaError>(e) && *final(bus) == *old(bus),
                Ok(bytes) => exists|parsed: Result<String, NebulaError>|
                    #[trigger] is_parse_outcome(event.mime_type@, bytes@, parsed) && match parsed {
                        Err(e) => r == Err::<MarkdownReadyEvent, NebulaError>(e) && *final(bus)
                            == *old(bus),
                        Ok(markdown) => exists|
                            mb: &mut B,
                            topic: &str,
                            out: &MarkdownReadyEvent,
                            x: Result<(), NebulaError>,
                        |
                            #[trigger] markdown_published(mb, topic, out, x) && *mb == *old(bus)
                                && *final(mb) == *final(bus) && topic@ == OUTPUT_TOPIC@
                                && out.source_path == event.path && out.source_sha256
                                == event.sha256 && out.markdown == markdown
                                && out.markdown_sha256@ == sha256_hex_spec(markdown@) && r == (
                            match x {
                                Ok(_) => Ok::<MarkdownReadyEvent, NebulaError>(*out),
                                Err(e) => Err(e),
                            }),
                    },
            },
{
    let bytes = client.fetch(event.tunnel_host.as_str(), event.path.as_str())?;
    let parsed = parse_document_to_markdown(bytes.as_slice(), event.mime_type.as_str());
    proof {
        reveal_strlit("text/markdown");
        reveal_strlit("text/plain");
        reveal_strlit("application/pdf");
        assert(is_parse_outcome(event.mime_type@, bytes@, parsed));
    }
    let markdown = parsed?;
    assert(is_markdown_of(event.mime_type@, bytes@, markdown@));
    let markdown_sha256 = sha256_hex(markdown.as_str());
    let output = MarkdownReadyEvent {
        source_path: event.path,
        source_sha256: event.sha256,
        markdown,
        markdown_sha256,
    };
    bus.publish(OUTPUT_TOPIC, &output)?;
    Ok(output)
}

} // verus!
