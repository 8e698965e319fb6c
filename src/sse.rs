//! Decoding of streamed responses in three wire dialects.
//!
//! Framing is newline-delimited text; what a frame means depends on the
//! dialect. Parsing a frame is a pure function from a line to an optional
//! chunk; `SseDecoder` accumulates partial lines across reads and makes sure a
//! stream ends with exactly one terminal chunk.

use vstd::prelude::*;
use crate::json::{
    as_count, as_flag, as_text, at_index, at_key, deref_opt, get_count, get_flag, get_index,
    get_key, get_text, parse_json, parsed_json, same_text, JsonValue,
};
use crate::text::{
    chars_of, concat, equals_text, has_prefix, starts_with, string_of, trim_bounds, trimmed,
};
use crate::strategies::{is_newline, lemma_split_nonempty, split_by};
use crate::usage::{clamp_count, clamp_to_u32, TokenUsage};

verus! {

/// The wire dialect of a stream, fixed by the provider kind.
#[derive(Debug, Clone, Copy, PartialEq, Eq, Structural)]
pub enum SseFormat {
    /// `data: <json>` frames, ended by `data: [DONE]`.
    OpenAI,
    /// `event:` and `data:` lines; the payload's `type` decides.
    Anthropic,
    /// One JSON object per line.
    Ollama,
}

/// One element of a decoded stream.
#[derive(Debug, Clone)]
pub enum StreamChunk {
    TextDelta(String),
    Done(TokenUsage),
    Error(String),
}

pub open spec fn is_delta(r: Option<StreamChunk>, t: Seq<char>) -> bool {
    match r {
        Some(StreamChunk::TextDelta(s)) => s@ == t,
        _ => false,
    }
}

pub open spec fn is_done(r: Option<StreamChunk>, prompt: u32, completion: u32) -> bool {
    match r {
        Some(StreamChunk::Done(u)) => u.is_plain(prompt, completion),
        _ => false,
    }
}

pub open spec fn is_error(r: Option<StreamChunk>, msg: Seq<char>) -> bool {
    match r {
        Some(StreamChunk::Error(s)) => s@ == msg,
        _ => false,
    }
}

/// An error chunk reporting a payload that is not JSON.
pub open spec fn is_parse_error(r: Option<StreamChunk>) -> bool {
    match r {
        Some(StreamChunk::Error(s)) => starts_with(s@, "JSON parse error: "@),
        _ => false,
    }
}

pub open spec fn is_terminal(c: StreamChunk) -> bool {
    !(c is TextDelta)
}

/// A token count read from a payload; absent counts are zero.
pub open spec fn count_or_zero(v: Option<JsonValue>) -> u32 {
    match as_count(v) {
        Some(n) => clamp_count(n),
        None => 0,
    }
}

/// Text that is present and not empty.
pub open spec fn nonempty_text(v: Option<JsonValue>) -> Option<Seq<char>> {
    match as_text(v) {
        Some(t) => if t.len() > 0 {
            Some(t)
        } else {
            None
        },
        None => None,
    }
}

/// What an OpenAI-style payload means.
pub open spec fn openai_meaning(v: JsonValue, r: Option<StreamChunk>) -> bool {
    let choice = at_index(at_key(Some(v), "choices"@), 0);
    let content = nonempty_text(at_key(at_key(choice, "delta"@), "content"@));
    let reason = as_text(at_key(choice, "finish_reason"@));
    let usage = at_key(Some(v), "usage"@);
    if content is Some {
        is_delta(r, content->0)
    } else if reason is Some {
        is_done(
            r,
            count_or_zero(at_key(usage, "prompt_tokens"@)),
            count_or_zero(at_key(usage, "completion_tokens"@)),
        )
    } else {
        r is None
    }
}

/// What an Anthropic-style payload means.
pub open spec fn anthropic_meaning(v: JsonValue, r: Option<StreamChunk>) -> bool {
    let kind = as_text(at_key(Some(v), "type"@));
    let usage = at_key(Some(v), "usage"@);
    if kind == Some("content_block_delta"@) {
        match nonempty_text(at_key(at_key(Some(v), "delta"@), "text"@)) {
            Some(t) => is_delta(r, t),
            None => r is None,
        }
    } else if kind == Some("message_delta"@) {
        is_done(
            r,
            count_or_zero(at_key(usage, "input_tokens"@)),
            count_or_zero(at_key(usage, "output_tokens"@)),
        )
    } else if kind == Some("message_stop"@) {
        is_done(r, 0, 0)
    } else if kind == Some("error"@) {
        match as_text(at_key(at_key(Some(v), "error"@), "message"@)) {
            Some(m) => is_error(r, m),
            None => is_error(r, "Unknown error"@),
        }
    } else {
        r is None
    }
}

/// What an Ollama-style payload means.
pub open spec fn ollama_meaning(v: JsonValue, r: Option<StreamChunk>) -> bool {
    let content = nonempty_text(at_key(at_key(Some(v), "message"@), "content"@));
    let response = nonempty_text(at_key(Some(v), "response"@));
    if content is Some {
        is_delta(r, content->0)
    } else if response is Some {
        is_delta(r, response->0)
    } else if as_flag(at_key(Some(v), "done"@)) == Some(true) {
        is_done(
            r,
            count_or_zero(at_key(Some(v), "prompt_eval_count"@)),
            count_or_zero(at_key(Some(v), "eval_count"@)),
        )
    } else {
        r is None
    }
}

/// What a payload text means once parsed with the given reading.
pub open spec fn payload_meaning(data: Seq<char>, format: SseFormat, r: Option<StreamChunk>) -> bool {
    match parsed_json(data) {
        None => is_parse_error(r),
        Some(v) => match format {
            SseFormat::OpenAI => openai_meaning(v, r),
            SseFormat::Anthropic => anthropic_meaning(v, r),
            SseFormat::Ollama => ollama_meaning(v, r),
        },
    }
}

/// What one line of a stream means in a dialect.
pub open spec fn line_meaning(line: Seq<char>, format: SseFormat, r: Option<StreamChunk>) -> bool {
    let t = trimmed(line);
    let data = t.subrange("data: "@.len() as int, t.len() as int);
    if t.len() == 0 || t[0] == ':' {
        r is None
    } else {
        match format {
            SseFormat::OpenAI => if !starts_with(t, "data: "@) {
                r is None
            } else if trimmed(data) == "[DONE]"@ {
                is_done(r, 0, 0)
            } else {
                payload_meaning(data, format, r)
            },
            SseFormat::Anthropic => if starts_with(t, "event:"@) || !starts_with(t, "data: "@) {
                r is None
            } else {
                payload_meaning(data, format, r)
            },
            SseFormat::Ollama => payload_meaning(t, format, r),
        }
    }
}

fn text_is(s: &String, lit: &str) -> (r: bool)
    ensures
        r == (s@ == lit@),
{
    same_text(s.as_str(), lit)
}

fn nonempty(t: Option<String>) -> (r: Option<String>)
    ensures
        match r {
            Some(s) => t is Some && s@ == t->0@ && s@.len() > 0,
            None => t is None || t->0@.len() == 0,
        },
{
    match t {
        Some(s) => if s.as_str().unicode_len() > 0 {
            Some(s)
        } else {
            None
        },
        None => None,
    }
}

fn count_field(v: Option<&JsonValue>) -> (r: u32)
    ensures
        r == count_or_zero(deref_opt(v)),
{
    match get_count(v) {
        Some(n) => clamp_to_u32(n),
        None => 0,
    }
}

/// The chunk an OpenAI-style payload stands for.
pub fn openai_chunk(v: &JsonValue) -> (r: Option<StreamChunk>)
    ensures
        openai_meaning(*v, r),
{
    let choice = get_index(get_key(Some(v), "choices"), 0);
    let content = get_text(get_key(get_key(choice, "delta"), "content"));
    if let Some(t) = nonempty(content) {
        return Some(StreamChunk::TextDelta(t));
    }
    let reason = get_text(get_key(choice, "finish_reason"));
    if reason.is_some() {
        let usage = get_key(Some(v), "usage");
        let u = TokenUsage::new(
            count_field(get_key(usage, "prompt_tokens")),
            count_field(get_key(usage, "completion_tokens")),
        );
        return Some(StreamChunk::Done(u));
    }
    None
}

/// The chunk an Anthropic-style payload stands for.
pub fn anthropic_chunk(v: &JsonValue) -> (r: Option<StreamChunk>)
    ensures
        anthropic_meaning(*v, r),
{
    let kind = get_text(get_key(Some(v), "type"));
    let kind = match kind {
        Some(k) => k,
        None => {
            return None;
        },
    };
    let usage = get_key(Some(v), "usage");
    if text_is(&kind, "content_block_delta") {
        match nonempty(get_text(get_key(get_key(Some(v), "delta"), "text"))) {
            Some(t) => Some(StreamChunk::TextDelta(t)),
            None => None,
        }
    } else if text_is(&kind, "message_delta") {
        let u = TokenUsage::new(
            count_field(get_key(usage, "input_tokens")),
            count_field(get_key(usage, "output_tokens")),
        );
        Some(StreamChunk::Done(u))
    } else if text_is(&kind, "message_stop") {
        Some(StreamChunk::Done(TokenUsage::new(0, 0)))
    } else if text_is(&kind, "error") {
        match get_text(get_key(get_key(Some(v), "error"), "message")) {
            Some(m) => Some(StreamChunk::Error(m)),
            None => Some(StreamChunk::Error(String::from_str("Unknown error"))),
        }
    } else {
        None
    }
}

/// The chunk an Ollama-style payload stands for.
pub fn ollama_chunk(v: &JsonValue) -> (r: Option<StreamChunk>)
    ensures
        ollama_meaning(*v, r),
{
    if let Some(t) = nonempty(get_text(get_key(get_key(Some(v), "message"), "content"))) {
        return Some(StreamChunk::TextDelta(t));
    }
    if let Some(t) = nonempty(get_text(get_key(Some(v), "response"))) {
        return Some(StreamChunk::TextDelta(t));
    }
    if get_flag(get_key(Some(v), "done")) == Some(true) {
        let u = TokenUsage::new(
            count_field(get_key(Some(v), "prompt_eval_count")),
            count_field(get_key(Some(v), "eval_count")),
        );
        return Some(StreamChunk::Done(u));
    }
    None
}

fn payload_chunk(cs: &Vec<char>, from: usize, to: usize, format: SseFormat) -> (r: Option<StreamChunk>)
    requires
        from <= to <= cs@.len(),
    ensures
        payload_meaning(cs@.subrange(from as int, to as int), format, r),
{
    let data = string_of(cs, from, to);
    match parse_json(data.as_str()) {
        Err(e) => {
            let msg = concat("JSON parse error: ", e.as_str());
            proof {
                reveal_strlit("JSON parse error: ");
                assert(msg@.subrange(0, "JSON parse error: "@.len() as int) == "JSON parse error: "@);
            }
            Some(StreamChunk::Error(msg))
        },
        Ok(v) => match format {
            SseFormat::OpenAI => openai_chunk(&v),
            SseFormat::Anthropic => anthropic_chunk(&v),
            SseFormat::Ollama => ollama_chunk(&v),
        },
    }
}

/// The chunk that the line `cs[from..to]` stands for, if any.
fn line_chunk(cs: &Vec<char>, from: usize, to: usize, format: SseFormat) -> (r: Option<StreamChunk>)
    requires
        from <= to <= cs@.len(),
    ensures
        line_meaning(cs@.subrange(from as int, to as int), format, r),
{
    let ghost line = cs@.subrange(from as int, to as int);
    let (a, b) = trim_bounds(cs, from, to);
    let ghost t = cs@.subrange(a as int, b as int);
    proof {
        reveal_strlit("data: ");
        assert(t == trimmed(line));
    }
    if a == b || cs[a] == ':' {
        return None;
    }
    match format {
        SseFormat::OpenAI => {
            if !has_prefix(cs, a, b, "data: ") {
                return None;
            }
            assert(t.subrange(6, t.len() as int) == cs@.subrange(a + 6, b as int));
            let (da, db) = trim_bounds(cs, a + 6, b);
            if equals_text(cs, da, db, "[DONE]") {
                return Some(StreamChunk::Done(TokenUsage::new(0, 0)));
            }
            payload_chunk(cs, a + 6, b, format)
        },
        SseFormat::Anthropic => {
            if has_prefix(cs, a, b, "event:") || !has_prefix(cs, a, b, "data: ") {
                return None;
            }
            assert(t.subrange(6, t.len() as int) == cs@.subrange(a + 6, b as int));
            payload_chunk(cs, a + 6, b, format)
        },
        SseFormat::Ollama => payload_chunk(cs, a, b, format),
    }
}

/// Parses one line of a stream. Returns `None` for lines that carry nothing:
/// blank lines, comments, event-type lines and payloads without content.
pub fn parse_sse_line(line: &str, format: SseFormat) -> (r: Option<StreamChunk>)
    ensures
        line_meaning(line@, format, r),
{
    let cs = chars_of(line);
    assert(cs@.subrange(0, cs@.len() as int) == line@);
    line_chunk(&cs, 0, cs.len(), format)
}

/// The number of terminal chunks (`Done` or `Error`) in `s`.
pub open spec fn terminal_count(s: Seq<StreamChunk>) -> nat
    decreases s.len(),
{
    if s.len() == 0 {
        0
    } else {
        terminal_count(s.drop_last()) + if is_terminal(s.last()) { 1nat } else { 0nat }
    }
}

/// Terminal chunks over a stream's successive batches of output.
pub open spec fn total_terminals(bs: Seq<Seq<StreamChunk>>) -> nat
    decreases bs.len(),
{
    if bs.len() == 0 {
        0
    } else {
        total_terminals(bs.drop_last()) + terminal_count(bs.last())
    }
}

/// Batch `i` adds a terminal exactly when it finishes the decoder, and a
/// finished decoder stays finished.
pub open spec fn batch_ok(bs: Seq<Seq<StreamChunk>>, fin: Seq<bool>, i: int) -> bool {
    &&& terminal_count(bs[i]) == (if fin[i + 1] && !fin[i] { 1nat } else { 0nat })
    &&& fin[i] ==> fin[i + 1]
}

proof fn lemma_terminals_prefix(bs: Seq<Seq<StreamChunk>>, fin: Seq<bool>, k: int)
    requires
        fin.len() == bs.len() + 1,
        !fin[0],
        0 <= k <= bs.len(),
        forall|i: int| 0 <= i < bs.len() ==> #[trigger] batch_ok(bs, fin, i),
    ensures
        total_terminals(bs.subrange(0, k)) == if fin[k] { 1nat } else { 0nat },
    decreases k,
{
    if k > 0 {
        lemma_terminals_prefix(bs, fin, k - 1);
        assert(batch_ok(bs, fin, k - 1));
        assert(bs.subrange(0, k).drop_last() == bs.subrange(0, k - 1));
        assert(bs.subrange(0, k).last() == bs[k - 1]);
    }
}

/// A decoded stream holds exactly one terminal chunk: over the batches that
/// successive `feed` calls and the closing `finish` return (each adding a
/// terminal exactly when it moves the decoder from unfinished to finished),
/// the terminals add up to one.
pub proof fn lemma_one_terminal_per_stream(bs: Seq<Seq<StreamChunk>>, fin: Seq<bool>)
    requires
        fin.len() == bs.len() + 1,
        !fin[0],
        fin.last(),
        forall|i: int| 0 <= i < bs.len() ==> #[trigger] batch_ok(bs, fin, i),
    ensures
        total_terminals(bs) == 1,
{
    lemma_terminals_prefix(bs, fin, bs.len() as int);
    assert(bs.subrange(0, bs.len() as int) == bs);
}

/// What `String::from_utf8_lossy` makes of a byte sequence.
pub uninterp spec fn lossy_text(b: Seq<u8>) -> Seq<char>;

/// Relies on `String::from_utf8_lossy`: the text depends on the bytes alone,
/// and valid UTF-8 is decoded unchanged.
#[verifier::external_body]
fn decode_lossy(b: &[u8]) -> (r: String)
    ensures
        r@ == lossy_text(b@),
        vstd::utf8::valid_utf8(b@) ==> r@ == vstd::utf8::decode_utf8(b@),
{
    String::from_utf8_lossy(b).into_owned()
}

/// `out` is what the lines `ls` stand for, in order, up to and including
/// the first terminal chunk; lines after it are not read.
pub open spec fn decoded(ls: Seq<Seq<char>>, fmt: SseFormat, out: Seq<StreamChunk>) -> bool
    decreases ls.len(),
{
    if ls.len() == 0 {
        out.len() == 0
    } else {
        exists|c: Option<StreamChunk>|
            #[trigger] line_meaning(ls[0], fmt, c) && match c {
                None => decoded(ls.drop_first(), fmt, out),
                Some(ch) => out.len() > 0 && out[0] == ch && if is_terminal(ch) {
                    out.len() == 1
                } else {
                    decoded(ls.drop_first(), fmt, out.drop_first())
                },
            }
    }
}

pub open spec fn opt_seq(c: Option<StreamChunk>) -> Seq<StreamChunk> {
    match c {
        Some(ch) => seq![ch],
        None => Seq::<StreamChunk>::empty(),
    }
}

/// Newline as the only line separator.
pub open spec fn newline_sep() -> spec_fn(char) -> bool {
    |c: char| is_newline(c)
}

/// The complete lines of a text: every newline-terminated segment.
pub open spec fn complete_lines(t: Seq<char>) -> Seq<Seq<char>> {
    split_by(t, newline_sep()).drop_last()
}

/// The unterminated rest of a text after its last newline.
pub open spec fn partial_line(t: Seq<char>) -> Seq<char> {
    split_by(t, newline_sep()).last()
}

proof fn lemma_decoded_extend(ls: Seq<Seq<char>>, fmt: SseFormat, out: Seq<StreamChunk>, x: Seq<char>, c: Option<StreamChunk>)
    requires
        decoded(ls, fmt, out),
        forall|j: int| 0 <= j < out.len() ==> !is_terminal(#[trigger] out[j]),
        line_meaning(x, fmt, c),
    ensures
        decoded(ls.push(x), fmt, out + opt_seq(c)),
    decreases ls.len(),
{
    let l2 = ls.push(x);
    let o2 = out + opt_seq(c);
    if ls.len() == 0 {
        assert(l2[0] == x);
        assert(l2.drop_first() =~= Seq::<Seq<char>>::empty());
        match c {
            Some(ch) => {
                assert(o2 =~= seq![ch]);
                if !is_terminal(ch) {
                    assert(o2.drop_first() =~= Seq::<StreamChunk>::empty());
                    assert(decoded(Seq::<Seq<char>>::empty(), fmt, Seq::<StreamChunk>::empty()));
                    assert(decoded(l2.drop_first(), fmt, o2.drop_first()));
                }
            },
            None => {
                assert(o2 =~= Seq::<StreamChunk>::empty());
                assert(decoded(Seq::<Seq<char>>::empty(), fmt, Seq::<StreamChunk>::empty()));
                assert(decoded(l2.drop_first(), fmt, o2));
            },
        }
        assert(line_meaning(l2[0], fmt, c));
    } else {
        let c0 = choose|c0: Option<StreamChunk>|
            #[trigger] line_meaning(ls[0], fmt, c0) && match c0 {
                None => decoded(ls.drop_first(), fmt, out),
                Some(ch) => out.len() > 0 && out[0] == ch && if is_terminal(ch) {
                    out.len() == 1
                } else {
                    decoded(ls.drop_first(), fmt, out.drop_first())
                },
            };
        assert(l2[0] == ls[0]);
        assert(l2.drop_first() =~= ls.drop_first().push(x));
        match c0 {
            None => {
                lemma_decoded_extend(ls.drop_first(), fmt, out, x, c);
                assert(decoded(l2.drop_first(), fmt, o2));
            },
            Some(ch) => {
                assert(!is_terminal(out[0]));
                assert forall|j: int| 0 <= j < out.drop_first().len() implies !is_terminal(#[trigger] out.drop_first()[j]) by {
                    assert(out.drop_first()[j] == out[j + 1]);
                }
                lemma_decoded_extend(ls.drop_first(), fmt, out.drop_first(), x, c);
                assert(o2[0] == ch);
                assert(o2.drop_first() =~= out.drop_first() + opt_seq(c));
                assert(decoded(l2.drop_first(), fmt, o2.drop_first()));
            },
        }
        assert(line_meaning(l2[0], fmt, c0));
    }
}

proof fn lemma_decoded_after_terminal(p: Seq<Seq<char>>, q: Seq<Seq<char>>, fmt: SseFormat, out: Seq<StreamChunk>)
    requires
        decoded(p, fmt, out),
        out.len() > 0,
        is_terminal(out.last()),
    ensures
        decoded(p + q, fmt, out),
    decreases p.len(),
{
    if p.len() > 0 {
        let c0 = choose|c0: Option<StreamChunk>|
            #[trigger] line_meaning(p[0], fmt, c0) && match c0 {
                None => decoded(p.drop_first(), fmt, out),
                Some(ch) => out.len() > 0 && out[0] == ch && if is_terminal(ch) {
                    out.len() == 1
                } else {
                    decoded(p.drop_first(), fmt, out.drop_first())
                },
            };
        assert((p + q)[0] == p[0]);
        assert((p + q).drop_first() =~= p.drop_first() + q);
        match c0 {
            None => {
                lemma_decoded_after_terminal(p.drop_first(), q, fmt, out);
            },
            Some(ch) => {
                if !is_terminal(ch) {
                    assert(out.len() >= 2);
                    assert(out.drop_first().last() == out.last());
                    lemma_decoded_after_terminal(p.drop_first(), q, fmt, out.drop_first());
                }
            },
        }
        assert(line_meaning((p + q)[0], fmt, c0));
    } else {
        assert(false);
    }
}

proof fn lemma_split_concat(a: Seq<char>, b: Seq<char>)
    requires
        a.len() > 0,
        is_newline(a.last()),
    ensures
        split_by(a + b, newline_sep()) == split_by(a, newline_sep()).drop_last() + split_by(b, newline_sep()),
    decreases b.len(),
{
    let f = newline_sep();
    if b.len() == 0 {
        assert(a + b =~= a);
        assert(a.drop_last() + seq![a.last()] =~= a);
        let sa = split_by(a, f);
        assert(sa == split_by(a.drop_last(), f).push(Seq::<char>::empty()));
        assert(sa.drop_last() + seq![Seq::<char>::empty()] =~= sa);
    } else {
        lemma_split_concat(a, b.drop_last());
        assert((a + b).drop_last() =~= a + b.drop_last());
        assert((a + b).last() == b.last());
        lemma_split_nonempty(b.drop_last(), f);
        let sa = split_by(a, f).drop_last();
        let sb = split_by(b.drop_last(), f);
        if f(b.last()) {
            assert((sa + sb).push(Seq::<char>::empty()) =~= sa + sb.push(Seq::<char>::empty()));
        } else {
            let l = sa + sb;
            assert(l.update(l.len() - 1, l.last().push(b.last())) =~= sa + sb.update(sb.len() - 1, sb.last().push(b.last())));
        }
    }
}

/// Whether a byte continues a UTF-8 sequence.
pub open spec fn is_continuation(b: u8) -> bool {
    0x80 <= b && b < 0xC0
}

/// How many bytes the UTF-8 sequence led by `b` takes (1 for a byte that
/// cannot lead one).
pub open spec fn sequence_len(b: u8) -> int {
    if b < 0x80 {
        1
    } else if 0xC0 <= b && b < 0xE0 {
        2
    } else if 0xE0 <= b && b < 0xF0 {
        3
    } else if 0xF0 <= b && b < 0xF8 {
        4
    } else {
        1
    }
}

/// Where the unfinished character at the end of `b` starts, or `b.len()`
/// when the last character is complete.
pub open spec fn tail_start(b: Seq<u8>) -> int {
    let n = b.len() as int;
    if n >= 1 && !is_continuation(b[n - 1]) {
        if sequence_len(b[n - 1]) > 1 { n - 1 } else { n }
    } else if n >= 2 && !is_continuation(b[n - 2]) {
        if sequence_len(b[n - 2]) > 2 { n - 2 } else { n }
    } else if n >= 3 && !is_continuation(b[n - 3]) {
        if sequence_len(b[n - 3]) > 3 { n - 3 } else { n }
    } else {
        n
    }
}

fn seq_len(b: u8) -> (r: usize)
    ensures
        r == sequence_len(b),
{
    if b < 0x80 {
        1
    } else if 0xC0 <= b && b < 0xE0 {
        2
    } else if 0xE0 <= b && b < 0xF0 {
        3
    } else if 0xF0 <= b && b < 0xF8 {
        4
    } else {
        1
    }
}

fn continues(x: u8) -> (r: bool)
    ensures
        r == is_continuation(x),
{
    0x80 <= x && x < 0xC0
}

fn utf8_tail_start(b: &Vec<u8>) -> (r: usize)
    ensures
        r == tail_start(b@),
        r <= b@.len(),
{
    let n = b.len();
    if n >= 1 && !continues(b[n - 1]) {
        if seq_len(b[n - 1]) > 1 { n - 1 } else { n }
    } else if n >= 2 && !continues(b[n - 2]) {
        if seq_len(b[n - 2]) > 2 { n - 2 } else { n }
    } else if n >= 3 && !continues(b[n - 3]) {
        if seq_len(b[n - 3]) > 3 { n - 3 } else { n }
    } else {
        n
    }
}

/// Accumulates a byte stream and turns its complete lines into chunks. Once a
/// terminal chunk (`Done` or `Error`) has been produced nothing more comes out.
pub struct SseDecoder {
    format: SseFormat,
    pending: Vec<char>,
    carry: Vec<u8>,
    finished: bool,
}

impl SseDecoder {
    pub closed spec fn finished_spec(&self) -> bool {
        self.finished
    }

    pub closed spec fn format_spec(&self) -> SseFormat {
        self.format
    }

    /// The text received after the last complete line.
    pub closed spec fn pending_spec(&self) -> Seq<char> {
        self.pending@
    }

    /// The bytes of a character that the last read left unfinished.
    pub closed spec fn carry_spec(&self) -> Seq<u8> {
        self.carry@
    }

    pub fn new(format: SseFormat) -> (r: Self)
        ensures
            !r.finished_spec(),
            r.format_spec() == format,
            r.pending_spec().len() == 0,
            r.carry_spec().len() == 0,
    {
        SseDecoder { format, pending: Vec::new(), carry: Vec::new(), finished: false }
    }

    pub fn is_finished(&self) -> (r: bool)
        ensures
            r == self.finished_spec(),
    {
        self.finished
    }

    /// Feeds decoded text. Only the last chunk returned can be terminal, and
    /// the decoder is finished afterwards exactly when it was before or that
    /// last chunk is terminal.
    pub fn feed_text(&mut self, text: &str) -> (r: Vec<StreamChunk>)
        ensures
            final(self).format_spec() == old(self).format_spec(),
            old(self).finished_spec() ==> r@.len() == 0,
            forall|i: int| 0 <= i < r@.len() && is_terminal(#[trigger] r@[i]) ==> i == r@.len() - 1,
            final(self).finished_spec() == (old(self).finished_spec() || (r@.len() > 0
                && is_terminal(r@.last()))),
            terminal_count(r@) == if final(self).finished_spec() && !old(self).finished_spec() {
                1nat
            } else {
                0nat
            },
            !old(self).finished_spec() ==> decoded(
                complete_lines(old(self).pending_spec() + text@),
                old(self).format_spec(),
                r@,
            ),
            !final(self).finished_spec() ==> final(self).pending_spec() == partial_line(
                old(self).pending_spec() + text@,
            ),
    {
        let mut out: Vec<StreamChunk> = Vec::new();
        if self.finished {
            return out;
        }
        let add = chars_of(text);
        let mut k: usize = 0;
        while k < add.len()
            invariant
                k <= add@.len(),
                !self.finished,
                !old(self).finished,
                self.format == old(self).format,
                self.pending@ == old(self).pending@ + add@.subrange(0, k as int),
            decreases add@.len() - k,
        {
            self.pending.push(add[k]);
            k = k + 1;
            assert(self.pending@ =~= old(self).pending@ + add@.subrange(0, k as int));
        }
        assert(add@.subrange(0, add@.len() as int) == text@);
        let ghost buf = self.pending@;
        let ghost sep = newline_sep();
        let ghost mut done: Seq<Seq<char>> = seq![];
        let mut start: usize = 0;
        let mut i: usize = 0;
        let n = self.pending.len();
        proof {
            assert(buf.subrange(0, 0) == Seq::<char>::empty());
            assert(split_by(Seq::<char>::empty(), sep) == seq![Seq::<char>::empty()]);
            assert(done.push(buf.subrange(0, 0)) == seq![Seq::<char>::empty()]);
        }
        while i < n
            invariant
                n == self.pending@.len(),
                buf == self.pending@,
                buf == old(self).pending@ + text@,
                start <= i <= n,
                !self.finished,
                !old(self).finished,
                self.format == old(self).format,
                sep == newline_sep(),
                forall|c: char| #[trigger] sep(c) == is_newline(c),
                split_by(buf.subrange(0, i as int), sep) == done.push(buf.subrange(start as int, i as int)),
                decoded(done, self.format, out@),
                forall|j: int| 0 <= j < out@.len() ==> !is_terminal(#[trigger] out@[j]),
                terminal_count(out@) == 0,
            decreases n - i,
        {
            let ghost pre = buf.subrange(0, i as int);
            proof {
                assert(buf.subrange(0, i + 1).drop_last() == pre);
                assert(buf.subrange(0, i + 1).last() == buf[i as int]);
            }
            if self.pending[i] == '\n' {
                let c = line_chunk(&self.pending, start, i, self.format);
                let ghost line = buf.subrange(start as int, i as int);
                proof {
                    lemma_decoded_extend(done, self.format, out@, line, c);
                    assert(sep(buf[i as int]));
                    done = done.push(line);
                    assert(buf.subrange(i + 1, i + 1) == Seq::<char>::empty());
                }
                start = i + 1;
                let ghost before = out@;
                if let Some(chunk) = c {
                    let terminal = !matches!(chunk, StreamChunk::TextDelta(_));
                    out.push(chunk);
                    assert(out@.drop_last() == before);
                    assert(out@ =~= before + opt_seq(c));
                    if terminal {
                        proof {
                            let head = buf.subrange(0, i + 1);
                            let tail = buf.subrange(i + 1, n as int);
                            assert(head + tail =~= buf);
                            assert(split_by(head, sep) == done.push(Seq::<char>::empty()));
                            lemma_split_concat(head, tail);
                            let st = split_by(tail, sep);
                            lemma_split_nonempty(tail, sep);
                            assert(split_by(buf, sep).drop_last() =~= done + st.drop_last());
                            lemma_decoded_after_terminal(done, st.drop_last(), self.format, out@);
                            assert(complete_lines(buf) == split_by(buf, sep).drop_last());
                        }
                        self.finished = true;
                        self.pending = Vec::new();
                        return out;
                    }
                } else {
                    assert(before + opt_seq(c) =~= before);
                }
            } else {
                proof {
                    let l = done.push(buf.subrange(start as int, i as int));
                    assert(buf.subrange(start as int, i as int).push(buf[i as int]) =~= buf.subrange(start as int, i + 1));
                    assert(!sep(buf[i as int]));
                    assert(l.update(l.len() - 1, l.last().push(buf[i as int])) =~= done.push(
                        buf.subrange(start as int, i + 1),
                    ));
                }
            }
            i = i + 1;
        }
        proof {
            assert(buf.subrange(0, n as int) == buf);
            assert(complete_lines(buf) == split_by(buf, sep).drop_last());
            assert(split_by(buf, sep).drop_last() == done);
            assert(partial_line(buf) == buf.subrange(start as int, n as int));
        }
        let rest = self.pending.split_off(start);
        self.pending = rest;
        out
    }

    /// Feeds raw bytes. A character whose bytes are not all here yet is
    /// kept for the next read; other invalid UTF-8 is replaced as
    /// `String::from_utf8_lossy` does.
    pub fn feed(&mut self, bytes: &[u8]) -> (r: Vec<StreamChunk>)
        ensures
            final(self).format_spec() == old(self).format_spec(),
            old(self).finished_spec() ==> r@.len() == 0,
            forall|i: int| 0 <= i < r@.len() && is_terminal(#[trigger] r@[i]) ==> i == r@.len() - 1,
            final(self).finished_spec() == (old(self).finished_spec() || (r@.len() > 0
                && is_terminal(r@.last()))),
            terminal_count(r@) == if final(self).finished_spec() && !old(self).finished_spec() {
                1nat
            } else {
                0nat
            },
            ({
                let all = old(self).carry_spec() + bytes@;
                let cut = tail_start(all);
                let text = old(self).pending_spec() + lossy_text(all.subrange(0, cut));
                &&& !old(self).finished_spec() ==> decoded(complete_lines(text), old(self).format_spec(), r@)
                &&& !final(self).finished_spec() ==> final(self).pending_spec() == partial_line(text)
                    && final(self).carry_spec() == all.subrange(cut, all.len() as int)
            }),
    {
        let mut all: Vec<u8> = Vec::new();
        let mut k: usize = 0;
        while k < self.carry.len()
            invariant
                k <= self.carry@.len(),
                all@ == self.carry@.subrange(0, k as int),
            decreases self.carry@.len() - k,
        {
            all.push(self.carry[k]);
            k = k + 1;
            assert(all@ =~= self.carry@.subrange(0, k as int));
        }
        let mut j: usize = 0;
        while j < bytes.len()
            invariant
                j <= bytes@.len(),
                all@ == self.carry@ + bytes@.subrange(0, j as int),
            decreases bytes@.len() - j,
        {
            all.push(bytes[j]);
            j = j + 1;
            assert(all@ =~= self.carry@ + bytes@.subrange(0, j as int));
        }
        assert(bytes@.subrange(0, bytes@.len() as int) == bytes@);
        assert(self.carry@.subrange(0, self.carry@.len() as int) == self.carry@);
        let cut = utf8_tail_start(&all);
        let mut head: Vec<u8> = Vec::new();
        let mut tail: Vec<u8> = Vec::new();
        let mut i: usize = 0;
        while i < all.len()
            invariant
                cut <= all@.len(),
                i <= all@.len(),
                head@ == all@.subrange(0, if i < cut { i as int } else { cut as int }),
                tail@ == all@.subrange(cut as int, if i < cut { cut as int } else { i as int }),
            decreases all@.len() - i,
        {
            if i < cut {
                head.push(all[i]);
            } else {
                tail.push(all[i]);
            }
            i = i + 1;
            assert(head@ =~= all@.subrange(0, if i < cut { i as int } else { cut as int }));
            assert(tail@ =~= all@.subrange(cut as int, if i < cut { cut as int } else { i as int }));
        }
        let text = decode_lossy(head.as_slice());
        let r = self.feed_text(text.as_str());
        self.carry = tail;
        r
    }

    /// Ends the stream. If no terminal chunk was produced, a `Done` with empty
    /// usage is returned, so that every stream ends with exactly one terminal.
    pub fn finish(&mut self) -> (r: Vec<StreamChunk>)
        ensures
            final(self).finished_spec(),
            final(self).format_spec() == old(self).format_spec(),
            old(self).finished_spec() ==> r@.len() == 0,
            !old(self).finished_spec() ==> r@.len() == 1 && is_done(Some(r@[0]), 0, 0),
            terminal_count(r@) == if old(self).finished_spec() { 0nat } else { 1nat },
    {
        let mut out: Vec<StreamChunk> = Vec::new();
        assert(terminal_count(out@) == 0);
        if !self.finished {
            self.finished = true;
            self.pending = Vec::new();
            self.carry = Vec::new();
            out.push(StreamChunk::Done(TokenUsage::new(0, 0)));
            assert(out@.drop_last() == Seq::<StreamChunk>::empty());
            assert(is_terminal(out@.last()));
            assert(terminal_count(out@) == terminal_count(out@.drop_last()) + 1);
        }
        out
    }
}

} // verus!
