//! Text-shrinking strategies: boundary-aware truncation, whitespace
//! normalisation and keyword extraction.

use vstd::prelude::*;
use vstd::string::StringSliceAdditionalSpecFns;
use crate::hashing::{fingerprint, simple_hash};
use crate::json::same_text;
use crate::text::{chars_of, concat, contains, has_prefix, has_substring, is_space, push_range, push_text, starts_with, string_of, trim_bounds, trimmed};

verus! {

/// The last position at which `p` occurs in `b`, if any.
pub open spec fn last_at(b: Seq<u8>, p: Seq<u8>) -> Option<int>
    decreases b.len(),
{
    if p.len() > b.len() {
        None
    } else if b.subrange(b.len() - p.len(), b.len() as int) == p {
        Some(b.len() - p.len())
    } else if b.len() == 0 {
        None
    } else {
        last_at(b.drop_last(), p)
    }
}

/// `rfind`: the last position of `p` in `b[0..end]`.
fn rfind_bytes(b: &[u8], end: usize, p: &[u8]) -> (r: Option<usize>)
    requires
        end <= b@.len(),
    ensures
        match r {
            Some(i) => last_at(b@.subrange(0, end as int), p@) == Some(i as int),
            None => last_at(b@.subrange(0, end as int), p@) is None,
        },
{
    let n = p.len();
    if n > end {
        return None;
    }
    let mut stop = end;
    while stop >= n
        invariant
            n == p@.len(),
            stop <= end <= b@.len(),
            last_at(b@.subrange(0, end as int), p@) == last_at(b@.subrange(0, stop as int), p@),
        decreases stop,
    {
        let start = stop - n;
        let mut k: usize = 0;
        while k < n && b[start + k] == p[k]
            invariant
                n == p@.len(),
                start + n == stop <= b@.len(),
                k <= n,
                forall|j: int| 0 <= j < k ==> b@[start + j] == p@[j],
            decreases n - k,
        {
            k = k + 1;
        }
        let same = k == n;
        if same {
            assert(b@.subrange(start as int, stop as int) =~= p@);
        } else {
            assert(b@.subrange(start as int, stop as int)[k as int] != p@[k as int]);
        }
        let ghost pre = b@.subrange(0, stop as int);
        assert(pre.subrange(pre.len() - n, pre.len() as int) == b@.subrange(start as int, stop as int));
        assert(p@.subrange(0, n as int) == p@);
        if same {
            return Some(start);
        }
        if stop == 0 {
            return None;
        }
        assert(pre.drop_last() == b@.subrange(0, stop - 1));
        stop = stop - 1;
    }
    proof {
        let pre = b@.subrange(0, stop as int);
        assert(p@.len() > pre.len());
    }
    None
}

/// The twelve code-structure markers, highest priority for truncation.
pub open spec fn code_markers() -> Seq<Seq<u8>> {
    seq![
        "\n\nfn ".spec_bytes(),
        "\n\npub fn ".spec_bytes(),
        "\n\npub async fn ".spec_bytes(),
        "\n\nasync fn ".spec_bytes(),
        "\n\ndef ".spec_bytes(),
        "\n\nasync def ".spec_bytes(),
        "\n\nclass ".spec_bytes(),
        "\n\nimpl ".spec_bytes(),
        "\n\npub struct ".spec_bytes(),
        "\n\nstruct ".spec_bytes(),
        "\n\nmod ".spec_bytes(),
        "\n\npub mod ".spec_bytes(),
    ]
}

/// The latest position of any of `pats` in `b`.
pub open spec fn latest_of(b: Seq<u8>, pats: Seq<Seq<u8>>) -> Option<int>
    decreases pats.len(),
{
    if pats.len() == 0 {
        None
    } else {
        let rest = latest_of(b, pats.drop_last());
        match (rest, last_at(b, pats.last())) {
            (Some(x), Some(y)) => Some(if x >= y { x } else { y }),
            (None, y) => y,
            (x, None) => x,
        }
    }
}

/// A found position beyond the first quarter of the budget.
pub open spec fn beyond(p: Option<int>, q: int) -> bool {
    p is Some && p->0 > q
}

/// The cut chosen for truncating bytes `b` to at most `max_pos`: the latest
/// code-structure marker, else paragraph break, else sentence end (". ",
/// "? ", "! ", in that order, keeping the punctuation) found beyond a quarter
/// of the budget; else the latest line break; else the latest space; else
/// `max_pos` itself (clamped to the text).
pub open spec fn best_boundary(b: Seq<u8>, max_pos: int) -> int {
    let m = if max_pos < b.len() {
        max_pos
    } else {
        b.len() as int
    };
    let region = b.subrange(0, m);
    let q = max_pos / 4;
    let code = latest_of(region, code_markers());
    let para = last_at(region, "\n\n".spec_bytes());
    let dot = last_at(region, ". ".spec_bytes());
    let ask = last_at(region, "? ".spec_bytes());
    let bang = last_at(region, "! ".spec_bytes());
    let nl = last_at(region, "\n".spec_bytes());
    let sp = last_at(region, " ".spec_bytes());
    if beyond(code, q) {
        code->0
    } else if beyond(para, q) {
        para->0
    } else if beyond(dot, q) {
        dot->0 + 1
    } else if beyond(ask, q) {
        ask->0 + 1
    } else if beyond(bang, q) {
        bang->0 + 1
    } else if nl is Some {
        nl->0
    } else if sp is Some {
        sp->0
    } else {
        m
    }
}

proof fn lemma_last_at_bound(b: Seq<u8>, p: Seq<u8>)
    ensures
        last_at(b, p) is Some ==> 0 <= last_at(b, p)->0 && last_at(b, p)->0 + p.len() <= b.len(),
    decreases b.len(),
{
    if p.len() <= b.len() && b.subrange(b.len() - p.len(), b.len() as int) != p && b.len() > 0 {
        lemma_last_at_bound(b.drop_last(), p);
    }
}

proof fn lemma_latest_bound(b: Seq<u8>, pats: Seq<Seq<u8>>)
    ensures
        latest_of(b, pats) is Some ==> 0 <= latest_of(b, pats)->0 <= b.len(),
    decreases pats.len(),
{
    if pats.len() > 0 {
        lemma_latest_bound(b, pats.drop_last());
        lemma_last_at_bound(b, pats.last());
    }
}

/// Finds the best position at or before `max_pos` (a byte offset) at which
/// to cut `text`; see `best_boundary`.
pub fn find_best_boundary(text: &str, max_pos: usize) -> (r: usize)
    ensures
        r == best_boundary(text.spec_bytes(), max_pos as int),
        r <= max_pos,
        r <= text.spec_bytes().len(),
{
    let b = text.as_bytes();
    let m = if max_pos < b.len() {
        max_pos
    } else {
        b.len()
    };
    let q = max_pos / 4;
    let ghost region = b@.subrange(0, m as int);
    let markers: [&str; 12] = [
        "\n\nfn ",
        "\n\npub fn ",
        "\n\npub async fn ",
        "\n\nasync fn ",
        "\n\ndef ",
        "\n\nasync def ",
        "\n\nclass ",
        "\n\nimpl ",
        "\n\npub struct ",
        "\n\nstruct ",
        "\n\nmod ",
        "\n\npub mod ",
    ];
    let ghost pats = code_markers();
    proof {
        assert forall|j: int| 0 <= j < 12 implies (#[trigger] markers@[j]).spec_bytes() == pats[j] by {}
    }
    let mut best: Option<usize> = None;
    let mut i: usize = 0;
    while i < 12
        invariant
            i <= 12,
            pats.len() == 12,
            m <= b@.len(),
            region == b@.subrange(0, m as int),
            forall|j: int| 0 <= j < 12 ==> (#[trigger] markers@[j]).spec_bytes() == pats[j],
            match best {
                Some(x) => latest_of(region, pats.subrange(0, i as int)) == Some(x as int),
                None => latest_of(region, pats.subrange(0, i as int)) is None,
            },
        decreases 12 - i,
    {
        assert(pats.subrange(0, i + 1).drop_last() == pats.subrange(0, i as int));
        assert(pats.subrange(0, i + 1).last() == pats[i as int]);
        let found = rfind_bytes(b, m, markers[i].as_bytes());
        best = match (best, found) {
            (Some(x), Some(y)) => Some(if x >= y { x } else { y }),
            (None, y) => y,
            (x, None) => x,
        };
        i = i + 1;
    }
    assert(pats.subrange(0, 12) == pats);
    proof {
        lemma_latest_bound(region, pats);
    }
    if let Some(pos) = best {
        if pos > q {
            return pos;
        }
    }
    let para = rfind_bytes(b, m, "\n\n".as_bytes());
    if let Some(pos) = para {
        if pos > q {
            proof { lemma_last_at_bound(region, "\n\n".spec_bytes()); }
            return pos;
        }
    }
    let dot = rfind_bytes(b, m, ". ".as_bytes());
    if let Some(pos) = dot {
        if pos > q {
            proof { lemma_last_at_bound(region, ". ".spec_bytes()); reveal_strlit(". "); }
            return pos + 1;
        }
    }
    let ask = rfind_bytes(b, m, "? ".as_bytes());
    if let Some(pos) = ask {
        if pos > q {
            proof { lemma_last_at_bound(region, "? ".spec_bytes()); reveal_strlit("? "); }
            return pos + 1;
        }
    }
    let bang = rfind_bytes(b, m, "! ".as_bytes());
    if let Some(pos) = bang {
        if pos > q {
            proof { lemma_last_at_bound(region, "! ".spec_bytes()); reveal_strlit("! "); }
            return pos + 1;
        }
    }
    let nl = rfind_bytes(b, m, "\n".as_bytes());
    if let Some(pos) = nl {
        proof { lemma_last_at_bound(region, "\n".spec_bytes()); }
        return pos;
    }
    let sp = rfind_bytes(b, m, " ".as_bytes());
    if let Some(pos) = sp {
        proof { lemma_last_at_bound(region, " ".spec_bytes()); }
        return pos;
    }
    m
}

/// The number of cl100k_base BPE tokens of a text (special tokens allowed),
/// or `None` when the tokenizer cannot encode it.
pub uninterp spec fn cl100k_count(text: Seq<char>) -> Option<nat>;

/// Relies on `tiktoken_rs::cl100k_base` and `CoreBPE::encode` with all
/// special tokens allowed: the count depends on the text alone, and the empty
/// text has no tokens.
#[verifier::external_body]
fn bpe_token_count(text: &str) -> (r: Option<usize>)
    ensures
        match r {
            Some(n) => cl100k_count(text@) == Some(n as nat),
            None => cl100k_count(text@) is None,
        },
        text@.len() == 0 && r is Some ==> r == Some(0usize),
{
    match tiktoken_rs::cl100k_base() {
        Ok(bpe) => {
            let allowed = bpe.special_tokens();
            bpe.encode(text, &allowed).ok().map(|(tokens, _)| tokens.len())
        },
        Err(_) => None,
    }
}

/// Tokens of a text: the BPE count, or a quarter of its UTF-8 bytes when the
/// tokenizer is unavailable.
pub open spec fn token_estimate(t: Seq<char>) -> nat {
    match cl100k_count(t) {
        Some(n) => n,
        None => vstd::utf8::encode_utf8(t).len() / 4,
    }
}

pub fn count_tokens(text: &str) -> (r: usize)
    ensures
        r == token_estimate(text@),
{
    match bpe_token_count(text) {
        Some(n) => n,
        None => text.as_bytes().len() / 4,
    }
}

/// The longest prefix of `text` that ends on a character boundary at or
/// before byte `pos`.
fn head_at(text: &str, pos: usize) -> (r: &str)
    requires
        pos <= text.spec_bytes().len(),
    ensures
        exists|cut: int| 0 <= cut <= pos && r.spec_bytes() == text.spec_bytes().subrange(0, cut),
{
    proof {
        vstd::utf8::encode_utf8_valid_utf8(text@);
        vstd::utf8::is_char_boundary_start_end_of_seq(text.spec_bytes());
    }
    let mut i = pos;
    while i > 0 && !text.is_char_boundary(i)
        invariant
            i <= pos <= text.spec_bytes().len(),
            vstd::utf8::is_char_boundary(text.spec_bytes(), 0),
        decreases i,
    {
        i = i - 1;
    }
    let (head, _) = text.split_at(i);
    head
}

/// `r` is `t` when `t` fits in `max` bytes; otherwise a byte prefix of `t`
/// that ends at or before the best boundary, followed by "...[truncated]".
pub open spec fn truncation_of(t: Seq<char>, max: int, r: Seq<char>) -> bool {
    let b = vstd::utf8::encode_utf8(t);
    &&& b.len() <= max ==> r == t
    &&& b.len() > max ==> exists|h: Seq<char>, cut: int|
        r == h + "...[truncated]"@ && 0 <= cut <= best_boundary(b, max) && vstd::utf8::encode_utf8(h)
            == b.subrange(0, cut)
}

/// Truncates `text` to at most `max_chars` bytes at a logical boundary and
/// appends "...[truncated]". When the kept part overshoots the token budget
/// (`max_chars / 4`) by more than a tenth, a proportionally tighter limit is
/// used instead.
pub fn smart_truncate(text: &str, max_chars: usize) -> (r: String)
    ensures
        truncation_of(text@, max_chars as int, r@),
{
    if text.as_bytes().len() <= max_chars {
        return String::from_str(text);
    }
    let boundary = find_best_boundary(text, max_chars);
    let head = head_at(text, boundary);
    let target = max_chars / 4;
    let actual = count_tokens(head);
    if actual > target + target / 10 {
        proof {
            let (mm, tt) = (max_chars as int, target as int);
            assert(mm * tt <= 0xffff_ffff_ffff_ffff * 0xffff_ffff_ffff_ffffint) by (nonlinear_arith)
                requires
                    0 <= mm <= 0xffff_ffff_ffff_ffff,
                    0 <= tt <= 0xffff_ffff_ffff_ffff,
            ;
        }
        let prod: u128 = max_chars as u128 * target as u128;
        let quot: u128 = prod / actual as u128;
        proof {
            let (mm, tt, aa) = (max_chars as int, target as int, actual as int);
            assert((mm * tt) / aa <= mm) by (nonlinear_arith)
                requires
                    0 <= mm,
                    0 <= tt <= aa,
                    aa > 0,
            ;
        }
        let tighter = quot as usize;
        let tb = find_best_boundary(text, tighter);
        let tb = if tb <= boundary { tb } else { boundary };
        let h2 = head_at(text, tb);
        let r = concat(h2, "...[truncated]");
        proof {
            assert(vstd::utf8::encode_utf8(h2@) == h2.spec_bytes());
        }
        return r;
    }
    let r = concat(head, "...[truncated]");
    proof {
        assert(vstd::utf8::encode_utf8(head@) == head.spec_bytes());
    }
    r
}

/// The segments of `s` between separator characters (a separator ends a
/// segment; the text after the last separator is the final segment).
pub open spec fn split_by(s: Seq<char>, sep: spec_fn(char) -> bool) -> Seq<Seq<char>>
    decreases s.len(),
{
    if s.len() == 0 {
        seq![Seq::<char>::empty()]
    } else {
        let l = split_by(s.drop_last(), sep);
        if sep(s.last()) {
            l.push(Seq::<char>::empty())
        } else {
            l.update(l.len() - 1, l.last().push(s.last()))
        }
    }
}

pub proof fn lemma_split_nonempty(s: Seq<char>, sep: spec_fn(char) -> bool)
    ensures
        split_by(s, sep).len() > 0,
    decreases s.len(),
{
    if s.len() > 0 {
        lemma_split_nonempty(s.drop_last(), sep);
    }
}

pub open spec fn is_newline(c: char) -> bool {
    c == '\n'
}

/// The lines of `s`, trimmed, without the empty ones.
pub open spec fn kept_lines(ls: Seq<Seq<char>>) -> Seq<Seq<char>> {
    ls.map_values(|l: Seq<char>| trimmed(l)).filter(|l: Seq<char>| l.len() > 0)
}

/// Lines joined with newlines.
pub open spec fn join_lines(ls: Seq<Seq<char>>) -> Seq<char>
    decreases ls.len(),
{
    if ls.len() == 0 {
        Seq::<char>::empty()
    } else if ls.len() == 1 {
        ls[0]
    } else {
        join_lines(ls.drop_last()) + "\n"@ + ls.last()
    }
}

/// `s` with every line trimmed and empty lines dropped.
pub open spec fn normalized(s: Seq<char>) -> Seq<char> {
    join_lines(kept_lines(split_by(s, |c: char| is_newline(c))))
}

proof fn lemma_kept_push(ls: Seq<Seq<char>>, x: Seq<char>)
    ensures
        kept_lines(ls.push(x)) == if trimmed(x).len() > 0 {
            kept_lines(ls).push(trimmed(x))
        } else {
            kept_lines(ls)
        },
{
    let f = |l: Seq<char>| trimmed(l);
    let p = |l: Seq<char>| l.len() > 0;
    assert(ls.push(x).map_values(f) =~= ls.map_values(f).push(trimmed(x)));
    reveal(Seq::filter);
    assert(ls.map_values(f).push(trimmed(x)).drop_last() == ls.map_values(f));
}

/// Appends the trimmed line `cs[from..to]` to the joined output when it is
/// not empty.
fn emit_line(out: &mut String, any: &mut bool, cs: &Vec<char>, from: usize, to: usize, Ghost(done): Ghost<Seq<Seq<char>>>)
    requires
        from <= to <= cs@.len(),
        old(out)@ == join_lines(kept_lines(done)),
        *old(any) == (kept_lines(done).len() > 0),
    ensures
        final(out)@ == join_lines(kept_lines(done.push(cs@.subrange(from as int, to as int)))),
        *final(any) == (kept_lines(done.push(cs@.subrange(from as int, to as int))).len() > 0),
{
    let ghost line = cs@.subrange(from as int, to as int);
    proof {
        lemma_kept_push(done, line);
    }
    let (a, b) = trim_bounds(cs, from, to);
    if a < b {
        let ghost k = kept_lines(done);
        if *any {
            push_text(out, "\n");
        }
        push_range(out, cs, a, b);
        *any = true;
        proof {
            let k2 = k.push(trimmed(line));
            assert(k2.drop_last() == k);
            if k.len() == 0 {
                assert(old(out)@ == Seq::<char>::empty());
                assert(final(out)@ == Seq::<char>::empty() + trimmed(line));
            }
        }
    }
}

/// Normalises text for deduplication: trims every line, drops empty lines
/// and joins the rest with newlines.
pub fn normalize_for_dedup(text: &str) -> (r: String)
    ensures
        r@ == normalized(text@),
{
    let cs = chars_of(text);
    let n = cs.len();
    let ghost sep = |c: char| is_newline(c);
    let mut out = String::new();
    let mut any = false;
    let ghost mut done: Seq<Seq<char>> = seq![];
    let mut start: usize = 0;
    let mut i: usize = 0;
    proof {
        assert(cs@.subrange(0, 0) == Seq::<char>::empty());
        assert(split_by(Seq::<char>::empty(), sep) == seq![Seq::<char>::empty()]);
        assert(done.push(cs@.subrange(0, 0)) == seq![Seq::<char>::empty()]);
    }
    while i < n
        invariant
            n == cs@.len(),
            start <= i <= n,
            forall|c: char| #[trigger] sep(c) == is_newline(c),
            split_by(cs@.subrange(0, i as int), sep) == done.push(cs@.subrange(start as int, i as int)),
            out@ == join_lines(kept_lines(done)),
            any == (kept_lines(done).len() > 0),
        decreases n - i,
    {
        let ghost pre = cs@.subrange(0, i as int);
        proof {
            assert(cs@.subrange(0, i + 1).drop_last() == pre);
            assert(cs@.subrange(0, i + 1).last() == cs@[i as int]);
        }
        if cs[i] == '\n' {
            emit_line(&mut out, &mut any, &cs, start, i, Ghost(done));
            proof {
                assert(sep(cs@[i as int]));
                assert(split_by(cs@.subrange(0, i + 1), sep) == split_by(pre, sep).push(Seq::<char>::empty()));
                done = done.push(cs@.subrange(start as int, i as int));
                assert(cs@.subrange(i + 1, i + 1) == Seq::<char>::empty());
            }
            start = i + 1;
        } else {
            proof {
                let l = done.push(cs@.subrange(start as int, i as int));
                assert(cs@.subrange(start as int, i as int).push(cs@[i as int]) =~= cs@.subrange(start as int, i + 1));
                assert(!sep(cs@[i as int]));
                assert(split_by(cs@.subrange(0, i + 1), sep) == l.update(l.len() - 1, l.last().push(cs@[i as int])));
                assert(l.update(l.len() - 1, l.last().push(cs@[i as int])) =~= done.push(
                    cs@.subrange(start as int, i + 1),
                ));
            }
        }
        i = i + 1;
    }
    emit_line(&mut out, &mut any, &cs, start, n, Ghost(done));
    proof {
        assert(cs@.subrange(0, n as int) == text@);
    }
    out
}

/// Hash of the normalised text, so that whitespace-only differences vanish.
pub fn normalized_hash(text: &str) -> (r: u64)
    ensures
        r == fingerprint(normalized(text@)),
{
    let t = normalize_for_dedup(text);
    let h = simple_hash(t.as_str());
    h
}

/// Trims every line and drops empty lines.
pub fn strip_whitespace(text: &str) -> (r: String)
    ensures
        r@ == normalized(text@),
{
    normalize_for_dedup(text)
}

/// `char::is_alphanumeric`: Unicode Alphabetic or Numeric.
pub uninterp spec fn alnum(c: char) -> bool;

/// Relies on `char::is_alphanumeric`; for ASCII it holds of exactly the
/// letters and digits.
#[verifier::external_body]
fn is_alnum(c: char) -> (r: bool)
    ensures
        r == alnum(c),
        (c as u32) < 128 ==> r == (('a' <= c && c <= 'z') || ('A' <= c && c <= 'Z') || ('0' <= c
            && c <= '9')),
{
    c.is_alphanumeric()
}

/// `str::to_lowercase`: the text with every character lowercased.
pub uninterp spec fn lower_of(s: Seq<char>) -> Seq<char>;

/// Relies on `str::to_lowercase`: the result depends on the text alone.
#[verifier::external_body]
pub fn lowercase(s: &str) -> (r: String)
    ensures
        r@ == lower_of(s@),
{
    s.to_lowercase()
}

/// Words that carry no meaning for relevance.
pub open spec fn stop_words() -> Seq<Seq<char>> {
    seq![
        "the"@,
        "a"@,
        "an"@,
        "is"@,
        "are"@,
        "was"@,
        "were"@,
        "be"@,
        "been"@,
        "being"@,
        "have"@,
        "has"@,
        "had"@,
        "do"@,
        "does"@,
        "did"@,
        "will"@,
        "would"@,
        "could"@,
        "should"@,
        "may"@,
        "might"@,
        "shall"@,
        "can"@,
        "need"@,
        "must"@,
        "and"@,
        "but"@,
        "or"@,
        "nor"@,
        "not"@,
        "so"@,
        "yet"@,
        "in"@,
        "on"@,
        "at"@,
        "to"@,
        "for"@,
        "of"@,
        "with"@,
        "by"@,
        "from"@,
        "as"@,
        "into"@,
        "about"@,
        "between"@,
        "through"@,
        "after"@,
        "before"@,
        "this"@,
        "that"@,
        "these"@,
        "those"@,
        "it"@,
        "its"@,
        "i"@,
        "me"@,
        "my"@,
        "we"@,
        "our"@,
        "you"@,
        "your"@,
        "he"@,
        "she"@,
        "they"@,
        "if"@,
        "then"@,
        "else"@,
        "when"@,
        "where"@,
        "how"@,
        "what"@,
        "which"@,
        "who"@,
    ]
}

pub open spec fn is_word_sep(c: char) -> bool {
    !alnum(c) && c != '_'
}

/// A lowercased word worth keeping: more than two bytes and no stop word.
pub open spec fn is_keyword(w: Seq<char>) -> bool {
    vstd::utf8::encode_utf8(w).len() > 2 && !stop_words().contains(w)
}

pub open spec fn keywords_of(ws: Seq<Seq<char>>) -> Seq<Seq<char>> {
    ws.map_values(|w: Seq<char>| lower_of(w)).filter(|w: Seq<char>| is_keyword(w))
}

/// The keywords of a task: its words (runs of alphanumerics and `_`),
/// lowercased, without short words and stop words.
pub open spec fn task_keywords(s: Seq<char>) -> Seq<Seq<char>> {
    keywords_of(split_by(s, |c: char| is_word_sep(c)))
}

fn is_stop_word(w: &String) -> (r: bool)
    ensures
        r == stop_words().contains(w@),
{
    let stop: [&str; 74] = [
        "the",
        "a",
        "an",
        "is",
        "are",
        "was",
        "were",
        "be",
        "been",
        "being",
        "have",
        "has",
        "had",
        "do",
        "does",
        "did",
        "will",
        "would",
        "could",
        "should",
        "may",
        "might",
        "shall",
        "can",
        "need",
        "must",
        "and",
        "but",
        "or",
        "nor",
        "not",
        "so",
        "yet",
        "in",
        "on",
        "at",
        "to",
        "for",
        "of",
        "with",
        "by",
        "from",
        "as",
        "into",
        "about",
        "between",
        "through",
        "after",
        "before",
        "this",
        "that",
        "these",
        "those",
        "it",
        "its",
        "i",
        "me",
        "my",
        "we",
        "our",
        "you",
        "your",
        "he",
        "she",
        "they",
        "if",
        "then",
        "else",
        "when",
        "where",
        "how",
        "what",
        "which",
        "who",
    ];
    let ghost sw = stop_words();
    proof {
        assert forall|j: int| 0 <= j < 74 implies (#[trigger] stop@[j])@ == sw[j] by {}
    }
    let mut i: usize = 0;
    while i < 74
        invariant
            i <= 74,
            sw == stop_words(),
            sw.len() == 74,
            forall|j: int| 0 <= j < 74 ==> (#[trigger] stop@[j])@ == sw[j],
            forall|j: int| 0 <= j < i ==> sw[j] != w@,
        decreases 74 - i,
    {
        if same_text(w.as_str(), stop[i]) {
            assert(sw[i as int] == w@);
            assert(sw.contains(w@));
            return true;
        }
        i = i + 1;
    }
    false
}

proof fn lemma_keywords_push(ws: Seq<Seq<char>>, x: Seq<char>)
    ensures
        keywords_of(ws.push(x)) == if is_keyword(lower_of(x)) {
            keywords_of(ws).push(lower_of(x))
        } else {
            keywords_of(ws)
        },
{
    let f = |w: Seq<char>| lower_of(w);
    assert(ws.push(x).map_values(f) =~= ws.map_values(f).push(lower_of(x)));
    reveal(Seq::filter);
    assert(ws.map_values(f).push(lower_of(x)).drop_last() == ws.map_values(f));
}

pub open spec fn views(v: Seq<String>) -> Seq<Seq<char>> {
    v.map_values(|x: String| x@)
}

fn emit_word(out: &mut Vec<String>, cs: &Vec<char>, from: usize, to: usize, Ghost(done): Ghost<Seq<Seq<char>>>)
    requires
        from <= to <= cs@.len(),
        views(old(out)@) == keywords_of(done),
    ensures
        views(final(out)@) == keywords_of(done.push(cs@.subrange(from as int, to as int))),
{
    proof {
        lemma_keywords_push(done, cs@.subrange(from as int, to as int));
    }
    let word = string_of(cs, from, to);
    let low = lowercase(word.as_str());
    if low.as_str().as_bytes().len() > 2 && !is_stop_word(&low) {
        let ghost before = out@;
        out.push(low);
        proof {
            assert(views(out@) =~= views(before).push(out@.last()@));
        }
    }
}

/// Extracts the meaningful keywords of a task description.
pub fn extract_task_keywords(task: &str) -> (r: Vec<String>)
    ensures
        views(r@) == task_keywords(task@),
{
    let cs = chars_of(task);
    let n = cs.len();
    let ghost sep = |c: char| is_word_sep(c);
    let mut out: Vec<String> = Vec::new();
    let ghost mut done: Seq<Seq<char>> = seq![];
    let mut start: usize = 0;
    let mut i: usize = 0;
    proof {
        assert(cs@.subrange(0, 0) == Seq::<char>::empty());
        assert(split_by(Seq::<char>::empty(), sep) == seq![Seq::<char>::empty()]);
        assert(done.push(cs@.subrange(0, 0)) == seq![Seq::<char>::empty()]);
        assert(views(out@) =~= keywords_of(done)) by {
            reveal(Seq::filter);
        }
    }
    while i < n
        invariant
            n == cs@.len(),
            start <= i <= n,
            forall|c: char| #[trigger] sep(c) == is_word_sep(c),
            split_by(cs@.subrange(0, i as int), sep) == done.push(cs@.subrange(start as int, i as int)),
            views(out@) == keywords_of(done),
        decreases n - i,
    {
        let ghost pre = cs@.subrange(0, i as int);
        proof {
            assert(cs@.subrange(0, i + 1).drop_last() == pre);
            assert(cs@.subrange(0, i + 1).last() == cs@[i as int]);
        }
        let c = cs[i];
        if !is_alnum(c) && c != '_' {
            emit_word(&mut out, &cs, start, i, Ghost(done));
            proof {
                assert(sep(cs@[i as int]));
                done = done.push(cs@.subrange(start as int, i as int));
                assert(cs@.subrange(i + 1, i + 1) == Seq::<char>::empty());
            }
            start = i + 1;
        } else {
            proof {
                let l = done.push(cs@.subrange(start as int, i as int));
                assert(cs@.subrange(start as int, i as int).push(cs@[i as int]) =~= cs@.subrange(start as int, i + 1));
                assert(!sep(cs@[i as int]));
                assert(l.update(l.len() - 1, l.last().push(cs@[i as int])) =~= done.push(
                    cs@.subrange(start as int, i + 1),
                ));
            }
        }
        i = i + 1;
    }
    emit_word(&mut out, &cs, start, n, Ghost(done));
    proof {
        assert(cs@.subrange(0, n as int) == task@);
    }
    out
}

/// `s` with each run of whitespace replaced by one space, paired with
/// whether it ended inside such a run.
pub open spec fn collapse_runs(s: Seq<char>) -> (Seq<char>, bool)
    decreases s.len(),
{
    if s.len() == 0 {
        (Seq::<char>::empty(), false)
    } else {
        let (r, ws) = collapse_runs(s.drop_last());
        let c = s.last();
        if is_space(c) {
            if ws {
                (r, true)
            } else {
                (r.push(' '), true)
            }
        } else {
            (r.push(c), false)
        }
    }
}

/// Collapses whitespace runs to single spaces and trims the result.
pub fn collapse_whitespace(text: &str) -> (r: String)
    ensures
        r@ == trimmed(collapse_runs(text@).0),
{
    let cs = chars_of(text);
    let mut out: Vec<char> = Vec::new();
    let mut last_was_space = false;
    let mut i: usize = 0;
    while i < cs.len()
        invariant
            i <= cs@.len(),
            (out@, last_was_space) == collapse_runs(cs@.subrange(0, i as int)),
        decreases cs@.len() - i,
    {
        proof {
            assert(cs@.subrange(0, i + 1).drop_last() == cs@.subrange(0, i as int));
            assert(cs@.subrange(0, i + 1).last() == cs@[i as int]);
        }
        let c = cs[i];
        if crate::text::is_space_char(c) {
            if !last_was_space {
                out.push(' ');
                last_was_space = true;
            }
        } else {
            out.push(c);
            last_was_space = false;
        }
        i = i + 1;
    }
    proof {
        assert(cs@.subrange(0, cs@.len() as int) == text@);
    }
    let (a, b) = trim_bounds(&out, 0, out.len());
    proof {
        assert(out@.subrange(0, out@.len() as int) == out@);
    }
    string_of(&out, a, b)
}

/// Where the comment scanner is.
#[derive(Debug, Clone, Copy, PartialEq, Eq, Structural)]
pub enum ScanMode {
    Code,
    /// Inside `/* ... */`.
    Block,
    /// Inside a string opened by the given quote.
    Quoted(char),
    /// Inside a `//` or leading-`#` comment, up to the newline.
    LineComment,
}

/// The text from position `i` on with comments removed, scanning in `mode`.
/// Strings are kept verbatim (a quote preceded by a backslash does not close
/// them); `//` and `#` at a line start comment to the end of the line; block
/// comments run to the next `*/`.
pub open spec fn uncommented(cs: Seq<char>, i: int, mode: ScanMode) -> Seq<char>
    decreases cs.len() - i,
{
    if i < 0 || i >= cs.len() {
        Seq::<char>::empty()
    } else {
        match mode {
            ScanMode::Block => if i + 1 < cs.len() && cs[i] == '*' && cs[i + 1] == '/' {
                uncommented(cs, i + 2, ScanMode::Code)
            } else {
                uncommented(cs, i + 1, ScanMode::Block)
            },
            ScanMode::Quoted(q) => {
                let closes = cs[i] == q && (i == 0 || cs[i - 1] != '\\');
                seq![cs[i]] + uncommented(cs, i + 1, if closes { ScanMode::Code } else { mode })
            },
            ScanMode::LineComment => if cs[i] == '\n' {
                seq![cs[i]] + uncommented(cs, i + 1, ScanMode::Code)
            } else {
                uncommented(cs, i + 1, ScanMode::LineComment)
            },
            ScanMode::Code => if cs[i] == '"' || cs[i] == '\'' {
                seq![cs[i]] + uncommented(cs, i + 1, ScanMode::Quoted(cs[i]))
            } else if i + 1 < cs.len() && cs[i] == '/' && cs[i + 1] == '/' {
                uncommented(cs, i + 1, ScanMode::LineComment)
            } else if i + 1 < cs.len() && cs[i] == '/' && cs[i + 1] == '*' {
                uncommented(cs, i + 2, ScanMode::Block)
            } else if cs[i] == '#' && (i == 0 || cs[i - 1] == '\n') {
                uncommented(cs, i + 1, ScanMode::LineComment)
            } else {
                seq![cs[i]] + uncommented(cs, i + 1, ScanMode::Code)
            },
        }
    }
}

/// Removes `//`, `/* */` and line-leading `#` comments, leaving strings alone.
pub fn remove_code_comments(code: &str) -> (r: String)
    ensures
        r@ == uncommented(code@, 0, ScanMode::Code),
{
    let cs = chars_of(code);
    let n = cs.len();
    let mut out = String::new();
    let mut mode = ScanMode::Code;
    let mut i: usize = 0;
    while i < n
        invariant
            n == cs@.len(),
            cs@ == code@,
            i <= n + 1,
            out@ + uncommented(cs@, i as int, mode) == uncommented(cs@, 0, ScanMode::Code),
        decreases n + 1 - i,
    {
        let c = cs[i];
        let ghost before = out@;
        let ghost rest = uncommented(cs@, i as int, mode);
        match mode {
            ScanMode::Block => {
                if i + 1 < n && c == '*' && cs[i + 1] == '/' {
                    mode = ScanMode::Code;
                    i = i + 2;
                } else {
                    i = i + 1;
                }
            },
            ScanMode::Quoted(q) => {
                crate::text::push_char(&mut out, c);
                let closes = c == q && (i == 0 || cs[i - 1] != '\\');
                if closes {
                    mode = ScanMode::Code;
                }
                proof {
                    assert(before + rest == before.push(c) + uncommented(cs@, i + 1, mode));
                }
                i = i + 1;
            },
            ScanMode::LineComment => {
                if c == '\n' {
                    crate::text::push_char(&mut out, c);
                    mode = ScanMode::Code;
                    proof {
                        assert(before + rest == before.push(c) + uncommented(cs@, i + 1, mode));
                    }
                }
                i = i + 1;
            },
            ScanMode::Code => {
                if c == '"' || c == '\'' {
                    crate::text::push_char(&mut out, c);
                    mode = ScanMode::Quoted(c);
                    proof {
                        assert(before + rest == before.push(c) + uncommented(cs@, i + 1, mode));
                    }
                    i = i + 1;
                } else if i + 1 < n && c == '/' && cs[i + 1] == '/' {
                    mode = ScanMode::LineComment;
                    i = i + 1;
                } else if i + 1 < n && c == '/' && cs[i + 1] == '*' {
                    mode = ScanMode::Block;
                    i = i + 2;
                } else if c == '#' && (i == 0 || cs[i - 1] == '\n') {
                    mode = ScanMode::LineComment;
                    i = i + 1;
                } else {
                    crate::text::push_char(&mut out, c);
                    proof {
                        assert(before + rest == before.push(c) + uncommented(cs@, i + 1, mode));
                    }
                    i = i + 1;
                }
            },
        }
    }
    proof {
        assert(uncommented(cs@, i as int, mode) == Seq::<char>::empty());
        assert(out@ + Seq::<char>::empty() == out@);
    }
    out
}

/// The position of the first `{` in `t`, or its length.
pub open spec fn first_brace(t: Seq<char>, i: int) -> int
    decreases t.len() - i,
{
    if i < 0 || i >= t.len() {
        t.len() as int
    } else if t[i] == '{' {
        i
    } else {
        first_brace(t, i + 1)
    }
}

/// A definition line shown with its body elided: the text before the first
/// `{`, trimmed, followed by " { ... }"; the line itself when it has none.
pub open spec fn elided(t: Seq<char>) -> Seq<char> {
    let e = first_brace(t, 0);
    if e < t.len() {
        trimmed(t.subrange(0, e)) + " { ... }"@
    } else {
        t
    }
}

pub open spec fn is_rust_fn(t: Seq<char>) -> bool {
    starts_with(t, "pub fn "@) || starts_with(t, "fn "@) || starts_with(t, "async fn "@)
        || starts_with(t, "pub async fn "@)
}

pub open spec fn is_python_fn(t: Seq<char>) -> bool {
    starts_with(t, "def "@) || starts_with(t, "async def "@)
}

pub open spec fn is_script_fn(t: Seq<char>) -> bool {
    starts_with(t, "function "@) || contains(t, "=> {"@) || starts_with(t, "export function "@)
        || starts_with(t, "export const "@)
}

pub open spec fn is_type_def(t: Seq<char>) -> bool {
    starts_with(t, "struct "@) || starts_with(t, "pub struct "@) || starts_with(t, "class "@)
        || starts_with(t, "export class "@)
}

/// The signatures one trimmed line contributes, in the order of the checks.
pub open spec fn line_signatures(t: Seq<char>) -> Seq<Seq<char>> {
    (if is_rust_fn(t) { seq![elided(t)] } else { seq![] }) + (if is_python_fn(t) {
        seq![t]
    } else {
        seq![]
    }) + (if is_script_fn(t) { seq![t] } else { seq![] }) + (if is_type_def(t) {
        seq![elided(t)]
    } else {
        seq![]
    })
}

/// The signatures of the lines `ls`, in order.
pub open spec fn all_signatures(ls: Seq<Seq<char>>) -> Seq<Seq<char>>
    decreases ls.len(),
{
    if ls.len() == 0 {
        seq![]
    } else {
        all_signatures(ls.drop_last()) + line_signatures(trimmed(ls.last()))
    }
}

/// The signature lines of a piece of code, joined with newlines.
pub open spec fn signatures_of(code: Seq<char>) -> Seq<char> {
    join_lines(all_signatures(split_by(code, |c: char| is_newline(c))))
}

fn elide(cs: &Vec<char>, a: usize, b: usize) -> (r: String)
    requires
        a <= b <= cs@.len(),
    ensures
        r@ == elided(cs@.subrange(a as int, b as int)),
{
    let ghost t = cs@.subrange(a as int, b as int);
    let mut e = a;
    while e < b && cs[e] != '{'
        invariant
            a <= e <= b <= cs@.len(),
            t == cs@.subrange(a as int, b as int),
            first_brace(t, 0) == first_brace(t, e - a),
        decreases b - e,
    {
        e = e + 1;
    }
    if e < b {
        let (x, y) = trim_bounds(cs, a, e);
        let mut out = string_of(cs, x, y);
        push_text(&mut out, " { ... }");
        proof {
            assert(t.subrange(0, e - a) == cs@.subrange(a as int, e as int));
        }
        out
    } else {
        string_of(cs, a, b)
    }
}

fn any_prefix(cs: &Vec<char>, a: usize, b: usize, ps: &[&str]) -> (r: bool)
    requires
        a <= b <= cs@.len(),
    ensures
        r == exists|i: int| 0 <= i < ps@.len() && starts_with(cs@.subrange(a as int, b as int), (#[trigger] ps@[i])@),
{
    let mut i: usize = 0;
    while i < ps.len()
        invariant
            a <= b <= cs@.len(),
            i <= ps@.len(),
            forall|j: int| 0 <= j < i ==> !starts_with(cs@.subrange(a as int, b as int), (#[trigger] ps@[j])@),
        decreases ps@.len() - i,
    {
        if has_prefix(cs, a, b, ps[i]) {
            return true;
        }
        i = i + 1;
    }
    false
}

fn push_signature(out: &mut Vec<String>, s: String)
    ensures
        views(final(out)@) == views(old(out)@).push(s@),
{
    let ghost before = out@;
    out.push(s);
    proof {
        assert(views(out@) =~= views(before).push(s@));
    }
}

fn line_sigs(out: &mut Vec<String>, cs: &Vec<char>, from: usize, to: usize)
    requires
        from <= to <= cs@.len(),
    ensures
        views(final(out)@) == views(old(out)@) + line_signatures(trimmed(cs@.subrange(from as int, to as int))),
{
    let (a, b) = trim_bounds(cs, from, to);
    let ghost t = cs@.subrange(a as int, b as int);
    let rust: [&str; 4] = ["pub fn ", "fn ", "async fn ", "pub async fn "];
    let py: [&str; 2] = ["def ", "async def "];
    let js: [&str; 3] = ["function ", "export function ", "export const "];
    let ty: [&str; 4] = ["struct ", "pub struct ", "class ", "export class "];
    proof {
        assert(rust@[0]@ == "pub fn "@ && rust@[1]@ == "fn "@ && rust@[2]@ == "async fn "@ && rust@[3]@ == "pub async fn "@);
        assert(py@[0]@ == "def "@ && py@[1]@ == "async def "@);
        assert(js@[0]@ == "function "@ && js@[1]@ == "export function "@ && js@[2]@ == "export const "@);
        assert(ty@[0]@ == "struct "@ && ty@[1]@ == "pub struct "@ && ty@[2]@ == "class "@ && ty@[3]@ == "export class "@);
    }
    let ghost start = views(out@);
    let is_rust = any_prefix(cs, a, b, rust.as_slice());
    let is_py = any_prefix(cs, a, b, py.as_slice());
    let line = string_of(cs, a, b);
    let is_js = any_prefix(cs, a, b, js.as_slice()) || has_substring(line.as_str(), "=> {");
    let is_ty = any_prefix(cs, a, b, ty.as_slice());
    proof {
        assert(is_rust == is_rust_fn(t));
        assert(is_py == is_python_fn(t));
        assert(is_js == is_script_fn(t));
        assert(is_ty == is_type_def(t));
    }
    if is_rust {
        push_signature(out, elide(cs, a, b));
    }
    let ghost s1 = views(out@);
    if is_py {
        push_signature(out, string_of(cs, a, b));
    }
    let ghost s2 = views(out@);
    if is_js {
        push_signature(out, string_of(cs, a, b));
    }
    let ghost s3 = views(out@);
    if is_ty {
        push_signature(out, elide(cs, a, b));
    }
    proof {
        let r = if is_rust_fn(t) { seq![elided(t)] } else { Seq::<Seq<char>>::empty() };
        let p = if is_python_fn(t) { seq![t] } else { Seq::<Seq<char>>::empty() };
        let j = if is_script_fn(t) { seq![t] } else { Seq::<Seq<char>>::empty() };
        let y = if is_type_def(t) { seq![elided(t)] } else { Seq::<Seq<char>>::empty() };
        assert(s1 =~= start + r);
        assert(s2 =~= start + r + p);
        assert(s3 =~= start + r + p + j);
        assert(views(out@) =~= start + r + p + j + y);
        assert(line_signatures(t) =~= r + p + j + y);
    }
}

/// Keeps only the lines that declare functions, structs or classes, with
/// bodies elided where a `{` opens them, joined with newlines.
pub fn extract_function_signatures(code: &str) -> (r: String)
    ensures
        r@ == signatures_of(code@),
{
    let cs = chars_of(code);
    let n = cs.len();
    let ghost sep = |c: char| is_newline(c);
    let mut sigs: Vec<String> = Vec::new();
    let ghost mut done: Seq<Seq<char>> = seq![];
    let mut start: usize = 0;
    let mut i: usize = 0;
    proof {
        assert(cs@.subrange(0, 0) == Seq::<char>::empty());
        assert(split_by(Seq::<char>::empty(), sep) == seq![Seq::<char>::empty()]);
        assert(done.push(cs@.subrange(0, 0)) == seq![Seq::<char>::empty()]);
        assert(views(sigs@) =~= all_signatures(done));
    }
    while i < n
        invariant
            n == cs@.len(),
            start <= i <= n,
            forall|c: char| #[trigger] sep(c) == is_newline(c),
            split_by(cs@.subrange(0, i as int), sep) == done.push(cs@.subrange(start as int, i as int)),
            views(sigs@) == all_signatures(done),
        decreases n - i,
    {
        let ghost pre = cs@.subrange(0, i as int);
        proof {
            assert(cs@.subrange(0, i + 1).drop_last() == pre);
            assert(cs@.subrange(0, i + 1).last() == cs@[i as int]);
        }
        if cs[i] == '\n' {
            line_sigs(&mut sigs, &cs, start, i);
            proof {
                assert(sep(cs@[i as int]));
                let d2 = done.push(cs@.subrange(start as int, i as int));
                assert(d2.drop_last() == done);
                done = d2;
                assert(cs@.subrange(i + 1, i + 1) == Seq::<char>::empty());
            }
            start = i + 1;
        } else {
            proof {
                let l = done.push(cs@.subrange(start as int, i as int));
                assert(cs@.subrange(start as int, i as int).push(cs@[i as int]) =~= cs@.subrange(start as int, i + 1));
                assert(!sep(cs@[i as int]));
                assert(l.update(l.len() - 1, l.last().push(cs@[i as int])) =~= done.push(
                    cs@.subrange(start as int, i + 1),
                ));
            }
        }
        i = i + 1;
    }
    line_sigs(&mut sigs, &cs, start, n);
    proof {
        let d2 = done.push(cs@.subrange(start as int, n as int));
        assert(d2.drop_last() == done);
        assert(cs@.subrange(0, n as int) == code@);
    }
    join_strings(&sigs)
}

/// Strings joined with newlines.
fn join_strings(parts: &Vec<String>) -> (r: String)
    ensures
        r@ == join_lines(views(parts@)),
{
    let mut out = String::new();
    let mut i: usize = 0;
    while i < parts.len()
        invariant
            i <= parts@.len(),
            out@ == join_lines(views(parts@.subrange(0, i as int))),
        decreases parts@.len() - i,
    {
        let ghost before = views(parts@.subrange(0, i as int));
        let ghost after = views(parts@.subrange(0, i + 1));
        proof {
            assert(after =~= before.push(parts@[i as int]@));
            assert(after.drop_last() == before);
        }
        if i > 0 {
            push_text(&mut out, "\n");
        }
        push_text(&mut out, parts[i].as_str());
        proof {
            if i == 0 {
                assert(out@ == Seq::<char>::empty() + parts@[0]@);
            }
        }
        i = i + 1;
    }
    proof {
        assert(parts@.subrange(0, parts@.len() as int) == parts@);
    }
    out
}

/// A line kept as it is, or emptied when it holds only whitespace.
pub open spec fn kept_or_blank(l: Seq<char>) -> Seq<char> {
    if trimmed(l).len() == 0 {
        Seq::<char>::empty()
    } else {
        l
    }
}

/// A line without the carriage return of a `\r\n` ending.
pub open spec fn without_cr(l: Seq<char>) -> Seq<char> {
    if l.len() > 0 && l.last() == '\r' {
        l.drop_last()
    } else {
        l
    }
}

/// `str::lines`: the newline-terminated lines (without `\r\n` or `\n`),
/// then the unterminated rest when it is not empty.
pub open spec fn std_lines(done: Seq<Seq<char>>, rest: Seq<char>) -> Seq<Seq<char>> {
    let full = done.map_values(|l: Seq<char>| without_cr(l));
    if rest.len() > 0 {
        full.push(rest)
    } else {
        full
    }
}

/// The lines of `s` as `str::lines` yields them.
pub open spec fn lines_of(s: Seq<char>) -> Seq<Seq<char>> {
    let parts = split_by(s, |c: char| is_newline(c));
    std_lines(parts.drop_last(), parts.last())
}

/// Empties whitespace-only lines and keeps the others untouched (code keeps
/// its indentation).
pub fn strip_whitespace_preserve_code(text: &str) -> (r: String)
    ensures
        r@ == join_lines(lines_of(text@).map_values(|l: Seq<char>| kept_or_blank(l))),
{
    let cs = chars_of(text);
    let n = cs.len();
    let ghost sep = |c: char| is_newline(c);
    let ghost f = |l: Seq<char>| kept_or_blank(l);
    let ghost g = |l: Seq<char>| without_cr(l);
    let mut parts: Vec<String> = Vec::new();
    let ghost mut done: Seq<Seq<char>> = seq![];
    let mut start: usize = 0;
    let mut i: usize = 0;
    proof {
        assert(cs@.subrange(0, 0) == Seq::<char>::empty());
        assert(split_by(Seq::<char>::empty(), sep) == seq![Seq::<char>::empty()]);
        assert(done.push(cs@.subrange(0, 0)) == seq![Seq::<char>::empty()]);
        assert(views(parts@) =~= done.map_values(g).map_values(f));
    }
    while i < n
        invariant
            n == cs@.len(),
            start <= i <= n,
            forall|c: char| #[trigger] sep(c) == is_newline(c),
            forall|l: Seq<char>| #[trigger] f(l) == kept_or_blank(l),
            forall|l: Seq<char>| #[trigger] g(l) == without_cr(l),
            split_by(cs@.subrange(0, i as int), sep) == done.push(cs@.subrange(start as int, i as int)),
            views(parts@) == done.map_values(g).map_values(f),
        decreases n - i,
    {
        let ghost pre = cs@.subrange(0, i as int);
        proof {
            assert(cs@.subrange(0, i + 1).drop_last() == pre);
            assert(cs@.subrange(0, i + 1).last() == cs@[i as int]);
        }
        if cs[i] == '\n' {
            let end = if i > start && cs[i - 1] == '\r' { i - 1 } else { i };
            let (a, b) = trim_bounds(&cs, start, end);
            let kept = if a < b { string_of(&cs, start, end) } else { String::new() };
            let ghost line = cs@.subrange(start as int, i as int);
            proof {
                assert(cs@.subrange(start as int, end as int) == without_cr(line)) by {
                    if i > start && cs@[i - 1] == '\r' {
                        assert(line.drop_last() =~= cs@.subrange(start as int, i - 1));
                    }
                }
            }
            let ghost before = parts@;
            parts.push(kept);
            proof {
                let d2 = done.push(line);
                assert(d2.map_values(g).map_values(f) =~= done.map_values(g).map_values(f).push(kept_or_blank(without_cr(line))));
                assert(views(parts@) =~= views(before).push(kept_or_blank(without_cr(line))));
                done = d2;
                assert(sep(cs@[i as int]));
                assert(cs@.subrange(i + 1, i + 1) == Seq::<char>::empty());
            }
            start = i + 1;
        } else {
            proof {
                let l = done.push(cs@.subrange(start as int, i as int));
                assert(cs@.subrange(start as int, i as int).push(cs@[i as int]) =~= cs@.subrange(start as int, i + 1));
                assert(!sep(cs@[i as int]));
                assert(l.update(l.len() - 1, l.last().push(cs@[i as int])) =~= done.push(
                    cs@.subrange(start as int, i + 1),
                ));
            }
        }
        i = i + 1;
    }
    let ghost rest = cs@.subrange(start as int, n as int);
    if start < n {
        let (a, b) = trim_bounds(&cs, start, n);
        let kept = if a < b { string_of(&cs, start, n) } else { String::new() };
        let ghost before = parts@;
        parts.push(kept);
        proof {
            assert(views(parts@) =~= views(before).push(kept_or_blank(rest)));
        }
    }
    proof {
        assert(cs@.subrange(0, n as int) == text@);
        let all = done.push(rest);
        assert(all.drop_last() == done);
        assert(all.last() == rest);
        let ls = std_lines(done, rest);
        if rest.len() > 0 {
            assert(ls.map_values(f) =~= done.map_values(g).map_values(f).push(kept_or_blank(rest)));
        } else {
            assert(ls.map_values(f) =~= done.map_values(g).map_values(f));
        }
    }
    join_strings(&parts)
}

} // verus!
