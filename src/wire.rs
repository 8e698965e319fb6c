//! Provider-facing shapes of a request and the parsing of provider
//! responses. A request becomes a list of messages in the provider's
//! dialect; encoding that list as JSON is left to the transport.

use vstd::prelude::*;
use crate::json::{as_count, as_text, at_index, at_key, deref_opt, get_count, get_index, get_key, get_text, same_text, JsonValue};
use crate::request::{ApiRequest, ContextItem, Message, Role};
use crate::text::push_text;
use crate::usage::{clamp_count, clamp_to_u32, ApiResponse, TokenUsage};

verus! {

/// The kind of provider an adapter talks to.
#[derive(Debug, Clone, Copy, PartialEq, Eq, Structural)]
pub enum ProviderType {
    Claude,
    OpenAI,
    Ollama,
    Custom,
}

/// A text block, optionally marked as an ephemeral cache breakpoint.
#[derive(Debug, Clone)]
pub struct WireBlock {
    pub text: String,
    pub cached: bool,
}

/// A message's content: a plain string or a list of text blocks.
#[derive(Debug, Clone)]
pub enum WireContent {
    Text(String),
    Blocks(Vec<WireBlock>),
}

#[derive(Debug, Clone)]
pub struct WireMessage {
    pub role: Role,
    pub content: WireContent,
}

/// How a context item is rendered in a prompt.
pub open spec fn block_text(c: ContextItem) -> Seq<char> {
    "### "@ + c.name@ + "\n```\n"@ + c.content@ + "\n```"@
}

pub fn context_block(c: &ContextItem) -> (r: String)
    ensures
        r@ == block_text(*c),
{
    let mut out = String::new();
    push_text(&mut out, "### ");
    push_text(&mut out, c.name.as_str());
    push_text(&mut out, "\n```\n");
    push_text(&mut out, c.content.as_str());
    push_text(&mut out, "\n```");
    proof {
        assert(Seq::<char>::empty() + "### "@ == "### "@);
    }
    out
}

pub open spec fn is_text_message(m: WireMessage, role: Role, t: Seq<char>) -> bool {
    m.role == role && match m.content {
        WireContent::Text(s) => s@ == t,
        _ => false,
    }
}

/// The prior messages an Anthropic-style provider receives (system turns are
/// carried separately).
pub open spec fn conversational(ms: Seq<Message>) -> Seq<Message> {
    ms.filter(|m: Message| m.role != Role::System)
}

/// Whether context item `i` is sent with a cache marker.
pub open spec fn marked(req: ApiRequest, i: int) -> bool {
    req.cache_breakpoints@.contains(i as usize) || req.context@[i].cache_control is Some
}

pub open spec fn blocks_match(bs: Seq<WireBlock>, req: ApiRequest) -> bool {
    &&& bs.len() == req.context@.len()
    &&& forall|i: int|
        0 <= i < bs.len() ==> (#[trigger] bs[i]).text@ == block_text(req.context@[i]) && bs[i].cached
            == marked(req, i)
}

fn contains_index(v: &Vec<usize>, x: usize) -> (r: bool)
    ensures
        r == v@.contains(x),
{
    let mut i: usize = 0;
    while i < v.len()
        invariant
            i <= v@.len(),
            forall|j: int| 0 <= j < i ==> v@[j] != x,
        decreases v@.len() - i,
    {
        if v[i] == x {
            assert(v@[i as int] == x);
            return true;
        }
        i = i + 1;
    }
    false
}

fn text_message(role: Role, s: &String) -> (r: WireMessage)
    ensures
        is_text_message(r, role, s@),
{
    WireMessage { role, content: WireContent::Text(s.clone()) }
}

/// The messages of an Anthropic-style request: one user message holding the
/// context as text blocks (marked where a breakpoint or the item's own flag
/// asks for caching), then the non-system history, then the task.
pub fn anthropic_messages(req: &ApiRequest) -> (r: Vec<WireMessage>)
    ensures
        ({
            let off: int = if req.context@.len() > 0 { 1 } else { 0 };
            let hist = conversational(req.messages@);
            &&& r@.len() == off + hist.len() + 1
            &&& req.context@.len() > 0 ==> r@[0].role == Role::User && (match r@[0].content {
                WireContent::Blocks(bs) => blocks_match(bs@, *req),
                _ => false,
            })
            &&& forall|j: int| 0 <= j < hist.len() ==> is_text_message(#[trigger] r@[off + j], hist[j].role, hist[j].content@)
            &&& is_text_message(r@.last(), Role::User, req.task@)
        }),
{
    let mut out: Vec<WireMessage> = Vec::new();
    if req.context.len() > 0 {
        let mut blocks: Vec<WireBlock> = Vec::new();
        let mut i: usize = 0;
        while i < req.context.len()
            invariant
                i <= req.context@.len(),
                blocks@.len() == i,
                forall|k: int| 0 <= k < i ==> (#[trigger] blocks@[k]).text@ == block_text(req.context@[k]) && blocks@[k].cached == marked(*req, k),
            decreases req.context@.len() - i,
        {
            let text = context_block(&req.context[i]);
            let cached = contains_index(&req.cache_breakpoints, i) || req.context[i].cache_control.is_some();
            blocks.push(WireBlock { text, cached });
            i = i + 1;
        }
        out.push(WireMessage { role: Role::User, content: WireContent::Blocks(blocks) });
    }
    let ghost off: int = out@.len() as int;
    let ghost ms = req.messages@;
    let mut j: usize = 0;
    while j < req.messages.len()
        invariant
            j <= ms.len(),
            ms == req.messages@,
            off == (if req.context@.len() > 0 { 1int } else { 0 }),
            out@.len() == off + conversational(ms.subrange(0, j as int)).len(),
            req.context@.len() > 0 ==> out@[0].role == Role::User && (match out@[0].content {
                WireContent::Blocks(bs) => blocks_match(bs@, *req),
                _ => false,
            }),
            forall|k: int| 0 <= k < conversational(ms.subrange(0, j as int)).len() ==> is_text_message(#[trigger] out@[off + k], conversational(ms.subrange(0, j as int))[k].role, conversational(ms.subrange(0, j as int))[k].content@),
        decreases ms.len() - j,
    {
        proof {
            assert(ms.subrange(0, j + 1).drop_last() == ms.subrange(0, j as int));
            reveal(Seq::filter);
        }
        let m = &req.messages[j];
        if m.role != Role::System {
            let msg = text_message(m.role, &m.content);
            out.push(msg);
        }
        j = j + 1;
    }
    proof {
        assert(ms.subrange(0, ms.len() as int) == ms);
    }
    let task = text_message(Role::User, &req.task);
    out.push(task);
    out
}

/// The system part of an Anthropic-style request: a single cached block when
/// the system prompt asks for caching, else plain text.
pub fn anthropic_system(req: &ApiRequest) -> (r: Option<WireContent>)
    ensures
        req.system is None ==> r is None,
        req.system is Some ==> r is Some,
        req.system is Some && req.system_cache_control is None ==> (r matches Some(WireContent::Text(s)) && s@ == req.system->0@),
        req.system is Some && req.system_cache_control is Some ==> (r matches Some(WireContent::Blocks(bs)) && bs@.len() == 1 && bs@[0].text@ == req.system->0@ && bs@[0].cached),
{
    match &req.system {
        None => None,
        Some(s) => if req.system_cache_control.is_some() {
            let mut bs: Vec<WireBlock> = Vec::new();
            bs.push(WireBlock { text: s.clone(), cached: true });
            Some(WireContent::Blocks(bs))
        } else {
            Some(WireContent::Text(s.clone()))
        },
    }
}

/// Parts joined with a separator.
pub open spec fn joined(parts: Seq<Seq<char>>, sep: Seq<char>) -> Seq<char>
    decreases parts.len(),
{
    if parts.len() == 0 {
        Seq::<char>::empty()
    } else if parts.len() == 1 {
        parts[0]
    } else {
        joined(parts.drop_last(), sep) + sep + parts.last()
    }
}

/// The context as one text, for providers without cache annotations.
pub open spec fn context_text(ctx: Seq<ContextItem>) -> Seq<char> {
    "Context:\n"@ + joined(ctx.map_values(|c: ContextItem| block_text(c)), "\n\n"@)
}

fn context_message_text(ctx: &Vec<ContextItem>) -> (r: String)
    ensures
        r@ == context_text(ctx@),
{
    let mut out = String::new();
    push_text(&mut out, "Context:\n");
    let ghost parts = ctx@.map_values(|c: ContextItem| block_text(c));
    let mut i: usize = 0;
    proof {
        assert(Seq::<char>::empty() + "Context:\n"@ == "Context:\n"@);
        assert(parts.subrange(0, 0) =~= Seq::<Seq<char>>::empty());
    }
    while i < ctx.len()
        invariant
            i <= ctx@.len(),
            parts == ctx@.map_values(|c: ContextItem| block_text(c)),
            out@ == "Context:\n"@ + joined(parts.subrange(0, i as int), "\n\n"@),
        decreases ctx@.len() - i,
    {
        proof {
            assert(parts.subrange(0, i + 1).drop_last() == parts.subrange(0, i as int));
            assert(parts.subrange(0, i + 1).last() == block_text(ctx@[i as int]));
        }
        if i > 0 {
            push_text(&mut out, "\n\n");
        }
        let b = context_block(&ctx[i]);
        push_text(&mut out, b.as_str());
        proof {
            if i == 0 {
                assert(joined(parts.subrange(0, 0), "\n\n"@) == Seq::<char>::empty());
                assert("Context:\n"@ + Seq::<char>::empty() == "Context:\n"@);
            }
        }
        i = i + 1;
    }
    proof {
        assert(parts.subrange(0, ctx@.len() as int) == parts);
    }
    out
}

/// The messages of an OpenAI-style request: the system prompt as a leading
/// system message, the context as one user message, the whole history, then
/// the task. No cache annotations are sent.
pub fn openai_messages(req: &ApiRequest) -> (r: Vec<WireMessage>)
    ensures
        ({
            let s: int = if req.system is Some { 1 } else { 0 };
            let c: int = if req.context@.len() > 0 { 1 } else { 0 };
            let ms = req.messages@;
            &&& r@.len() == s + c + ms.len() + 1
            &&& req.system is Some ==> is_text_message(r@[0], Role::System, req.system->0@)
            &&& req.context@.len() > 0 ==> is_text_message(r@[s], Role::User, context_text(req.context@))
            &&& forall|j: int| 0 <= j < ms.len() ==> is_text_message(#[trigger] r@[s + c + j], ms[j].role, ms[j].content@)
            &&& is_text_message(r@.last(), Role::User, req.task@)
        }),
{
    let mut out: Vec<WireMessage> = Vec::new();
    if let Some(sys) = &req.system {
        out.push(text_message(Role::System, sys));
    }
    if req.context.len() > 0 {
        let t = context_message_text(&req.context);
        out.push(text_message(Role::User, &t));
    }
    let ghost base: int = out@.len() as int;
    let mut j: usize = 0;
    while j < req.messages.len()
        invariant
            j <= req.messages@.len(),
            base == (if req.system is Some { 1int } else { 0 }) + (if req.context@.len() > 0 { 1int } else { 0 }),
            out@.len() == base + j,
            req.system is Some ==> is_text_message(out@[0], Role::System, req.system->0@),
            req.context@.len() > 0 ==> is_text_message(out@[if req.system is Some { 1int } else { 0 }], Role::User, context_text(req.context@)),
            forall|k: int| 0 <= k < j ==> is_text_message(#[trigger] out@[base + k], req.messages@[k].role, req.messages@[k].content@),
        decreases req.messages@.len() - j,
    {
        let m = &req.messages[j];
        out.push(text_message(m.role, &m.content));
        j = j + 1;
    }
    out.push(text_message(Role::User, &req.task));
    out
}

/// The plain-text prompt given to a command-line fallback.
pub open spec fn cli_prompt_text(req: ApiRequest) -> Seq<char> {
    let ctx = req.context@;
    let head = if ctx.len() > 0 {
        "Context:\n"@ + cli_blocks(ctx, ctx.len() as int)
    } else {
        Seq::<char>::empty()
    };
    head + "Task: "@ + req.task@
}

pub open spec fn cli_blocks(ctx: Seq<ContextItem>, k: int) -> Seq<char>
    decreases k,
{
    if k <= 0 {
        Seq::<char>::empty()
    } else {
        cli_blocks(ctx, k - 1) + block_text(ctx[k - 1]) + "\n\n"@
    }
}

/// Builds the prompt for a command-line fallback: labelled context blocks,
/// then the task.
pub fn cli_prompt(req: &ApiRequest) -> (r: String)
    ensures
        r@ == cli_prompt_text(*req),
{
    let mut out = String::new();
    let n = req.context.len();
    if n > 0 {
        push_text(&mut out, "Context:\n");
        let mut i: usize = 0;
        proof {
            assert(Seq::<char>::empty() + "Context:\n"@ == "Context:\n"@ + cli_blocks(req.context@, 0));
        }
        while i < n
            invariant
                n == req.context@.len(),
                i <= n,
                out@ == "Context:\n"@ + cli_blocks(req.context@, i as int),
            decreases n - i,
        {
            let b = context_block(&req.context[i]);
            push_text(&mut out, b.as_str());
            push_text(&mut out, "\n\n");
            i = i + 1;
        }
    }
    let ghost head = out@;
    push_text(&mut out, "Task: ");
    push_text(&mut out, req.task.as_str());
    proof {
        if n == 0 {
            assert(head == Seq::<char>::empty());
        }
    }
    out
}

/// A string field, or the empty text when absent.
pub open spec fn text_or_empty(v: Option<JsonValue>) -> Seq<char> {
    match as_text(v) {
        Some(t) => t,
        None => Seq::<char>::empty(),
    }
}

pub open spec fn count_or_zero(v: Option<JsonValue>) -> u32 {
    match as_count(v) {
        Some(n) => clamp_count(n),
        None => 0,
    }
}

pub open spec fn count_opt(v: Option<JsonValue>) -> Option<u32> {
    match as_count(v) {
        Some(n) => Some(clamp_count(n)),
        None => None,
    }
}

/// What an Anthropic-style response body says.
pub open spec fn claude_response(v: JsonValue, r: ApiResponse) -> bool {
    let usage = at_key(Some(v), "usage"@);
    &&& r.content@ == text_or_empty(at_key(at_index(at_key(Some(v), "content"@), 0), "text"@))
    &&& r.usage.wf()
    &&& r.usage.prompt_tokens == count_or_zero(at_key(usage, "input_tokens"@))
    &&& r.usage.completion_tokens == count_or_zero(at_key(usage, "output_tokens"@))
    &&& r.usage.cache_creation_tokens == count_opt(at_key(usage, "cache_creation_input_tokens"@))
    &&& r.usage.cache_read_tokens == count_opt(at_key(usage, "cache_read_input_tokens"@))
    &&& r.model@ == text_or_empty(at_key(Some(v), "model"@))
    &&& r.truncated == (as_text(at_key(Some(v), "stop_reason"@)) == Some("max_tokens"@))
    &&& r.stop_reason is None
}

/// What an OpenAI-style response body says.
pub open spec fn openai_response(v: JsonValue, r: ApiResponse) -> bool {
    let usage = at_key(Some(v), "usage"@);
    let choice = at_index(at_key(Some(v), "choices"@), 0);
    &&& r.content@ == text_or_empty(at_key(at_key(choice, "message"@), "content"@))
    &&& r.usage.is_plain(
        count_or_zero(at_key(usage, "prompt_tokens"@)),
        count_or_zero(at_key(usage, "completion_tokens"@)),
    )
    &&& r.model@ == text_or_empty(at_key(Some(v), "model"@))
    &&& r.truncated == (as_text(at_key(choice, "finish_reason"@)) == Some("length"@))
    &&& r.stop_reason is None
}

fn text_field(v: Option<&JsonValue>) -> (r: String)
    ensures
        r@ == text_or_empty(deref_opt(v)),
{
    match get_text(v) {
        Some(s) => s,
        None => String::new(),
    }
}

fn count_field(v: Option<&JsonValue>) -> (r: u32)
    ensures
        r == count_or_zero(deref_opt(v)),
{
    match get_count(v) {
        Some(n) => clamp_to_u32(n),
        None => 0,
    }
}

fn count_field_opt(v: Option<&JsonValue>) -> (r: Option<u32>)
    ensures
        r == count_opt(deref_opt(v)),
{
    match get_count(v) {
        Some(n) => Some(clamp_to_u32(n)),
        None => None,
    }
}

fn text_equals(v: Option<&JsonValue>, lit: &str) -> (r: bool)
    ensures
        r == (as_text(deref_opt(v)) == Some(lit@)),
{
    match get_text(v) {
        Some(s) => same_text(s.as_str(), lit),
        None => false,
    }
}

/// Reads an Anthropic-style response body.
pub fn parse_claude_response(v: &JsonValue) -> (r: ApiResponse)
    ensures
        claude_response(*v, r),
{
    let root = Some(v);
    let usage = get_key(root, "usage");
    let content = text_field(get_key(get_index(get_key(root, "content"), 0), "text"));
    let u = TokenUsage::with_cache(
        count_field(get_key(usage, "input_tokens")),
        count_field(get_key(usage, "output_tokens")),
        count_field_opt(get_key(usage, "cache_creation_input_tokens")),
        count_field_opt(get_key(usage, "cache_read_input_tokens")),
    );
    ApiResponse {
        content,
        usage: u,
        model: text_field(get_key(root, "model")),
        truncated: text_equals(get_key(root, "stop_reason"), "max_tokens"),
        stop_reason: None,
    }
}

/// Reads an OpenAI-style response body.
pub fn parse_openai_response(v: &JsonValue) -> (r: ApiResponse)
    ensures
        openai_response(*v, r),
{
    let root = Some(v);
    let usage = get_key(root, "usage");
    let choice = get_index(get_key(root, "choices"), 0);
    let content = text_field(get_key(get_key(choice, "message"), "content"));
    let u = TokenUsage::new(
        count_field(get_key(usage, "prompt_tokens")),
        count_field(get_key(usage, "completion_tokens")),
    );
    ApiResponse {
        content,
        usage: u,
        model: text_field(get_key(root, "model")),
        truncated: text_equals(get_key(choice, "finish_reason"), "length"),
        stop_reason: None,
    }
}

/// The response read from a body is a function of the body: reading equal
/// bodies twice gives the same content, usage, model and flags.
pub proof fn lemma_response_reading_is_stable(v: JsonValue, w: JsonValue, r1: ApiResponse, r2: ApiResponse, claude: bool)
    requires
        v == w,
        claude ==> claude_response(v, r1) && claude_response(w, r2),
        !claude ==> openai_response(v, r1) && openai_response(w, r2),
    ensures
        r1.content@ == r2.content@,
        r1.usage == r2.usage,
        r1.model@ == r2.model@,
        r1.truncated == r2.truncated,
        r1.stop_reason == r2.stop_reason,
{
}

} // verus!
