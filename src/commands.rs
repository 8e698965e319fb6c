//! Slash commands of the interactive shell, and its input history.

use vstd::prelude::*;
use crate::strategies::{lower_of, lowercase};
use crate::text::{chars_of, contains, has_substring, string_of, trim_bounds, trimmed};

verus! {

#[derive(Debug, Clone)]
pub enum ContextAction {
    Add(String),
    Remove(String),
    List,
    Clear,
}

#[derive(Debug, Clone)]
pub enum SlashCommand {
    Help,
    Quit,
    Clear,
    Model(Option<String>),
    Provider(Option<String>),
    Stats,
    Context(ContextAction),
    Status,
    Compact,
}

/// The first position of a space in `s` at or after `i`, or `s.len()`.
pub open spec fn space_from(s: Seq<char>, i: int) -> int
    decreases s.len() - i,
{
    if i < 0 || i >= s.len() {
        s.len() as int
    } else if s[i] == ' ' {
        i
    } else {
        space_from(s, i + 1)
    }
}

/// `splitn(3, ' ')`: the command word, the first argument and the rest.
pub open spec fn split3(s: Seq<char>) -> (Seq<char>, Option<Seq<char>>, Option<Seq<char>>) {
    let a = space_from(s, 0);
    if a >= s.len() {
        (s, None, None)
    } else {
        let b = space_from(s, a + 1);
        if b >= s.len() {
            (s.subrange(0, a), Some(s.subrange(a + 1, s.len() as int)), None)
        } else {
            (s.subrange(0, a), Some(s.subrange(a + 1, b)), Some(s.subrange(b + 1, s.len() as int)))
        }
    }
}

pub open spec fn is_str(o: Option<String>, t: Option<Seq<char>>) -> bool {
    match (o, t) {
        (Some(a), Some(b)) => a@ == b,
        (None, None) => true,
        _ => false,
    }
}

/// What the context sub-command `action` (with optional argument) means.
pub open spec fn context_meaning(action: Seq<char>, arg: Option<Seq<char>>, r: ContextAction) -> bool {
    if action == "add"@ || action == "a"@ {
        match arg {
            Some(p) => r matches ContextAction::Add(x) && x@ == p,
            None => r is List,
        }
    } else if action == "remove"@ || action == "rm"@ || action == "r"@ {
        match arg {
            Some(p) => r matches ContextAction::Remove(x) && x@ == p,
            None => r is List,
        }
    } else if action == "list"@ || action == "ls"@ || action == "l"@ {
        r is List
    } else if action == "clear"@ || action == "c"@ {
        r is Clear
    } else {
        r matches ContextAction::Add(x) && x@ == action
    }
}

/// What an input line means as a slash command.
pub open spec fn command_meaning(input: Seq<char>, r: Option<SlashCommand>) -> bool {
    let t = trimmed(input);
    let parts = split3(t);
    let cmd = lower_of(parts.0);
    if t.len() == 0 || t[0] != '/' {
        r is None
    } else if cmd == "/help"@ || cmd == "/h"@ || cmd == "/?"@ {
        r matches Some(SlashCommand::Help)
    } else if cmd == "/quit"@ || cmd == "/q"@ || cmd == "/exit"@ {
        r matches Some(SlashCommand::Quit)
    } else if cmd == "/clear"@ || cmd == "/cls"@ {
        r matches Some(SlashCommand::Clear)
    } else if cmd == "/model"@ {
        r matches Some(SlashCommand::Model(a)) && is_str(a, parts.1)
    } else if cmd == "/provider"@ {
        r matches Some(SlashCommand::Provider(a)) && is_str(a, parts.1)
    } else if cmd == "/stats"@ {
        r matches Some(SlashCommand::Stats)
    } else if cmd == "/status"@ {
        r matches Some(SlashCommand::Status)
    } else if cmd == "/compact"@ {
        r matches Some(SlashCommand::Compact)
    } else if cmd == "/context"@ || cmd == "/ctx"@ {
        let action = match parts.1 {
            Some(a) => a,
            None => "list"@,
        };
        r matches Some(SlashCommand::Context(c)) && context_meaning(action, parts.2, c)
    } else {
        r is None
    }
}

fn space_index(cs: &Vec<char>, from: usize, to: usize) -> (r: usize)
    requires
        from <= to <= cs@.len(),
    ensures
        r == from + space_from(cs@.subrange(from as int, to as int), 0) || (r == to && space_from(cs@.subrange(from as int, to as int), 0) >= to - from),
        from <= r <= to,
        r == from + space_from(cs@.subrange(from as int, to as int), 0),
{
    let ghost s = cs@.subrange(from as int, to as int);
    let mut i = from;
    while i < to && cs[i] != ' '
        invariant
            from <= i <= to <= cs@.len(),
            s == cs@.subrange(from as int, to as int),
            space_from(s, 0) == space_from(s, i - from),
        decreases to - i,
    {
        i = i + 1;
    }
    i
}

fn eq_any(s: &String, options: &[&str]) -> (r: bool)
    ensures
        r == exists|i: int| 0 <= i < options@.len() && s@ == (#[trigger] options@[i])@,
{
    let mut i: usize = 0;
    while i < options.len()
        invariant
            i <= options@.len(),
            forall|j: int| 0 <= j < i ==> s@ != (#[trigger] options@[j])@,
        decreases options@.len() - i,
    {
        if crate::json::same_text(s.as_str(), options[i]) {
            return true;
        }
        i = i + 1;
    }
    false
}

fn context_action(action: String, arg: Option<String>) -> (r: ContextAction)
    ensures
        context_meaning(action@, match arg { Some(a) => Some(a@), None => None }, r),
{
    let add: [&str; 2] = ["add", "a"];
    let remove: [&str; 3] = ["remove", "rm", "r"];
    let list: [&str; 3] = ["list", "ls", "l"];
    let clear: [&str; 2] = ["clear", "c"];
    proof {
        assert(add@[0]@ == "add"@ && add@[1]@ == "a"@);
        assert(remove@[0]@ == "remove"@ && remove@[1]@ == "rm"@ && remove@[2]@ == "r"@);
        assert(list@[0]@ == "list"@ && list@[1]@ == "ls"@ && list@[2]@ == "l"@);
        assert(clear@[0]@ == "clear"@ && clear@[1]@ == "c"@);
    }
    if eq_any(&action, add.as_slice()) {
        match arg {
            Some(p) => ContextAction::Add(p),
            None => ContextAction::List,
        }
    } else if eq_any(&action, remove.as_slice()) {
        match arg {
            Some(p) => ContextAction::Remove(p),
            None => ContextAction::List,
        }
    } else if eq_any(&action, list.as_slice()) {
        ContextAction::List
    } else if eq_any(&action, clear.as_slice()) {
        ContextAction::Clear
    } else {
        ContextAction::Add(action)
    }
}

/// Parses a slash command; `None` when the input is not one.
pub fn parse_command(input: &str) -> (r: Option<SlashCommand>)
    ensures
        command_meaning(input@, r),
{
    let cs = chars_of(input);
    let (a, b) = trim_bounds(&cs, 0, cs.len());
    let ghost t = cs@.subrange(a as int, b as int);
    proof {
        assert(cs@.subrange(0, cs@.len() as int) == input@);
    }
    if a == b || cs[a] != '/' {
        return None;
    }
    let s1 = space_index(&cs, a, b);
    let ghost parts = split3(t);
    let (word, arg1, arg2) = if s1 >= b {
        let w = string_of(&cs, a, b);
        proof {
            assert(space_from(t, 0) >= t.len());
        }
        (w, None, None)
    } else {
        let s2 = space_index(&cs, s1 + 1, b);
        proof {
            assert(cs@.subrange(s1 + 1, b as int) =~= t.subrange(s1 + 1 - a, t.len() as int));
            lemma_space_from_shift(t, s1 + 1 - a);
            assert(t.subrange(0, s1 - a) =~= cs@.subrange(a as int, s1 as int));
        }
        if s2 >= b {
            let w = string_of(&cs, a, s1);
            let x = string_of(&cs, s1 + 1, b);
            proof {
                assert(t.subrange(s1 + 1 - a, t.len() as int) =~= cs@.subrange(s1 + 1, b as int));
            }
            (w, Some(x), None)
        } else {
            let w = string_of(&cs, a, s1);
            let x = string_of(&cs, s1 + 1, s2);
            let y = string_of(&cs, s2 + 1, b);
            proof {
                assert(t.subrange(s1 + 1 - a, s2 - a) =~= cs@.subrange(s1 + 1, s2 as int));
                assert(t.subrange(s2 + 1 - a, t.len() as int) =~= cs@.subrange(s2 + 1, b as int));
            }
            (w, Some(x), Some(y))
        }
    };
    assert(word@ == parts.0);
    assert(is_str(arg1, parts.1));
    assert(is_str(arg2, parts.2));
    let cmd = lowercase(word.as_str());
    let help: [&str; 3] = ["/help", "/h", "/?"];
    let quit: [&str; 3] = ["/quit", "/q", "/exit"];
    let clear: [&str; 2] = ["/clear", "/cls"];
    let context: [&str; 2] = ["/context", "/ctx"];
    let model: [&str; 1] = ["/model"];
    let provider: [&str; 1] = ["/provider"];
    let stats: [&str; 1] = ["/stats"];
    let status: [&str; 1] = ["/status"];
    let compact: [&str; 1] = ["/compact"];
    proof {
        assert(help@[0]@ == "/help"@ && help@[1]@ == "/h"@ && help@[2]@ == "/?"@);
        assert(quit@[0]@ == "/quit"@ && quit@[1]@ == "/q"@ && quit@[2]@ == "/exit"@);
        assert(clear@[0]@ == "/clear"@ && clear@[1]@ == "/cls"@);
        assert(context@[0]@ == "/context"@ && context@[1]@ == "/ctx"@);
        assert(model@[0]@ == "/model"@ && provider@[0]@ == "/provider"@ && stats@[0]@ == "/stats"@);
        assert(status@[0]@ == "/status"@ && compact@[0]@ == "/compact"@);
    }
    if eq_any(&cmd, help.as_slice()) {
        Some(SlashCommand::Help)
    } else if eq_any(&cmd, quit.as_slice()) {
        Some(SlashCommand::Quit)
    } else if eq_any(&cmd, clear.as_slice()) {
        Some(SlashCommand::Clear)
    } else if eq_any(&cmd, model.as_slice()) {
        Some(SlashCommand::Model(arg1))
    } else if eq_any(&cmd, provider.as_slice()) {
        Some(SlashCommand::Provider(arg1))
    } else if eq_any(&cmd, stats.as_slice()) {
        Some(SlashCommand::Stats)
    } else if eq_any(&cmd, status.as_slice()) {
        Some(SlashCommand::Status)
    } else if eq_any(&cmd, compact.as_slice()) {
        Some(SlashCommand::Compact)
    } else if eq_any(&cmd, context.as_slice()) {
        let action = match arg1 {
            Some(x) => x,
            None => String::from_str("list"),
        };
        let c = context_action(action, arg2);
        Some(SlashCommand::Context(c))
    } else {
        None
    }
}

proof fn lemma_space_from_shift(t: Seq<char>, k: int)
    requires
        0 <= k <= t.len(),
    ensures
        k + space_from(t.subrange(k, t.len() as int), 0) == space_from(t, k),
{
    lemma_space_from_shift_gen(t, k, 0);
}

proof fn lemma_space_from_shift_gen(t: Seq<char>, k: int, j: int)
    requires
        0 <= k <= t.len(),
        0 <= j <= t.len() - k,
    ensures
        k + space_from(t.subrange(k, t.len() as int), j) == space_from(t, k + j),
    decreases t.len() - k - j,
{
    let u = t.subrange(k, t.len() as int);
    if j < u.len() {
        assert(u[j] == t[k + j]);
        if u[j] != ' ' {
            lemma_space_from_shift_gen(t, k, j + 1);
        }
    }
}

/// Lines the user entered, in order.
#[derive(Debug)]
pub struct PromptHandler {
    history: Vec<String>,
}

impl PromptHandler {
    pub closed spec fn history_spec(&self) -> Seq<Seq<char>> {
        self.history@.map_values(|s: String| s@)
    }

    pub fn new() -> (r: Self)
        ensures
            r.history_spec().len() == 0,
    {
        PromptHandler { history: Vec::new() }
    }

    /// Records an input line, trimmed; empty lines are not recorded. Returns
    /// the trimmed line.
    pub fn record(&mut self, line: &str) -> (r: String)
        ensures
            r@ == trimmed(line@),
            r@.len() > 0 ==> final(self).history_spec() == old(self).history_spec().push(r@),
            r@.len() == 0 ==> final(self).history_spec() == old(self).history_spec(),
    {
        let cs = chars_of(line);
        let (a, b) = trim_bounds(&cs, 0, cs.len());
        proof {
            assert(cs@.subrange(0, cs@.len() as int) == line@);
        }
        let t = string_of(&cs, a, b);
        if a < b {
            let ghost before = self.history@;
            self.history.push(t.clone());
            proof {
                assert(self.history@.map_values(|s: String| s@) =~= before.map_values(|s: String| s@).push(t@));
            }
        }
        t
    }

    pub fn history(&self) -> (r: &Vec<String>)
        ensures
            r@.map_values(|s: String| s@) == self.history_spec(),
    {
        &self.history
    }

    pub fn history_len(&self) -> (r: usize)
        ensures
            r == self.history_spec().len(),
    {
        self.history.len()
    }
}

/// Whether a reply uses Markdown worth rendering: a code fence, a heading,
/// bold text, a table row or a task-list item.
pub open spec fn looks_like_markdown(t: Seq<char>) -> bool {
    contains(t, "```"@) || contains(t, "## "@) || contains(t, "# "@) || contains(t, "**"@) || contains(
        t,
        "| "@,
    ) || contains(t, "- ["@)
}

pub fn has_markdown_elements(content: &str) -> (r: bool)
    ensures
        r == looks_like_markdown(content@),
{
    has_substring(content, "```") || has_substring(content, "## ") || has_substring(content, "# ")
        || has_substring(content, "**") || has_substring(content, "| ") || has_substring(content, "- [")
}

} // verus!
