//! The description of one turn: system text, history, context items, task
//! and cache annotations.

use vstd::prelude::*;

verus! {

#[derive(Debug, Clone, Copy, PartialEq, Eq, Structural)]
pub enum Role {
    System,
    User,
    Assistant,
}

/// A prior message of the conversation.
#[derive(Debug, Clone)]
pub struct Message {
    pub role: Role,
    pub content: String,
}

#[derive(Debug, Clone, Copy, PartialEq, Eq, Structural)]
pub enum ContextType {
    File,
    Snippet,
    Documentation,
    Error,
    Output,
}

#[derive(Debug, Clone, Copy, PartialEq, Eq, Structural)]
pub enum CacheControlType {
    /// An ephemeral cache breakpoint.
    Ephemeral,
}

/// A cache-control directive attached to a block of the prompt.
#[derive(Debug, Clone, Copy, PartialEq, Eq, Structural)]
pub struct CacheControl {
    pub control_type: CacheControlType,
}

impl Default for CacheControl {
    fn default() -> (r: Self)
        ensures
            r.control_type == CacheControlType::Ephemeral,
    {
        CacheControl { control_type: CacheControlType::Ephemeral }
    }
}

/// Limits the caller puts on the request and its answer.
#[derive(Debug, Clone, Copy, PartialEq, Eq, Structural)]
pub struct RequestConstraints {
    pub max_context_tokens: Option<u32>,
    pub max_response_tokens: Option<u32>,
    pub prefer_concise: bool,
}

/// A piece of context (a file, a snippet, documentation, ...).
#[derive(Debug, Clone)]
pub struct ContextItem {
    pub name: String,
    pub content: String,
    pub item_type: ContextType,
    /// Relevance in thousandths (0 to 1000), when a preprocessor scored it.
    pub relevance: Option<u16>,
    pub cache_control: Option<CacheControl>,
    /// Whether the item is expected to stay byte-identical across turns.
    pub is_static: bool,
}

impl ContextItem {
    /// A static item always carries a cache-control flag.
    pub open spec fn wf(&self) -> bool {
        self.is_static ==> self.cache_control is Some
    }

    pub fn new(name: String, content: String, item_type: ContextType) -> (r: Self)
        ensures
            r.wf(),
            r.name@ == name@,
            r.content@ == content@,
            r.item_type == item_type,
            r.relevance is None,
            r.cache_control is None,
            !r.is_static,
    {
        ContextItem { name, content, item_type, relevance: None, cache_control: None, is_static: false }
    }
}

/// One request to a provider.
#[derive(Debug, Clone)]
pub struct ApiRequest {
    pub system: Option<String>,
    /// Set when the system prompt should be cached.
    pub system_cache_control: Option<CacheControl>,
    /// Prior messages of the conversation.
    pub messages: Vec<Message>,
    pub context: Vec<ContextItem>,
    /// The current user input.
    pub task: String,
    pub constraints: Option<RequestConstraints>,
    /// Context indices after which a cache marker goes.
    pub cache_breakpoints: Vec<usize>,
}

/// The static items of a context, in order.
pub open spec fn static_items(s: Seq<ContextItem>) -> Seq<ContextItem> {
    s.filter(|c: ContextItem| c.is_static)
}

/// The other items of a context, in order.
pub open spec fn dynamic_items(s: Seq<ContextItem>) -> Seq<ContextItem> {
    s.filter(|c: ContextItem| !c.is_static)
}

impl ApiRequest {
    pub fn new(task: String) -> (r: Self)
        ensures
            r.task@ == task@,
            r.system is None,
            r.system_cache_control is None,
            r.messages@.len() == 0,
            r.context@.len() == 0,
            r.constraints is None,
            r.cache_breakpoints@.len() == 0,
    {
        ApiRequest {
            system: None,
            system_cache_control: None,
            messages: Vec::new(),
            context: Vec::new(),
            task,
            constraints: None,
            cache_breakpoints: Vec::new(),
        }
    }

    pub fn with_system(self, system: String) -> (r: Self)
        ensures
            r == (ApiRequest { system: Some(system), ..self }),
    {
        ApiRequest { system: Some(system), ..self }
    }

    /// Sets the system prompt and asks for it to be cached.
    pub fn with_cached_system(self, system: String) -> (r: Self)
        ensures
            r.system == Some(system),
            r.system_cache_control == Some(CacheControl { control_type: CacheControlType::Ephemeral }),
            r.messages == self.messages,
            r.context == self.context,
            r.task == self.task,
            r.constraints == self.constraints,
            r.cache_breakpoints == self.cache_breakpoints,
    {
        ApiRequest {
            system: Some(system),
            system_cache_control: Some(CacheControl::default()),
            ..self
        }
    }

    pub fn with_context(self, context: Vec<ContextItem>) -> (r: Self)
        ensures
            r == (ApiRequest { context: context, ..self }),
    {
        ApiRequest { context, ..self }
    }

    pub fn with_constraints(self, constraints: RequestConstraints) -> (r: Self)
        ensures
            r == (ApiRequest { constraints: Some(constraints), ..self }),
    {
        ApiRequest { constraints: Some(constraints), ..self }
    }

    pub fn with_cache_breakpoints(self, breakpoints: Vec<usize>) -> (r: Self)
        ensures
            r == (ApiRequest { cache_breakpoints: breakpoints, ..self }),
    {
        ApiRequest { cache_breakpoints: breakpoints, ..self }
    }

    /// Asks for the system prompt to be cached.
    pub fn enable_system_cache(&mut self)
        ensures
            *final(self) == (ApiRequest {
                system_cache_control: Some(CacheControl { control_type: CacheControlType::Ephemeral }),
                ..*old(self)
            }),
    {
        self.system_cache_control = Some(CacheControl::default());
    }

    /// Marks the context item at `index` static and cacheable; an index out of
    /// range changes nothing.
    pub fn mark_context_static(&mut self, index: usize)
        ensures
            *final(self) == (ApiRequest { context: final(self).context, ..*old(self) }),
            final(self).context@.len() == old(self).context@.len(),
            forall|i: int|
                0 <= i < old(self).context@.len() && i != index ==> #[trigger] final(self).context@[i]
                    == old(self).context@[i],
            index < old(self).context@.len() ==> final(self).context@[index as int] == (ContextItem {
                is_static: true,
                cache_control: Some(CacheControl { control_type: CacheControlType::Ephemeral }),
                ..old(self).context@[index as int]
            }),
    {
        if index < self.context.len() {
            let mut items: Vec<ContextItem> = Vec::new();
            std::mem::swap(&mut items, &mut self.context);
            let old_item = items.remove(index);
            let item = ContextItem {
                is_static: true,
                cache_control: Some(CacheControl::default()),
                ..old_item
            };
            items.insert(index, item);
            self.context = items;
        }
    }

    /// Moves the static context items in front of the others, keeping the
    /// order within each group, and puts a single cache breakpoint after the
    /// last static item (when there is one).
    pub fn optimize_for_caching(&mut self)
        ensures
            final(self).context@ == static_items(old(self).context@) + dynamic_items(
                old(self).context@,
            ),
            final(self).system == old(self).system,
            final(self).task == old(self).task,
            static_items(old(self).context@).len() > 0 ==> final(self).cache_breakpoints@ == seq![
                (static_items(old(self).context@).len() - 1) as usize,
            ],
            static_items(old(self).context@).len() == 0 ==> final(self).cache_breakpoints
                == old(self).cache_breakpoints,
    {
        let mut items: Vec<ContextItem> = Vec::new();
        std::mem::swap(&mut items, &mut self.context);
        let ghost orig = items@;
        let mut stat: Vec<ContextItem> = Vec::new();
        let mut dynm: Vec<ContextItem> = Vec::new();
        for item in iter: items
            invariant
                iter.seq() == orig,
                stat@ == static_items(orig.subrange(0, iter.index() as int)),
                dynm@ == dynamic_items(orig.subrange(0, iter.index() as int)),
        {
            let ghost done = orig.subrange(0, iter.index() as int);
            proof {
                assert(orig.subrange(0, iter.index() + 1).drop_last() == done);
                reveal(Seq::filter);
            }
            if item.is_static {
                stat.push(item);
            } else {
                dynm.push(item);
            }
        }
        proof {
            assert(orig.subrange(0, orig.len() as int) == orig);
        }
        let n = stat.len();
        let mut all = stat;
        all.append(&mut dynm);
        self.context = all;
        if n > 0 {
            self.cache_breakpoints = vec![n - 1];
        }
    }
}

} // verus!
