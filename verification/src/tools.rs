//! Tools the model may call, and the loop that serves its requests.
//!
//! A [`Registry`] holds the tools of a run. The loop "the model asks for tools,
//! they run, their results go back" is the state machine [`ToolLoop`]: it says
//! what to do next (ask the model, run a tool, stop) and takes what came back.
//! Asking the model and running a handler are the caller's part; a handler is
//! held as an opaque value of type `H`.

use vstd::prelude::*;
use crate::message::{
    Message, MessageView, ToolCall, ToolCallView, calls_view, clone_calls, messages_view,
    requested_calls, text_of, tool_reply,
};
use crate::text::{decimal, str_eq, u64_to_decimal};

verus! {

broadcast use vstd::string::group_string_axioms;

/// `serde_json::Value`, declared so that a tool's JSON Schema and a call's
/// parsed arguments can be carried through; nothing inside a value is read.
#[verifier::external_type_specification]
#[verifier::external_body]
pub struct ExValue(serde_json::Value);

/// What `serde_json::from_str::<Value>` gives for `text`: the value, or `None`
/// when the text is not JSON.
pub uninterp spec fn parsed_json(text: Seq<char>) -> Option<serde_json::Value>;

/// `text` parsed as JSON through serde_json's `from_str::<Value>`, `None` when
/// it does not parse. Stated: the result is `parsed_json` of the text, and the
/// text `{}` parses.
#[verifier::external_body]
fn parse_json(text: &str) -> (v: Option<serde_json::Value>)
    ensures
        v == parsed_json(text@),
        text@ == "{}"@ ==> v is Some,
{
    serde_json::from_str(text).ok()
}

/// The arguments handed to a tool: its call's arguments parsed as JSON, or the
/// empty object `{}` when they do not parse.
pub open spec fn call_arguments(text: Seq<char>) -> serde_json::Value {
    match parsed_json(text) {
        Some(v) => v,
        None => parsed_json("{}"@)->0,
    }
}

/// A tool the model can call: a name, a description, the JSON Schema of its
/// arguments, and its handler.
pub struct Tool<H> {
    pub name: String,
    pub description: String,
    /// JSON Schema of the arguments (the API's `parameters` object).
    pub parameters: serde_json::Value,
    pub run: H,
}

impl<H> Tool<H> {
    /// A tool made of its parts.
    pub fn new(name: &str, description: &str, parameters: serde_json::Value, run: H) -> (t: Tool<H>)
        ensures
            t.name@ == name@,
            t.description@ == description@,
            t.parameters == parameters,
            t.run == run,
    {
        Tool { name: name.to_string(), description: description.to_string(), parameters, run }
    }
}

/// The names of a list of tools.
pub open spec fn tool_names<H>(tools: Seq<Tool<H>>) -> Seq<Seq<char>> {
    tools.map_values(|t: Tool<H>| t.name@)
}

/// Position of the first of `names` equal to `name`.
pub open spec fn first_named(names: Seq<Seq<char>>, name: Seq<char>) -> Option<int>
    decreases names.len(),
{
    if names.len() == 0 {
        None
    } else if names[0] == name {
        Some(0)
    } else {
        match first_named(names.drop_first(), name) {
            Some(i) => Some(i + 1),
            None => None,
        }
    }
}

/// The tools available to a run.
pub struct Registry<H> {
    tools: Vec<Tool<H>>,
}

impl<H> Registry<H> {
    /// The tools, in the order they were registered.
    pub closed spec fn entries(&self) -> Seq<Tool<H>> {
        self.tools@
    }

    /// No tools.
    pub fn new() -> (r: Registry<H>)
        ensures
            r.entries() == Seq::<Tool<H>>::empty(),
    {
        Registry { tools: Vec::new() }
    }

    /// Adds `tool` after the others.
    pub fn register(&mut self, tool: Tool<H>) -> (r: &mut Self)
        ensures
            r.entries() == old(self).entries().push(tool),
            *final(self) == *final(r),
    {
        self.tools.push(tool);
        self
    }

    /// Adds the tools of `other` after these (tools from the user or MCP).
    pub fn extend(&mut self, other: Registry<H>) -> (r: &mut Self)
        ensures
            r.entries() == old(self).entries() + other.entries(),
            *final(self) == *final(r),
    {
        let mut o = other.tools;
        self.tools.append(&mut o);
        self
    }

    /// Whether there is no tool.
    pub fn is_empty(&self) -> (b: bool)
        ensures
            b == (self.entries().len() == 0),
    {
        self.tools.len() == 0
    }

    /// The tools, in order.
    pub fn tools(&self) -> (t: &[Tool<H>])
        ensures
            t@ == self.entries(),
    {
        self.tools.as_slice()
    }

    /// The names of the tools, in order.
    pub fn names(&self) -> (v: Vec<&str>)
        ensures
            v@.map_values(|s: &str| s@) == tool_names(self.entries()),
    {
        let mut v: Vec<&str> = Vec::new();
        let mut i: usize = 0;
        while i < self.tools.len()
            invariant
                i <= self.tools@.len(),
                v@.len() == i,
                forall|j: int| 0 <= j < i ==> (#[trigger] v@[j])@ == self.tools@[j].name@,
            decreases self.tools.len() - i,
        {
            v.push(self.tools[i].name.as_str());
            i += 1;
        }
        assert(v@.map_values(|s: &str| s@) =~= tool_names(self.entries()));
        v
    }

    /// The first tool named `name`.
    pub fn find(&self, name: &str) -> (r: Option<&Tool<H>>)
        ensures
            match first_named(tool_names(self.entries()), name@) {
                Some(i) => r matches Some(t) && *t == self.entries()[i],
                None => r is None,
            },
    {
        let n = self.tools.len();
        let mut i: usize = 0;
        let ghost names = tool_names(self.entries());
        assert(names.subrange(0, n as int) =~= names);
        while i < n
            invariant
                i <= n == self.tools@.len(),
                names == tool_names(self.entries()),
                match first_named(names, name@) {
                    Some(k) => match first_named(names.subrange(i as int, n as int), name@) {
                        Some(m) => k == m + i,
                        None => false,
                    },
                    None => first_named(names.subrange(i as int, n as int), name@) is None,
                },
            decreases n - i,
        {
            assert(names.subrange(i as int, n as int)[0] == self.tools@[i as int].name@);
            if str_eq(self.tools[i].name.as_str(), name) {
                return Some(&self.tools[i]);
            }
            assert(names.subrange(i as int, n as int).drop_first() =~= names.subrange(
                i + 1,
                n as int,
            ));
            i += 1;
        }
        None
    }
}

/// The text a tool returns when its name is not registered.
pub open spec fn unknown_tool_text(name: Seq<char>) -> Seq<char> {
    "ferramenta desconhecida: "@ + name
}

/// The message for a tool name that is not registered.
pub fn unknown_tool(name: &str) -> (r: String)
    ensures
        r@ == unknown_tool_text(name@),
{
    let mut r = "ferramenta desconhecida: ".to_string();
    r.append(name);
    r
}

/// What goes back to the model when a tool fails with `message`.
pub fn tool_error(message: &str) -> (r: String)
    ensures
        r@ == "erro: "@ + message@,
{
    let mut r = "erro: ".to_string();
    r.append(message);
    r
}

/// The error of a run that used up its steps.
pub open spec fn step_limit_text(max_steps: nat) -> Seq<char> {
    "limite de "@ + decimal(max_steps) + " passos atingido sem resposta final"@
}

/// The error of a run that used up its `max_steps` steps.
pub fn step_limit(max_steps: usize) -> (r: String)
    ensures
        r@ == step_limit_text(max_steps as nat),
{
    let mut r = "limite de ".to_string();
    let d = u64_to_decimal(max_steps as u64);
    r.append(d.as_str());
    r.append(" passos atingido sem resposta final");
    r
}


/// What the tool loop asks its driver to do next.
pub enum LoopAction {
    /// Send the messages (and the tools' schema) to the model; hand the reply
    /// to [`ToolLoop::on_reply`].
    AskModel,
    /// Run the tool `call` with the parsed `arguments`; hand its result (or
    /// [`tool_error`] of its failure) to [`ToolLoop::on_tool_result`].
    RunTool { call: ToolCall, arguments: serde_json::Value },
    /// Stop with this error: the steps are used up.
    GiveUp(String),
}

/// What a reply of the model means to the driver.
pub struct ReplyOutcome {
    /// Whether the streamed line should be closed now.
    pub end_turn: bool,
    /// The final answer, when the reply asks for no tool.
    pub answer: Option<String>,
}

/// The tool loop of one run.
pub struct ToolLoop {
    messages: Vec<Message>,
    max_steps: usize,
    steps: usize,
    pending: Vec<ToolCall>,
    next: usize,
    finished: bool,
    start: Ghost<Seq<MessageView>>,
}

/// `a` is a prefix of `b`.
pub open spec fn prefix_of(a: Seq<MessageView>, b: Seq<MessageView>) -> bool {
    a.len() <= b.len() && b.take(a.len() as int) == a
}

/// Appending keeps every prefix.
pub proof fn law_append_keeps_prefix(a: Seq<MessageView>, b: Seq<MessageView>, x: MessageView)
    requires
        prefix_of(a, b),
    ensures
        prefix_of(a, b.push(x)),
{
    assert(b.push(x).take(a.len() as int) =~= b.take(a.len() as int));
}

impl ToolLoop {
    #[verifier::type_invariant]
    spec fn well_formed(&self) -> bool {
        &&& self.steps <= self.max_steps
        &&& self.next <= self.pending@.len()
        &&& prefix_of(self.start@, messages_view(self.messages@))
    }

    /// The conversation the run started from: every state of the run begins
    /// with it, since messages are only ever appended.
    pub closed spec fn initial(&self) -> Seq<MessageView> {
        self.start@
    }

    /// The conversation so far.
    pub closed spec fn log(&self) -> Seq<MessageView> {
        messages_view(self.messages@)
    }

    /// The most replies the model may give.
    pub closed spec fn max_steps(&self) -> nat {
        self.max_steps as nat
    }

    /// Replies received so far.
    pub closed spec fn steps(&self) -> nat {
        self.steps as nat
    }

    /// The tool calls of the last reply.
    pub closed spec fn pending(&self) -> Seq<ToolCallView> {
        calls_view(self.pending@)
    }

    /// How many of the pending calls have been answered.
    pub closed spec fn answered(&self) -> nat {
        self.next as nat
    }

    /// Whether the model has given its final answer.
    pub closed spec fn finished(&self) -> bool {
        self.finished
    }

    /// A run over `messages` that lets the model reply at most `max_steps` times.
    pub fn new(messages: Vec<Message>, max_steps: usize) -> (l: ToolLoop)
        ensures
            l.log() == messages_view(messages@),
            l.max_steps() == max_steps,
            l.steps() == 0,
            l.pending() == Seq::<ToolCallView>::empty(),
            l.answered() == 0,
            !l.finished(),
            l.steps() <= l.max_steps(),
            l.initial() == l.log(),
    {
        let ghost mv = messages_view(messages@);
        assert(mv.take(mv.len() as int) =~= mv);
        let l = ToolLoop {
            messages,
            max_steps,
            steps: 0,
            pending: Vec::new(),
            next: 0,
            finished: false,
            start: Ghost(mv),
        };
        assert(mv.take(mv.len() as int) =~= mv);
        assert(calls_view(l.pending@) =~= Seq::<ToolCallView>::empty());
        l
    }

    /// The conversation so far.
    pub fn messages(&self) -> (m: &[Message])
        ensures
            messages_view(m@) == self.log(),
            prefix_of(self.initial(), messages_view(m@)),
    {
        proof {
            use_type_invariant(self);
        }
        self.messages.as_slice()
    }

    /// The conversation, giving the loop up.
    pub fn into_messages(self) -> (m: Vec<Message>)
        ensures
            messages_view(m@) == self.log(),
            prefix_of(self.initial(), messages_view(m@)),
    {
        proof {
            use_type_invariant(&self);
        }
        self.messages
    }

    /// What to do next: answer the next pending call; when all are answered,
    /// ask the model again if it has replies left; else give up.
    pub fn next_action(&self) -> (a: LoopAction)
        requires
            !self.finished(),
        ensures
            self.answered() < self.pending().len() ==> (a matches LoopAction::RunTool {
                call,
                arguments,
            } && call@ == self.pending()[self.answered() as int] && arguments
                == call_arguments(call@.function.arguments)),
            self.answered() == self.pending().len() && self.steps() < self.max_steps()
                ==> a is AskModel,
            self.answered() == self.pending().len() && self.steps() == self.max_steps()
                ==> (a matches LoopAction::GiveUp(e) && e@ == step_limit_text(self.max_steps())),
    {
        proof {
            use_type_invariant(self);
        }
        if self.next < self.pending.len() {
            let call = self.pending[self.next].clone();
            let arguments = match parse_json(call.function.arguments.as_str()) {
                Some(v) => v,
                None => match parse_json("{}") {
                    Some(empty) => empty,
                    None => vstd::pervasive::unreached(),
                },
            };
            LoopAction::RunTool { call, arguments }
        } else if self.steps < self.max_steps {
            LoopAction::AskModel
        } else {
            LoopAction::GiveUp(step_limit(self.max_steps))
        }
    }

    /// Takes the model's reply (after [`LoopAction::AskModel`]). The reply joins
    /// the conversation. A reply that asks for no tool is the final answer and
    /// closes the line; otherwise its calls become pending, and the line is
    /// closed only when the reply also carried text.
    pub fn on_reply(&mut self, reply: Message) -> (o: ReplyOutcome)
        requires
            !old(self).finished(),
            old(self).answered() == old(self).pending().len(),
            old(self).steps() < old(self).max_steps(),
        ensures
            final(self).log() == old(self).log().push(reply@),
            final(self).steps() == old(self).steps() + 1,
            final(self).max_steps() == old(self).max_steps(),
            final(self).answered() == 0,
            final(self).steps() <= final(self).max_steps(),
            final(self).initial() == old(self).initial(),
            prefix_of(final(self).initial(), final(self).log()),
            requested_calls(reply@).len() == 0 ==> {
                &&& final(self).finished()
                &&& o.end_turn
                &&& o.answer matches Some(t) && t@ == text_of(reply@)
                &&& final(self).pending() == Seq::<ToolCallView>::empty()
            },
            requested_calls(reply@).len() > 0 ==> {
                &&& !final(self).finished()
                &&& o.end_turn == (text_of(reply@).len() > 0)
                &&& o.answer is None
                &&& final(self).pending() == requested_calls(reply@)
            },
    {
        proof {
            use_type_invariant(&*self);
        }
        let text = reply.text().to_string();
        let calls = match &reply.tool_calls {
            Some(c) => clone_calls(c),
            None => Vec::new(),
        };
        let ghost before = self.log();
        let ghost added = reply@;
        let mut msgs = crate::message::clone_messages(&self.messages);
        msgs.push(reply);
        proof {
            assert(messages_view(msgs@) =~= before.push(added));
            law_append_keeps_prefix(self.start@, before, added);
        }
        std::mem::swap(&mut msgs, &mut self.messages);
        assert(self.log() =~= before.push(reply@));
        self.steps = self.steps + 1;
        self.next = 0;
        if calls.len() == 0 {
            self.finished = true;
            self.pending = Vec::new();
            assert(calls_view(self.pending@) =~= Seq::<ToolCallView>::empty());
            ReplyOutcome { end_turn: true, answer: Some(text) }
        } else {
            let end_turn = !text.as_str().is_empty();
            self.pending = calls;
            ReplyOutcome { end_turn, answer: None }
        }
    }

    /// Takes the result of the pending call that [`ToolLoop::next_action`]
    /// named: a `tool` message with the call's id joins the conversation.
    pub fn on_tool_result(&mut self, result: &str)
        requires
            !old(self).finished(),
            old(self).answered() < old(self).pending().len(),
        ensures
            final(self).log() == old(self).log().push(
                tool_reply(old(self).pending()[old(self).answered() as int].id, result@),
            ),
            final(self).answered() == old(self).answered() + 1,
            final(self).pending() == old(self).pending(),
            final(self).steps() == old(self).steps(),
            final(self).max_steps() == old(self).max_steps(),
            !final(self).finished(),
            final(self).answered() <= final(self).pending().len(),
            final(self).initial() == old(self).initial(),
            prefix_of(final(self).initial(), final(self).log()),
    {
        proof {
            use_type_invariant(&*self);
        }
        let n = self.pending.len();
        assert(self.next < n);
        let m = Message::tool(self.pending[self.next].id.as_str(), result);
        let ghost before = self.log();
        let ghost added = m@;
        let mut msgs = crate::message::clone_messages(&self.messages);
        msgs.push(m);
        proof {
            assert(messages_view(msgs@) =~= before.push(added));
            law_append_keeps_prefix(self.start@, before, added);
        }
        std::mem::swap(&mut msgs, &mut self.messages);
        assert(self.log() =~= before.push(m@));
        self.next = self.next + 1;
    }
}


/// A registered tool is found by its name unless an earlier tool has the same
/// name; the search finds the earliest.
pub proof fn law_registered_tool_is_found(names: Seq<Seq<char>>, name: Seq<char>)
    ensures
        first_named(names.push(name), name) is Some,
        first_named(names, name) is Some ==> first_named(names.push(name), name) == first_named(
            names,
            name,
        ),
        first_named(names, name) is None ==> first_named(names.push(name), name) == Some(
            names.len() as int,
        ),
    decreases names.len(),
{
    if names.len() > 0 {
        law_registered_tool_is_found(names.drop_first(), name);
        assert(names.push(name).drop_first() =~= names.drop_first().push(name));
    }
}


/// The tool found is the first with the name asked for: `first_named` gives
/// `i` only when name `i` is it and no earlier name is, and nothing only when
/// no name is it.
pub proof fn law_first_named_is_first_match(names: Seq<Seq<char>>, name: Seq<char>)
    ensures
        match first_named(names, name) {
            Some(i) => 0 <= i < names.len() && names[i] == name && forall|j: int|
                0 <= j < i ==> #[trigger] names[j] != name,
            None => forall|j: int| 0 <= j < names.len() ==> #[trigger] names[j] != name,
        },
    decreases names.len(),
{
    if names.len() > 0 && names[0] != name {
        let t = names.drop_first();
        law_first_named_is_first_match(t, name);
        assert forall|j: int| 1 <= j < names.len() implies #[trigger] names[j] == t[j - 1] by {}
    }
}

} // verus!
