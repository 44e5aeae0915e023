//! Conversation messages in the chat-completions format.
//!
//! `system`, `user` and `assistant` messages carry `content`; an `assistant`
//! message may also ask for tools through `tool_calls`; the answer of a tool is
//! a `tool` message tied to the call's id by `tool_call_id`.

use vstd::prelude::*;

verus! {

broadcast use vstd::string::group_string_axioms;

/// The model used for every request.
pub const DEFAULT_MODEL: &'static str = "deepseek-v4-flash";

/// The system prompt of the plain modes.
pub const DEFAULT_SYSTEM_PROMPT: &'static str = "Você é um assistente prestativo e fala português.";

/// The function part of a tool call: its name and its arguments as JSON text.
pub struct FunctionCall {
    pub name: String,
    /// Arguments as a JSON string, as the API sends them.
    pub arguments: String,
}

/// A request from the model to call a function.
pub struct ToolCall {
    pub id: String,
    /// Always `"function"` in this API.
    pub kind: String,
    pub function: FunctionCall,
}

/// One message of a conversation.
pub struct Message {
    pub role: String,
    pub content: Option<String>,
    pub tool_calls: Option<Vec<ToolCall>>,
    pub tool_call_id: Option<String>,
}

/// The mathematical form of a [`FunctionCall`].
pub struct FunctionCallView {
    pub name: Seq<char>,
    pub arguments: Seq<char>,
}

/// The mathematical form of a [`ToolCall`].
pub struct ToolCallView {
    pub id: Seq<char>,
    pub kind: Seq<char>,
    pub function: FunctionCallView,
}

/// The mathematical form of a [`Message`].
pub struct MessageView {
    pub role: Seq<char>,
    pub content: Option<Seq<char>>,
    pub tool_calls: Option<Seq<ToolCallView>>,
    pub tool_call_id: Option<Seq<char>>,
}

impl View for FunctionCall {
    type V = FunctionCallView;

    open spec fn view(&self) -> FunctionCallView {
        FunctionCallView { name: self.name@, arguments: self.arguments@ }
    }
}

impl View for ToolCall {
    type V = ToolCallView;

    open spec fn view(&self) -> ToolCallView {
        ToolCallView { id: self.id@, kind: self.kind@, function: self.function@ }
    }
}

/// The views of a list of tool calls.
pub open spec fn calls_view(v: Seq<ToolCall>) -> Seq<ToolCallView> {
    v.map_values(|c: ToolCall| c@)
}

/// The view of an optional string.
pub open spec fn opt_str(v: Option<String>) -> Option<Seq<char>> {
    match v {
        Some(s) => Some(s@),
        None => None,
    }
}

impl View for Message {
    type V = MessageView;

    open spec fn view(&self) -> MessageView {
        MessageView {
            role: self.role@,
            content: opt_str(self.content),
            tool_calls: match self.tool_calls {
                Some(v) => Some(calls_view(v@)),
                None => None,
            },
            tool_call_id: opt_str(self.tool_call_id),
        }
    }
}

/// The views of a list of messages.
pub open spec fn messages_view(v: Seq<Message>) -> Seq<MessageView> {
    v.map_values(|m: Message| m@)
}

/// A message of `role` with `content` and nothing else.
pub open spec fn plain(role: Seq<char>, content: Seq<char>) -> MessageView {
    MessageView { role, content: Some(content), tool_calls: None, tool_call_id: None }
}

/// A `tool` message answering the call `id` with `content`.
pub open spec fn tool_reply(id: Seq<char>, content: Seq<char>) -> MessageView {
    MessageView {
        role: "tool"@,
        content: Some(content),
        tool_calls: None,
        tool_call_id: Some(id),
    }
}

/// The text of a message: its content, or nothing.
pub open spec fn text_of(m: MessageView) -> Seq<char> {
    match m.content {
        Some(c) => c,
        None => Seq::empty(),
    }
}

/// The tool calls a message asks for (none when the field is absent).
pub open spec fn requested_calls(m: MessageView) -> Seq<ToolCallView> {
    match m.tool_calls {
        Some(c) => c,
        None => Seq::empty(),
    }
}

fn clone_opt(v: &Option<String>) -> (r: Option<String>)
    ensures
        opt_str(r) == opt_str(*v),
{
    match v {
        Some(s) => Some(s.clone()),
        None => None,
    }
}

impl Clone for FunctionCall {
    fn clone(&self) -> (r: Self)
        ensures
            r@ == self@,
    {
        FunctionCall { name: self.name.clone(), arguments: self.arguments.clone() }
    }
}

impl Clone for ToolCall {
    fn clone(&self) -> (r: Self)
        ensures
            r@ == self@,
    {
        ToolCall { id: self.id.clone(), kind: self.kind.clone(), function: self.function.clone() }
    }
}

/// A copy of a list of tool calls.
pub fn clone_calls(v: &Vec<ToolCall>) -> (r: Vec<ToolCall>)
    ensures
        calls_view(r@) == calls_view(v@),
{
    let mut r: Vec<ToolCall> = Vec::new();
    let mut i: usize = 0;
    while i < v.len()
        invariant
            i <= v@.len(),
            r@.len() == i,
            forall|j: int| 0 <= j < i ==> (#[trigger] r@[j])@ == v@[j]@,
        decreases v.len() - i,
    {
        let c = v[i].clone();
        r.push(c);
        i += 1;
    }
    assert(calls_view(r@) =~= calls_view(v@));
    r
}

impl Default for Message {
    /// A message with an empty role and nothing else.
    fn default() -> (m: Message)
        ensures
            m@ == (MessageView {
                role: Seq::empty(),
                content: None,
                tool_calls: None,
                tool_call_id: None,
            }),
    {
        Message { role: String::new(), content: None, tool_calls: None, tool_call_id: None }
    }
}

/// A copy of a list of messages.
pub fn clone_messages(v: &Vec<Message>) -> (r: Vec<Message>)
    ensures
        messages_view(r@) == messages_view(v@),
{
    let mut r: Vec<Message> = Vec::new();
    let mut i: usize = 0;
    while i < v.len()
        invariant
            i <= v@.len(),
            r@.len() == i,
            forall|j: int| 0 <= j < i ==> (#[trigger] r@[j])@ == v@[j]@,
        decreases v.len() - i,
    {
        let c = v[i].clone();
        r.push(c);
        i += 1;
    }
    assert(messages_view(r@) =~= messages_view(v@));
    r
}

impl Clone for Message {
    fn clone(&self) -> (r: Self)
        ensures
            r@ == self@,
    {
        Message {
            role: self.role.clone(),
            content: clone_opt(&self.content),
            tool_calls: match &self.tool_calls {
                Some(v) => Some(clone_calls(v)),
                None => None,
            },
            tool_call_id: clone_opt(&self.tool_call_id),
        }
    }
}

impl Message {
    /// A `system` message.
    pub fn system(content: &str) -> (m: Message)
        ensures
            m@ == plain("system"@, content@),
    {
        Message {
            role: "system".to_string(),
            content: Some(content.to_string()),
            tool_calls: None,
            tool_call_id: None,
        }
    }

    /// A `user` message.
    pub fn user(content: &str) -> (m: Message)
        ensures
            m@ == plain("user"@, content@),
    {
        Message {
            role: "user".to_string(),
            content: Some(content.to_string()),
            tool_calls: None,
            tool_call_id: None,
        }
    }

    /// An `assistant` message with text only.
    pub fn assistant(content: &str) -> (m: Message)
        ensures
            m@ == plain("assistant"@, content@),
    {
        Message {
            role: "assistant".to_string(),
            content: Some(content.to_string()),
            tool_calls: None,
            tool_call_id: None,
        }
    }

    /// The answer of a tool, tied to the `tool_call_id` that asked for it.
    pub fn tool(tool_call_id: &str, content: &str) -> (m: Message)
        ensures
            m@ == tool_reply(tool_call_id@, content@),
    {
        Message {
            role: "tool".to_string(),
            content: Some(content.to_string()),
            tool_calls: None,
            tool_call_id: Some(tool_call_id.to_string()),
        }
    }

    /// The text of the message (empty when there is no content).
    pub fn text(&self) -> (t: &str)
        ensures
            t@ == text_of(self@),
    {
        match &self.content {
            Some(c) => c.as_str(),
            None => {
                proof {
                    reveal_strlit("");
                }
                ""
            },
        }
    }
}

} // verus!
