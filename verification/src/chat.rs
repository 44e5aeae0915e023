//! A conversation with history.
//!
//! Each exchange appends the user's message and the assistant's reply to the
//! history, and the whole history is sent again on the next exchange. Sending
//! is the caller's part: [`Chat::prepare`] records the user's message and gives
//! what to send, [`Chat::receive`] records the reply that came back.

use vstd::prelude::*;
use crate::message::{DEFAULT_SYSTEM_PROMPT, Message, MessageView, messages_view, plain, text_of};

verus! {

broadcast use vstd::string::group_string_axioms;

/// A conversation: the system prompt followed by the exchanges so far.
pub struct Chat {
    history: Vec<Message>,
}

/// The history after one exchange: the user's message, then the reply.
pub open spec fn after_exchange(
    history: Seq<MessageView>,
    message: Seq<char>,
    reply: MessageView,
) -> Seq<MessageView> {
    history.push(plain("user"@, message)).push(reply)
}

impl Chat {
    /// The messages of the conversation, oldest first.
    pub closed spec fn log(&self) -> Seq<MessageView> {
        messages_view(self.history@)
    }

    /// A conversation with the default system prompt.
    pub fn new() -> (c: Chat)
        ensures
            c.log() == seq![plain("system"@, DEFAULT_SYSTEM_PROMPT@)],
    {
        Self::with_system_prompt(DEFAULT_SYSTEM_PROMPT)
    }

    /// A conversation with the system prompt `prompt`.
    pub fn with_system_prompt(prompt: &str) -> (c: Chat)
        ensures
            c.log() == seq![plain("system"@, prompt@)],
    {
        let mut history: Vec<Message> = Vec::new();
        history.push(Message::system(prompt));
        let c = Chat { history };
        assert(c.log() =~= seq![plain("system"@, prompt@)]);
        c
    }

    /// The messages of the conversation, oldest first.
    pub fn history(&self) -> (h: &[Message])
        ensures
            messages_view(h@) == self.log(),
    {
        self.history.as_slice()
    }

    /// Records the user's `message`; the history is then what to send.
    pub fn prepare(&mut self, message: &str)
        ensures
            final(self).log() == old(self).log().push(plain("user"@, message@)),
    {
        self.history.push(Message::user(message));
        assert(final(self).log() =~= old(self).log().push(plain("user"@, message@)));
    }

    /// Records the assistant's `reply` and gives its text.
    pub fn receive(&mut self, reply: Message) -> (t: String)
        ensures
            final(self).log() == old(self).log().push(reply@),
            t@ == text_of(reply@),
    {
        let t = reply.text().to_string();
        self.history.push(reply);
        assert(final(self).log() =~= old(self).log().push(reply@));
        t
    }
}

impl Default for Chat {
    fn default() -> (c: Chat)
        ensures
            c.log() == seq![plain("system"@, DEFAULT_SYSTEM_PROMPT@)],
    {
        Chat::new()
    }
}

/// An exchange appends exactly the user's message and the reply, keeps every
/// earlier message where it was, and so keeps the system prompt first.
pub proof fn law_exchange_appends(
    history: Seq<MessageView>,
    message: Seq<char>,
    reply: MessageView,
)
    ensures
        after_exchange(history, message, reply).len() == history.len() + 2,
        after_exchange(history, message, reply).subrange(0, history.len() as int) == history,
        after_exchange(history, message, reply)[history.len() as int] == plain("user"@, message),
        after_exchange(history, message, reply)[history.len() + 1int] == reply,
        history.len() > 0 ==> after_exchange(history, message, reply)[0] == history[0],
{
    assert(after_exchange(history, message, reply).subrange(0, history.len() as int) =~= history);
}

} // verus!
