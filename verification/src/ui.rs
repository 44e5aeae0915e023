//! Presentation. Modes talk to a `&dyn Reporter`; changing the look, or going
//! quiet, is changing the implementation. [`Term`] holds the terminal look:
//! colours, and which stream the model's text goes to; writing the lines out is
//! the caller's part.

use vstd::prelude::*;
use crate::text::{push_char, to_chars};

verus! {

broadcast use vstd::string::group_string_axioms;

/// Receives the events of a run. Every method does nothing by default, so an
/// implementation picks what it cares about.
pub trait Reporter {
    /// A fragment of text just streamed from the model.
    fn delta(&self, _text: &str) {
    }

    /// End of a streamed turn (time to break the line).
    fn end_turn(&self) {
    }

    /// Start of a named step (such as an agent's role).
    fn step(&self, _label: &str) {
    }

    /// The model asked for a tool.
    fn tool_call(&self, _name: &str, _args: &str) {
    }

    /// The result handed back for a tool.
    fn tool_result(&self, _output: &str) {
    }

    /// A step finished, after `_elapsed`.
    fn step_done(&self, _label: &str, _elapsed: std::time::Duration) {
    }
}

/// Reports nothing. For programmatic use and tests.
pub struct Quiet;

impl Reporter for Quiet {

}

/// The terminal look: whether to colour, and whether the model's text is
/// chrome (standard error) rather than the answer (standard output).
pub struct Term {
    color: bool,
    deltas_to_stderr: bool,
}

/// Model text on standard output: for `ask`, `chat`, `tools`, `agent`.
/// `color` tells whether standard error is a terminal.
pub fn term(color: bool) -> (t: Term)
    ensures
        t.colored() == color,
        !t.deltas_on_stderr(),
{
    Term { color, deltas_to_stderr: false }
}

/// Model text on standard error: for `crew` and `manager`, which print the
/// final delivery on standard output themselves.
pub fn chrome(color: bool) -> (t: Term)
    ensures
        t.colored() == color,
        t.deltas_on_stderr(),
{
    Term { color, deltas_to_stderr: true }
}

/// How many characters of a tool's output are shown.
pub const PREVIEW: usize = 240;

/// `s` with line breaks turned into spaces.
pub open spec fn one_line(s: Seq<char>) -> Seq<char> {
    Seq::new(s.len(), |i: int| if s[i] == '\n' { ' ' } else { s[i] })
}

/// The shown part of a tool's output: its first 240 characters on one line,
/// with `…` when something was cut.
pub open spec fn preview_text(s: Seq<char>) -> Seq<char> {
    if s.len() > PREVIEW {
        one_line(s.take(PREVIEW as int)) + seq!['…']
    } else {
        one_line(s)
    }
}

/// The shown part of a tool's output.
pub fn preview(s: &str) -> (r: String)
    ensures
        r@ == preview_text(s@),
{
    let v = to_chars(s);
    let n = if v.len() > PREVIEW {
        PREVIEW
    } else {
        v.len()
    };
    let mut r = String::new();
    let mut i: usize = 0;
    while i < n
        invariant
            i <= n <= v@.len(),
            n == if v@.len() > PREVIEW { PREVIEW as int } else { v@.len() as int },
            r@ == one_line(v@.take(i as int)),
        decreases n - i,
    {
        let c = if v[i] == '\n' {
            ' '
        } else {
            v[i]
        };
        push_char(&mut r, c);
        assert(r@ =~= one_line(v@.take(i + 1)));
        i += 1;
    }
    assert(v@.take(n as int) =~= if v@.len() > PREVIEW { v@.take(PREVIEW as int) } else { v@ });
    if v.len() > PREVIEW {
        push_char(&mut r, '…');
    }
    r
}

/// `s` in the colour `code` when colouring, else `s` itself.
pub open spec fn painted(color: bool, code: Seq<char>, s: Seq<char>) -> Seq<char> {
    if color {
        "\x1b["@ + code + "m"@ + s + "\x1b[0m"@
    } else {
        s
    }
}

impl Term {
    /// Whether the output is coloured.
    pub closed spec fn colored(&self) -> bool {
        self.color
    }

    /// Whether the model's text goes to standard error.
    pub closed spec fn deltas_on_stderr(&self) -> bool {
        self.deltas_to_stderr
    }

    /// Whether the model's text goes to standard error.
    pub fn deltas_to_stderr(&self) -> (b: bool)
        ensures
            b == self.deltas_on_stderr(),
    {
        self.deltas_to_stderr
    }

    /// `s` in the colour `code`, when colouring.
    pub fn paint(&self, code: &str, s: &str) -> (r: String)
        ensures
            r@ == painted(self.colored(), code@, s@),
    {
        if self.color {
            let mut r = "\x1b[".to_string();
            r.append(code);
            r.append("m");
            r.append(s);
            r.append("\x1b[0m");
            r
        } else {
            s.to_string()
        }
    }

    /// The line announcing a step.
    pub fn step_line(&self, label: &str) -> (r: String)
        ensures
            r@ == "\n"@ + painted(self.colored(), "1;36"@, "▸ "@ + label@),
    {
        let mut t = "▸ ".to_string();
        t.append(label);
        let mut r = "\n".to_string();
        let p = self.paint("1;36", t.as_str());
        r.append(p.as_str());
        r
    }

    /// The line showing a tool call.
    pub fn tool_call_line(&self, name: &str, args: &str) -> (r: String)
        ensures
            r@ == painted(self.colored(), "2"@, "  ⚙ "@ + name@ + " "@ + args@),
    {
        let mut t = "  ⚙ ".to_string();
        t.append(name);
        t.append(" ");
        t.append(args);
        self.paint("2", t.as_str())
    }

    /// The line showing a tool's result.
    pub fn tool_result_line(&self, output: &str) -> (r: String)
        ensures
            r@ == painted(self.colored(), "2"@, "  ↳ "@ + preview_text(output@)),
    {
        let mut t = "  ↳ ".to_string();
        let p = preview(output);
        t.append(p.as_str());
        self.paint("2", t.as_str())
    }

    /// The line closing a step, given its duration already written in seconds.
    pub fn step_done_line(&self, label: &str, seconds: &str) -> (r: String)
        ensures
            r@ == painted(self.colored(), "2"@, "  ✓ "@ + label@ + " em "@ + seconds@ + "s"@),
    {
        let mut t = "  ✓ ".to_string();
        t.append(label);
        t.append(" em ");
        t.append(seconds);
        t.append("s");
        self.paint("2", t.as_str())
    }
}

} // verus!
