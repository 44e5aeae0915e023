//! Assembling a streamed reply.
//!
//! The API answers in server-sent events: lines `data: {json}`, ended by
//! `data: [DONE]`. Each JSON chunk carries a fragment of text and/or fragments
//! of tool calls addressed by index. A [`StreamAssembler`] takes the raw bytes
//! as they arrive, cuts them into lines, tells which lines carry data, folds the
//! decoded chunks together, and finally gives the assistant message. Receiving
//! the bytes and decoding a chunk's JSON are the caller's part.

use vstd::prelude::*;
use crate::message::{
    FunctionCall, FunctionCallView, Message, MessageView, ToolCall, ToolCallView, opt_str,
};
use crate::text::{
    decode_lossy, utf8_lossy,
    from_chars, has_prefix_at, slice_chars, starts_with, to_chars, trim_end, trim_end_chars,
    chars_eq,
};

verus! {

broadcast use vstd::string::group_string_axioms;

/// Fragments of a tool call's function.
pub struct FunctionDelta {
    pub name: Option<String>,
    pub arguments: Option<String>,
}

/// A fragment of the tool call at position `index`.
pub struct ToolCallDelta {
    pub index: usize,
    pub id: Option<String>,
    pub function: Option<FunctionDelta>,
}

/// What one chunk adds to the reply.
pub struct Delta {
    pub content: Option<String>,
    pub tool_calls: Option<Vec<ToolCallDelta>>,
}

/// One choice of a chunk.
pub struct StreamChoice {
    pub delta: Delta,
}

/// A decoded `data:` payload.
pub struct StreamChunk {
    pub choices: Vec<StreamChoice>,
}

/// A fragment of a tool call, absent parts taken as empty.
pub struct CallDeltaView {
    pub index: int,
    pub id: Seq<char>,
    pub name: Seq<char>,
    pub arguments: Seq<char>,
}

/// An optional fragment, absent taken as empty.
pub open spec fn part(o: Option<String>) -> Seq<char> {
    match o {
        Some(s) => s@,
        None => Seq::empty(),
    }
}

impl View for ToolCallDelta {
    type V = CallDeltaView;

    open spec fn view(&self) -> CallDeltaView {
        CallDeltaView {
            index: self.index as int,
            id: part(self.id),
            name: match self.function {
                Some(f) => part(f.name),
                None => Seq::empty(),
            },
            arguments: match self.function {
                Some(f) => part(f.arguments),
                None => Seq::empty(),
            },
        }
    }
}

/// A tool call as far as it has been assembled.
pub struct CallParts {
    pub id: Seq<char>,
    pub name: Seq<char>,
    pub arguments: Seq<char>,
}

/// A call with nothing assembled yet.
pub open spec fn empty_parts() -> CallParts {
    CallParts { id: Seq::empty(), name: Seq::empty(), arguments: Seq::empty() }
}

/// `calls` extended with empty calls so that position `index` exists.
pub open spec fn grow(calls: Seq<CallParts>, index: int) -> Seq<CallParts> {
    if calls.len() <= index {
        calls + Seq::new((index + 1 - calls.len()) as nat, |_i: int| empty_parts())
    } else {
        calls
    }
}

/// `calls` after the fragment `d`: the call at `d.index` (created if needed)
/// gets the fragment's id, name and arguments appended.
pub open spec fn apply_call_delta(calls: Seq<CallParts>, d: CallDeltaView) -> Seq<CallParts> {
    let g = grow(calls, d.index);
    let s = g[d.index];
    g.update(
        d.index,
        CallParts { id: s.id + d.id, name: s.name + d.name, arguments: s.arguments + d.arguments },
    )
}

/// `calls` after the fragments `ds`, in order.
pub open spec fn apply_call_deltas(calls: Seq<CallParts>, ds: Seq<CallDeltaView>) -> Seq<
    CallParts,
>
    decreases ds.len(),
{
    if ds.len() == 0 {
        calls
    } else {
        apply_call_delta(apply_call_deltas(calls, ds.drop_last()), ds.last())
    }
}

/// The views of a list of call fragments.
pub open spec fn deltas_view(v: Seq<ToolCallDelta>) -> Seq<CallDeltaView> {
    v.map_values(|d: ToolCallDelta| d@)
}

/// The call fragments of a delta.
pub open spec fn delta_calls(d: Delta) -> Seq<CallDeltaView> {
    match d.tool_calls {
        Some(v) => deltas_view(v@),
        None => Seq::empty(),
    }
}

/// The text a delta brings, when it brings any.
pub open spec fn delta_text(d: Delta) -> Option<Seq<char>> {
    match d.content {
        Some(t) => if t@.len() > 0 {
            Some(t@)
        } else {
            None
        },
        None => None,
    }
}

/// A chunk's fragment indexes all leave room for one more call.
pub open spec fn indexes_bounded(chunk: StreamChunk) -> bool {
    chunk.choices@.len() > 0 ==> forall|i: int|
        0 <= i < delta_calls(chunk.choices@[0].delta).len() ==> #[trigger] delta_calls(
            chunk.choices@[0].delta,
        )[i].index < usize::MAX
}

/// The calls kept in the final message: those with a name, in order.
pub open spec fn named_calls(calls: Seq<CallParts>) -> Seq<ToolCallView>
    decreases calls.len(),
{
    if calls.len() == 0 {
        Seq::empty()
    } else {
        let r = named_calls(calls.drop_last());
        let c = calls.last();
        if c.name.len() > 0 {
            r.push(
                ToolCallView {
                    id: c.id,
                    kind: "function"@,
                    function: FunctionCallView { name: c.name, arguments: c.arguments },
                },
            )
        } else {
            r
        }
    }
}

/// The assistant message made of the assembled text and calls: no content when
/// no text came, no `tool_calls` when no named call came.
pub open spec fn assembled(content: Seq<char>, calls: Seq<CallParts>) -> MessageView {
    let named = named_calls(calls);
    MessageView {
        role: "assistant"@,
        content: if content.len() > 0 {
            Some(content)
        } else {
            None
        },
        tool_calls: if named.len() > 0 {
            Some(named)
        } else {
            None
        },
        tool_call_id: None,
    }
}

/// What a line of the stream is.
pub enum SseLine {
    /// `data: [DONE]`: the reply is complete.
    Done,
    /// `data: <payload>`, with the payload.
    Data(String),
    /// Anything else.
    Skip,
}

/// The mathematical form of an [`SseLine`].
pub enum SseLineView {
    Done,
    Data(Seq<char>),
    Skip,
}

impl View for SseLine {
    type V = SseLineView;

    open spec fn view(&self) -> SseLineView {
        match self {
            SseLine::Done => SseLineView::Done,
            SseLine::Data(s) => SseLineView::Data(s@),
            SseLine::Skip => SseLineView::Skip,
        }
    }
}

/// The meaning of a line's text: after trailing whitespace is removed, a line
/// starting with `data: ` carries what follows, and `[DONE]` ends the stream.
pub open spec fn sse_line(text: Seq<char>) -> SseLineView {
    let t = trim_end(text);
    if starts_with(t, "data: "@) {
        let d = t.skip("data: "@.len() as int);
        if d == "[DONE]"@ {
            SseLineView::Done
        } else {
            SseLineView::Data(d)
        }
    } else {
        SseLineView::Skip
    }
}

/// The meaning of a line of the stream (without its `'\n'`).
pub fn classify_line(line: &[u8]) -> (r: SseLine)
    ensures
        r@ == sse_line(utf8_lossy(line@)),
{
    let text = decode_lossy(line);
    let v = to_chars(text.as_str());
    let t = trim_end_chars(v.as_slice());
    let prefix = to_chars("data: ");
    assert(t@.subrange(0, t@.len() as int) =~= t@);
    if has_prefix_at(t.as_slice(), 0, prefix.as_slice()) {
        let n = t.len();
        let d = slice_chars(t.as_slice(), prefix.len(), n);
        assert(d@ =~= t@.skip(prefix@.len() as int));
        let done = to_chars("[DONE]");
        if chars_eq(d.as_slice(), done.as_slice()) {
            SseLine::Done
        } else {
            SseLine::Data(from_chars(d.as_slice()))
        }
    } else {
        SseLine::Skip
    }
}

struct CallBuilder {
    id: String,
    name: String,
    arguments: String,
}

impl View for CallBuilder {
    type V = CallParts;

    closed spec fn view(&self) -> CallParts {
        CallParts { id: self.id@, name: self.name@, arguments: self.arguments@ }
    }
}

/// The views of the calls being assembled.
spec fn builders_view(v: Seq<CallBuilder>) -> Seq<CallParts> {
    v.map_values(|b: CallBuilder| b@)
}

/// A streamed reply being assembled.
pub struct StreamAssembler {
    buf: Vec<u8>,
    content: String,
    calls: Vec<CallBuilder>,
    done: bool,
}

impl StreamAssembler {
    /// Bytes received and not yet cut into a line.
    pub closed spec fn pending(&self) -> Seq<u8> {
        self.buf@
    }

    /// The text assembled so far.
    pub closed spec fn content(&self) -> Seq<char> {
        self.content@
    }

    /// The tool calls assembled so far, by index.
    pub closed spec fn calls(&self) -> Seq<CallParts> {
        builders_view(self.calls@)
    }

    /// Whether the `data: [DONE]` line has been reached.
    pub closed spec fn stopped(&self) -> bool {
        self.done
    }

    /// Nothing received yet.
    pub fn new() -> (r: Self)
        ensures
            r.pending() == Seq::<u8>::empty(),
            r.content() == Seq::<char>::empty(),
            r.calls() == Seq::<CallParts>::empty(),
            !r.stopped(),
    {
        let r = StreamAssembler {
            buf: Vec::new(),
            content: String::new(),
            calls: Vec::new(),
            done: false,
        };
        assert(builders_view(r.calls@) =~= Seq::<CallParts>::empty());
        r
    }

    /// Takes bytes as they arrive.
    pub fn feed(&mut self, chunk: &[u8])
        ensures
            final(self).pending() == old(self).pending() + chunk@,
            final(self).content() == old(self).content(),
            final(self).calls() == old(self).calls(),
            final(self).stopped() == old(self).stopped(),
    {
        let mut i: usize = 0;
        let ghost start = self.buf@;
        while i < chunk.len()
            invariant
                i <= chunk@.len(),
                self.buf@ == start + chunk@.take(i as int),
                self.content == old(self).content,
                self.calls == old(self).calls,
                self.done == old(self).done,
            decreases chunk.len() - i,
        {
            self.buf.push(chunk[i]);
            assert(start + chunk@.take(i + 1) =~= (start + chunk@.take(i as int)).push(
                chunk@[i as int],
            ));
            i += 1;
        }
        assert(chunk@.take(chunk@.len() as int) =~= chunk@);
    }

    /// Cuts the first complete line (without its `'\n'`) off the received bytes.
    pub fn next_line(&mut self) -> (r: Option<Vec<u8>>)
        ensures
            final(self).content() == old(self).content(),
            final(self).calls() == old(self).calls(),
            final(self).stopped() == old(self).stopped(),
            match r {
                Some(line) => {
                    &&& old(self).pending() == line@ + seq![10u8] + final(self).pending()
                    &&& !line@.contains(10u8)
                },
                None => {
                    &&& !old(self).pending().contains(10u8)
                    &&& final(self).pending() == old(self).pending()
                },
            },
    {
        let n = self.buf.len();
        let mut i: usize = 0;
        while i < n
            invariant
                i <= n == self.buf@.len(),
                forall|j: int| 0 <= j < i ==> self.buf@[j] != 10u8,
                self.buf@ == old(self).buf@,
                self.content == old(self).content,
                self.calls == old(self).calls,
                self.done == old(self).done,
            decreases n - i,
        {
            if self.buf[i] == 10u8 {
                let line = slice_bytes(self.buf.as_slice(), 0, i);
                let rest = slice_bytes(self.buf.as_slice(), i + 1, n);
                proof {
                    assert(self.buf@ =~= line@ + seq![10u8] + rest@);
                    assert forall|j: int| 0 <= j < line@.len() implies line@[j] != 10u8 by {}
                }
                self.buf = rest;
                return Some(line);
            }
            i += 1;
        }
        None
    }

    /// What the complete lines received so far mean, in order, without the
    /// lines that carry nothing: the events up to and including the first
    /// `[DONE]`, after which nothing more is given. The incomplete last line is
    /// kept for the next bytes.
    pub fn next_events(&mut self) -> (r: Vec<SseLine>)
        ensures
            final(self).content() == old(self).content(),
            final(self).calls() == old(self).calls(),
            old(self).stopped() ==> {
                &&& r@.len() == 0
                &&& final(self).stopped()
                &&& final(self).pending() == old(self).pending()
            },
            !old(self).stopped() ==> {
                &&& events_view(r@) == events_of(lines_of(old(self).pending()))
                &&& final(self).stopped() == ends_done(events_view(r@))
                &&& !final(self).stopped() ==> final(self).pending() == rest_of(
                    old(self).pending(),
                )
            },
    {
        let mut out: Vec<SseLine> = Vec::new();
        if self.done {
            return out;
        }
        let ghost orig = self.buf@;
        assert(events_view(out@) =~= Seq::<SseLineView>::empty());
        assert(events_view(out@) + events_of(lines_of(orig)) =~= events_of(lines_of(orig)));
        loop
            invariant
                !self.done,
                !old(self).done,
                self.content@ == old(self).content@,
                builders_view(self.calls@) == builders_view(old(self).calls@),
                orig == old(self).buf@,
                events_of(lines_of(orig)) == events_view(out@) + events_of(lines_of(self.buf@)),
                rest_of(orig) == rest_of(self.buf@),
                !ends_done(events_view(out@)),
            decreases self.buf@.len(),
        {
            let ghost before = self.buf@;
            match self.next_line() {
                None => {
                    proof {
                        lemma_find_byte(before, 10u8);
                        if find_byte(before, 10u8) is Some {
                            let k = find_byte(before, 10u8)->0;
                            assert(before.contains(10u8)) by {
                                assert(before[k] == 10u8);
                            }
                        }
                        assert(lines_of(before) == Seq::<Seq<u8>>::empty());
                        assert(events_view(out@) + Seq::<SseLineView>::empty() =~= events_view(
                            out@,
                        ));
                    }
                    return out;
                },
                Some(line) => {
                    proof {
                        lemma_first_line(line@, self.buf@);
                        assert(before == line@ + seq![10u8] + self.buf@);
                    }
                    let ev = classify_line(line.as_slice());
                    let ghost ls = lines_of(before);
                    proof {
                        assert(ls == seq![line@] + lines_of(self.buf@));
                        assert(ls[0] == line@);
                        assert(ls.drop_first() =~= lines_of(self.buf@));
                    }
                    let ghost prev = events_view(out@);
                    match ev {
                        SseLine::Skip => {},
                        SseLine::Done => {
                            out.push(SseLine::Done);
                            self.done = true;
                            proof {
                                assert(events_view(out@) =~= prev.push(SseLineView::Done));
                                assert(events_of(ls) == seq![SseLineView::Done]);
                                assert(prev + seq![SseLineView::Done] =~= prev.push(
                                    SseLineView::Done,
                                ));
                            }
                            return out;
                        },
                        SseLine::Data(d) => {
                            let ghost dv = d@;
                            out.push(SseLine::Data(d));
                            proof {
                                assert(events_view(out@) =~= prev.push(SseLineView::Data(dv)));
                                assert(prev + (seq![SseLineView::Data(dv)] + events_of(
                                    lines_of(self.buf@),
                                )) =~= events_view(out@) + events_of(lines_of(self.buf@)));
                            }
                        },
                    }
                },
            }
        }
    }
}

/// The views of a list of events.
pub open spec fn events_view(v: Seq<SseLine>) -> Seq<SseLineView> {
    v.map_values(|e: SseLine| e@)
}

/// Position of the first `x` in `b`.
pub open spec fn find_byte(b: Seq<u8>, x: u8) -> Option<int>
    decreases b.len(),
{
    if b.len() == 0 {
        None
    } else if b[0] == x {
        Some(0)
    } else {
        crate::text::shift(find_byte(b.drop_first(), x), 1)
    }
}

/// What `find_byte` reports: the first `x`, if there is one.
pub proof fn lemma_find_byte(b: Seq<u8>, x: u8)
    ensures
        match find_byte(b, x) {
            Some(i) => 0 <= i < b.len() && b[i] == x && forall|j: int| 0 <= j < i ==> b[j] != x,
            None => forall|j: int| 0 <= j < b.len() ==> b[j] != x,
        },
    decreases b.len(),
{
    if b.len() > 0 && b[0] != x {
        lemma_find_byte(b.drop_first(), x);
        assert forall|j: int| 1 <= j < b.len() implies b[j] == b.drop_first()[j - 1] by {}
    }
}

/// The first `x` is found where it is.
pub proof fn lemma_find_byte_at(b: Seq<u8>, x: u8, i: int)
    requires
        0 <= i < b.len(),
        b[i] == x,
        forall|j: int| 0 <= j < i ==> b[j] != x,
    ensures
        find_byte(b, x) == Some(i),
    decreases i,
{
    if i > 0 {
        assert forall|j: int| 0 <= j < i - 1 implies b.drop_first()[j] != x by {
            assert(b.drop_first()[j] == b[j + 1]);
        }
        lemma_find_byte_at(b.drop_first(), x, i - 1);
    }
}

/// The complete lines of `b`, each without its `'\n'`, in order.
pub open spec fn lines_of(b: Seq<u8>) -> Seq<Seq<u8>>
    decreases b.len(),
{
    match find_byte(b, 10u8) {
        Some(i) => {
            proof {
                lemma_find_byte(b, 10u8);
            }
            seq![b.take(i)] + lines_of(b.skip(i + 1))
        },
        None => Seq::empty(),
    }
}

/// What follows the last `'\n'` of `b`: an incomplete line.
pub open spec fn rest_of(b: Seq<u8>) -> Seq<u8>
    decreases b.len(),
{
    match find_byte(b, 10u8) {
        Some(i) => {
            proof {
                lemma_find_byte(b, 10u8);
            }
            rest_of(b.skip(i + 1))
        },
        None => b,
    }
}

/// A line without `'\n'` followed by one is the first line.
pub proof fn lemma_first_line(line: Seq<u8>, rest: Seq<u8>)
    requires
        !line.contains(10u8),
    ensures
        lines_of(line + seq![10u8] + rest) == seq![line] + lines_of(rest),
        rest_of(line + seq![10u8] + rest) == rest_of(rest),
{
    let b = line + seq![10u8] + rest;
    assert forall|j: int| 0 <= j < line.len() implies b[j] != 10u8 by {
        assert(b[j] == line[j]);
        if line[j] == 10u8 {
            assert(line.contains(10u8));
        }
    }
    lemma_find_byte_at(b, 10u8, line.len() as int);
    assert(b.take(line.len() as int) =~= line);
    assert(b.skip(line.len() + 1int) =~= rest);
}

/// The event a line gives.
pub open spec fn line_event(line: Seq<u8>) -> SseLineView {
    sse_line(utf8_lossy(line))
}

/// The events of `lines`, in order: lines that carry nothing give none, and
/// the first `[DONE]` is the last event.
pub open spec fn events_of(lines: Seq<Seq<u8>>) -> Seq<SseLineView>
    decreases lines.len(),
{
    if lines.len() == 0 {
        Seq::empty()
    } else {
        match line_event(lines[0]) {
            SseLineView::Skip => events_of(lines.drop_first()),
            SseLineView::Done => seq![SseLineView::Done],
            SseLineView::Data(d) => seq![SseLineView::Data(d)] + events_of(lines.drop_first()),
        }
    }
}

/// Whether events end with `[DONE]`.
pub open spec fn ends_done(e: Seq<SseLineView>) -> bool {
    e.len() > 0 && e.last() is Done
}

fn append_part(s: &mut String, o: &Option<String>)
    ensures
        final(s)@ == old(s)@ + part(*o),
{
    match o {
        Some(x) => s.append(x.as_str()),
        None => {
            assert(old(s)@ + Seq::<char>::empty() =~= old(s)@);
        },
    }
}

fn apply_one(calls: &mut Vec<CallBuilder>, d: &ToolCallDelta)
    requires
        d.index < usize::MAX,
    ensures
        builders_view(final(calls)@) == apply_call_delta(builders_view(old(calls)@), d@),
{
    let idx = d.index;
    let ghost old_len = old(calls)@.len();
    let ghost target: int = if old_len <= idx { idx + 1 } else { old_len as int };
    while calls.len() <= idx
        invariant
            idx < usize::MAX,
            idx == d.index,
            old_len <= calls@.len() <= target,
            target == if old_len <= idx { idx + 1 } else { old_len as int },
            forall|j: int| 0 <= j < old_len ==> (#[trigger] calls@[j])@ == old(calls)@[j]@,
            forall|j: int| old_len <= j < calls@.len() ==> (#[trigger] calls@[j])@ == empty_parts(),
        decreases idx + 1 - calls.len(),
    {
        calls.push(CallBuilder { id: String::new(), name: String::new(), arguments: String::new() });
    }
    let ghost grown = builders_view(calls@);
    assert(grown =~= grow(builders_view(old(calls)@), idx as int));
    let mut b = CallBuilder {
        id: calls[idx].id.clone(),
        name: calls[idx].name.clone(),
        arguments: calls[idx].arguments.clone(),
    };
    append_part(&mut b.id, &d.id);
    match &d.function {
        Some(f) => {
            append_part(&mut b.name, &f.name);
            append_part(&mut b.arguments, &f.arguments);
        },
        None => {
            assert(b.name@ + Seq::<char>::empty() =~= b.name@);
            assert(b.arguments@ + Seq::<char>::empty() =~= b.arguments@);
        },
    }
    calls.set(idx, b);
    assert(builders_view(calls@) =~= apply_call_delta(builders_view(old(calls)@), d@));
}

impl StreamAssembler {
    /// Folds a decoded chunk into the reply. Only the first choice counts: its
    /// text, when not empty, is appended to the reply's text and handed back to
    /// be shown; its call fragments are applied in order.
    pub fn apply_chunk(&mut self, chunk: StreamChunk) -> (r: Option<String>)
        requires
            indexes_bounded(chunk),
        ensures
            final(self).pending() == old(self).pending(),
            final(self).stopped() == old(self).stopped(),
            chunk.choices@.len() == 0 ==> {
                &&& r is None
                &&& final(self).content() == old(self).content()
                &&& final(self).calls() == old(self).calls()
            },
            chunk.choices@.len() > 0 ==> {
                let d = chunk.choices@[0].delta;
                &&& opt_str(r) == delta_text(d)
                &&& final(self).content() == match delta_text(d) {
                    Some(t) => old(self).content() + t,
                    None => old(self).content(),
                }
                &&& final(self).calls() == apply_call_deltas(old(self).calls(), delta_calls(d))
            },
    {
        let ghost c0 = chunk;
        let mut choices = chunk.choices;
        if choices.len() == 0 {
            return None;
        }
        let ghost d0 = choices@[0].delta;
        let choice = choices.swap_remove(0);
        let d = choice.delta;
        let shown = match d.content {
            Some(t) => if !t.as_str().is_empty() {
                self.content.append(t.as_str());
                Some(t)
            } else {
                None
            },
            None => None,
        };
        match d.tool_calls {
            Some(v) => {
                let mut i: usize = 0;
                let ghost start = builders_view(self.calls@);
                let ghost text_now = self.content@;
                assert(deltas_view(v@).take(0) =~= Seq::<CallDeltaView>::empty());
                assert forall|k: int| 0 <= k < deltas_view(v@).len() implies #[trigger] deltas_view(
                    v@,
                )[k].index < usize::MAX by {
                    assert(delta_calls(c0.choices@[0].delta)[k].index < usize::MAX);
                }
                while i < v.len()
                    invariant
                        i <= v@.len(),
                        d0.tool_calls == Some(v),
                        self.buf@ == old(self).buf@,
                        self.done == old(self).done,
                        self.content@ == text_now,
                        forall|k: int|
                            0 <= k < deltas_view(v@).len() ==> #[trigger] deltas_view(v@)[k].index
                                < usize::MAX,
                        builders_view(self.calls@) == apply_call_deltas(
                            start,
                            deltas_view(v@).take(i as int),
                        ),
                    decreases v.len() - i,
                {
                    assert(deltas_view(v@)[i as int].index < usize::MAX);
                    apply_one(&mut self.calls, &v[i]);
                    assert(deltas_view(v@).take(i + 1).drop_last() =~= deltas_view(v@).take(
                        i as int,
                    ));
                    i += 1;
                }
                assert(deltas_view(v@).take(v@.len() as int) =~= deltas_view(v@));
            },
            None => {},
        }
        shown
    }

    /// The assistant message assembled from everything applied so far.
    pub fn finish(self) -> (m: Message)
        ensures
            m@ == assembled(self.content(), self.calls()),
    {
        let mut out: Vec<ToolCall> = Vec::new();
        let mut i: usize = 0;
        let ghost cv = builders_view(self.calls@);
        while i < self.calls.len()
            invariant
                i <= self.calls@.len(),
                cv == builders_view(self.calls@),
                crate::message::calls_view(out@) == named_calls(cv.take(i as int)),
            decreases self.calls.len() - i,
        {
            assert(cv.take(i + 1).drop_last() =~= cv.take(i as int));
            let b = &self.calls[i];
            if !b.name.as_str().is_empty() {
                out.push(
                    ToolCall {
                        id: b.id.clone(),
                        kind: "function".to_string(),
                        function: FunctionCall {
                            name: b.name.clone(),
                            arguments: b.arguments.clone(),
                        },
                    },
                );
                assert(crate::message::calls_view(out@) =~= named_calls(cv.take(i + 1)));
            }
            i += 1;
        }
        assert(cv.take(cv.len() as int) =~= cv);
        let content = if self.content.as_str().is_empty() {
            None
        } else {
            Some(self.content)
        };
        let tool_calls = if out.len() == 0 {
            None
        } else {
            Some(out)
        };
        Message { role: "assistant".to_string(), content, tool_calls, tool_call_id: None }
    }
}

/// The bytes of `v` from `lo` up to `hi`.
fn slice_bytes(v: &[u8], lo: usize, hi: usize) -> (r: Vec<u8>)
    requires
        lo <= hi <= v@.len(),
    ensures
        r@ == v@.subrange(lo as int, hi as int),
{
    let mut r: Vec<u8> = Vec::new();
    let mut i = lo;
    while i < hi
        invariant
            lo <= i <= hi <= v@.len(),
            r@ == v@.subrange(lo as int, i as int),
        decreases hi - i,
    {
        r.push(v[i]);
        assert(v@.subrange(lo as int, i as int).push(v@[i as int]) =~= v@.subrange(
            lo as int,
            i + 1,
        ));
        i += 1;
    }
    r
}


/// The text of an assembled reply is exactly the text assembled, that is the
/// fragments handed back by [`StreamAssembler::apply_chunk`], in order.
pub proof fn law_reply_text_is_shown_text(content: Seq<char>, calls: Seq<CallParts>)
    ensures
        crate::message::text_of(assembled(content, calls)) == content,
{
}

/// Every tool call of an assembled reply is a `function` call with a name, and
/// there are no more of them than calls assembled.
pub proof fn law_reply_calls_are_named(calls: Seq<CallParts>)
    ensures
        named_calls(calls).len() <= calls.len(),
        forall|i: int|
            0 <= i < named_calls(calls).len() ==> (#[trigger] named_calls(calls)[i]).kind
                == "function"@ && named_calls(calls)[i].function.name.len() > 0,
    decreases calls.len(),
{
    if calls.len() > 0 {
        law_reply_calls_are_named(calls.drop_last());
    }
}

/// Fragments of distinct calls do not mix: applying a fragment changes only the
/// call at its index, and keeps every earlier call.
pub proof fn law_fragment_touches_its_call(calls: Seq<CallParts>, d: CallDeltaView, j: int)
    requires
        0 <= d.index,
        0 <= j < calls.len(),
        j != d.index,
    ensures
        apply_call_delta(calls, d)[j] == calls[j],
        apply_call_delta(calls, d).len() == if calls.len() <= d.index {
            d.index + 1
        } else {
            calls.len() as int
        },
{
}


/// Lines of joined bytes: the complete lines of the first part, then those
/// that its incomplete line makes with the second part.
pub proof fn lemma_lines_concat(a: Seq<u8>, b: Seq<u8>)
    ensures
        lines_of(a + b) == lines_of(a) + lines_of(rest_of(a) + b),
        rest_of(a + b) == rest_of(rest_of(a) + b),
    decreases a.len(),
{
    lemma_find_byte(a, 10u8);
    match find_byte(a, 10u8) {
        Some(i) => {
            let ab = a + b;
            assert forall|j: int| 0 <= j < i implies ab[j] != 10u8 by {
                assert(ab[j] == a[j]);
            }
            lemma_find_byte_at(ab, 10u8, i);
            assert(ab.take(i) =~= a.take(i));
            assert(ab.skip(i + 1) =~= a.skip(i + 1) + b);
            lemma_lines_concat(a.skip(i + 1), b);
            assert(lines_of(a + b) =~= lines_of(a) + lines_of(rest_of(a) + b));
        },
        None => {
            assert(lines_of(a) == Seq::<Seq<u8>>::empty());
            assert(rest_of(a) == a);
            assert(lines_of(a + b) =~= lines_of(a) + lines_of(rest_of(a) + b));
        },
    }
}

/// The events of joined lines: those of the first part and, unless it ended
/// with `[DONE]`, those of the second.
pub proof fn lemma_events_concat(x: Seq<Seq<u8>>, y: Seq<Seq<u8>>)
    ensures
        events_of(x + y) == if ends_done(events_of(x)) {
            events_of(x)
        } else {
            events_of(x) + events_of(y)
        },
    decreases x.len(),
{
    if x.len() == 0 {
        assert(x + y =~= y);
        assert(events_of(x) + events_of(y) =~= events_of(y));
    } else {
        assert((x + y)[0] == x[0]);
        assert((x + y).drop_first() =~= x.drop_first() + y);
        lemma_events_concat(x.drop_first(), y);
        match line_event(x[0]) {
            SseLineView::Data(d) => {
                let t = events_of(x.drop_first());
                let head = seq![SseLineView::Data(d)];
                if t.len() > 0 {
                    assert((head + t).last() == t.last());
                }
                assert(head + (t + events_of(y)) =~= (head + t) + events_of(y));
            },
            _ => {},
        }
    }
}

/// What follows the last line break holds no line break.
pub proof fn lemma_rest_has_no_break(b: Seq<u8>)
    ensures
        find_byte(rest_of(b), 10u8) is None,
    decreases b.len(),
{
    lemma_find_byte(b, 10u8);
    match find_byte(b, 10u8) {
        Some(i) => lemma_rest_has_no_break(b.skip(i + 1)),
        None => {},
    }
}

/// The bytes of all chunks, in order.
pub open spec fn joined(chunks: Seq<Seq<u8>>) -> Seq<u8>
    decreases chunks.len(),
{
    if chunks.len() == 0 {
        Seq::empty()
    } else {
        chunks[0] + joined(chunks.drop_first())
    }
}

/// The events a driver gets by feeding the chunks one by one, after pending
/// bytes `pending`, and taking [`StreamAssembler::next_events`] after each,
/// until `[DONE]`.
pub open spec fn events_by_chunks(pending: Seq<u8>, chunks: Seq<Seq<u8>>) -> Seq<SseLineView>
    decreases chunks.len(),
{
    if chunks.len() == 0 {
        Seq::empty()
    } else {
        let q = pending + chunks[0];
        let e = events_of(lines_of(q));
        if ends_done(e) {
            e
        } else {
            e + events_by_chunks(rest_of(q), chunks.drop_first())
        }
    }
}

/// How the bytes of a stream are split into chunks does not matter: the events
/// are those of the whole stream's lines, whatever the boundaries (inside a
/// line or inside a character too).
pub proof fn law_split_does_not_matter(pending: Seq<u8>, chunks: Seq<Seq<u8>>)
    requires
        find_byte(pending, 10u8) is None,
    ensures
        events_by_chunks(pending, chunks) == events_of(lines_of(pending + joined(chunks))),
    decreases chunks.len(),
{
    if chunks.len() == 0 {
        assert(pending + joined(chunks) =~= pending);
        assert(lines_of(pending) == Seq::<Seq<u8>>::empty());
    } else {
        let q = pending + chunks[0];
        let f = joined(chunks.drop_first());
        assert(pending + joined(chunks) =~= q + f);
        lemma_lines_concat(q, f);
        lemma_events_concat(lines_of(q), lines_of(rest_of(q) + f));
        lemma_rest_has_no_break(q);
        law_split_does_not_matter(rest_of(q), chunks.drop_first());
    }
}

/// A line that carries nothing changes nothing, wherever it stands.
pub proof fn law_junk_line_changes_nothing(x: Seq<Seq<u8>>, junk: Seq<u8>, y: Seq<Seq<u8>>)
    requires
        line_event(junk) is Skip,
    ensures
        events_of(x + seq![junk] + y) == events_of(x + y),
{
    let j = seq![junk];
    assert(x + j + y =~= x + (j + y));
    lemma_events_concat(x, j + y);
    lemma_events_concat(x, y);
    assert((j + y)[0] == junk);
    assert((j + y).drop_first() =~= y);
}

/// Nothing after the first `[DONE]` counts.
pub proof fn law_nothing_after_done(x: Seq<Seq<u8>>, done: Seq<u8>, y: Seq<Seq<u8>>)
    requires
        line_event(done) is Done,
        !ends_done(events_of(x)),
    ensures
        events_of(x + seq![done] + y) == events_of(x).push(SseLineView::Done),
{
    let d = seq![done];
    assert(x + d + y =~= x + (d + y));
    lemma_events_concat(x, d + y);
    assert((d + y)[0] == done);
    assert(events_of(x) + seq![SseLineView::Done] =~= events_of(x).push(SseLineView::Done));
}


/// What a `data:` payload contributes: the first choice's delta of a decoded
/// chunk; nothing for a payload that did not decode or a chunk with no choice.
pub open spec fn effect_of(chunk: Option<StreamChunk>) -> Option<Delta> {
    match chunk {
        Some(c) => if c.choices@.len() > 0 {
            Some(c.choices@[0].delta)
        } else {
            None
        },
        None => None,
    }
}

/// Text and calls after one contribution.
pub open spec fn after_delta(content: Seq<char>, calls: Seq<CallParts>, d: Option<Delta>) -> (
    Seq<char>,
    Seq<CallParts>,
) {
    match d {
        None => (content, calls),
        Some(d) => (
            match delta_text(d) {
                Some(t) => content + t,
                None => content,
            },
            apply_call_deltas(calls, delta_calls(d)),
        ),
    }
}

/// Text and calls after the contributions `ds`, in order.
pub open spec fn after_all(content: Seq<char>, calls: Seq<CallParts>, ds: Seq<Option<Delta>>) -> (
    Seq<char>,
    Seq<CallParts>,
)
    decreases ds.len(),
{
    if ds.len() == 0 {
        (content, calls)
    } else {
        let (c, k) = after_all(content, calls, ds.drop_last());
        after_delta(c, k, ds.last())
    }
}

/// The texts shown for the contributions `ds`, in order.
pub open spec fn shown_texts(ds: Seq<Option<Delta>>) -> Seq<Seq<char>>
    decreases ds.len(),
{
    if ds.len() == 0 {
        Seq::empty()
    } else {
        let before = shown_texts(ds.drop_last());
        match ds.last() {
            Some(d) => match delta_text(d) {
                Some(t) => before.push(t),
                None => before,
            },
            None => before,
        }
    }
}

impl StreamAssembler {
    /// Folds the payload of a `data:` line into the reply, given what decoding
    /// it gave (`None` when it was not a chunk); hands back the text to show.
    pub fn apply_decoded(&mut self, chunk: Option<StreamChunk>) -> (r: Option<String>)
        requires
            chunk matches Some(c) ==> indexes_bounded(c),
        ensures
            final(self).pending() == old(self).pending(),
            final(self).stopped() == old(self).stopped(),
            (final(self).content(), final(self).calls()) == after_delta(
                old(self).content(),
                old(self).calls(),
                effect_of(chunk),
            ),
            opt_str(r) == match effect_of(chunk) {
                Some(d) => delta_text(d),
                None => None,
            },
    {
        match chunk {
            Some(c) => self.apply_chunk(c),
            None => None,
        }
    }
}

/// A payload that did not decode, or a chunk with no choice, changes neither
/// the reply nor what is shown, wherever it stands among the others.
pub proof fn law_undecodable_changes_nothing(
    content: Seq<char>,
    calls: Seq<CallParts>,
    x: Seq<Option<Delta>>,
    y: Seq<Option<Delta>>,
)
    ensures
        after_all(content, calls, x + seq![None::<Delta>] + y) == after_all(content, calls, x + y),
        shown_texts(x + seq![None::<Delta>] + y) == shown_texts(x + y),
    decreases y.len(),
{
    let n = seq![None::<Delta>];
    if y.len() == 0 {
        assert(x + n + y =~= x.push(None::<Delta>));
        assert(x + y =~= x);
        assert(x.push(None::<Delta>).drop_last() =~= x);
    } else {
        law_undecodable_changes_nothing(content, calls, x, y.drop_last());
        assert((x + n + y).drop_last() =~= x + n + y.drop_last());
        assert((x + y).drop_last() =~= x + y.drop_last());
        assert((x + n + y).last() == y.last());
        assert((x + y).last() == y.last());
    }
}

/// How many of `calls` have a name.
pub open spec fn named_count(calls: Seq<CallParts>) -> nat
    decreases calls.len(),
{
    if calls.len() == 0 {
        0
    } else {
        named_count(calls.drop_last()) + if calls.last().name.len() > 0 {
            1nat
        } else {
            0nat
        }
    }
}

/// Every call that got a name is kept in the reply, in the order of the
/// indexes, with the id, name and arguments assembled at its own index: the
/// call at index `j` is the reply's call number `named_count(calls.take(j))`,
/// and the reply has as many calls as there are named ones.
pub proof fn law_each_call_keeps_its_parts(content: Seq<char>, calls: Seq<CallParts>, j: int)
    requires
        0 <= j < calls.len(),
        calls[j].name.len() > 0,
    ensures
        named_count(calls.take(j)) < named_count(calls),
        assembled(content, calls).tool_calls == Some(named_calls(calls)),
        named_calls(calls).len() == named_count(calls),
        named_calls(calls)[named_count(calls.take(j)) as int] == (ToolCallView {
            id: calls[j].id,
            kind: "function"@,
            function: FunctionCallView { name: calls[j].name, arguments: calls[j].arguments },
        }),
    decreases calls.len(),
{
    lemma_named_count_is_len(calls);
    let d = calls.drop_last();
    lemma_named_count_is_len(d);
    if j == calls.len() - 1 {
        assert(calls.take(j) =~= d);
    } else {
        assert(d[j] == calls[j]);
        assert(d.take(j) =~= calls.take(j));
        law_each_call_keeps_its_parts(content, d, j);
    }
}

/// A reply carries tool calls exactly when some assembled call got a name.
pub proof fn law_no_named_call_no_tool_calls(content: Seq<char>, calls: Seq<CallParts>)
    ensures
        assembled(content, calls).tool_calls is None <==> forall|j: int|
            0 <= j < calls.len() ==> (#[trigger] calls[j]).name.len() == 0,
{
    lemma_named_count_is_len(calls);
    if exists|j: int| 0 <= j < calls.len() && (#[trigger] calls[j]).name.len() > 0 {
        let j = choose|j: int| 0 <= j < calls.len() && (#[trigger] calls[j]).name.len() > 0;
        law_each_call_keeps_its_parts(content, calls, j);
    } else {
        lemma_no_name_none_kept(calls);
    }
}

proof fn lemma_named_count_is_len(calls: Seq<CallParts>)
    ensures
        named_calls(calls).len() == named_count(calls),
    decreases calls.len(),
{
    if calls.len() > 0 {
        lemma_named_count_is_len(calls.drop_last());
    }
}

proof fn lemma_no_name_none_kept(calls: Seq<CallParts>)
    requires
        forall|j: int| 0 <= j < calls.len() ==> (#[trigger] calls[j]).name.len() == 0,
    ensures
        named_calls(calls).len() == 0,
    decreases calls.len(),
{
    if calls.len() > 0 {
        let d = calls.drop_last();
        assert forall|j: int| 0 <= j < d.len() implies (#[trigger] d[j]).name.len() == 0 by {
            assert(d[j] == calls[j]);
        }
        lemma_no_name_none_kept(d);
    }
}

} // verus!
