//! Incremental splitting of streamed model output into plain text, thinking
//! blocks (`<think>…</think>`) and tool calls (`<tool_call>…</tool_call>`).
//!
//! The parser decides what is shown and when; rendering and timing are left to
//! the caller, which performs the returned events in order.

use vstd::prelude::*;
use crate::text::{
    chars_of, ends_with, find_from, spec_ends_with, spec_find_from, spec_trim, string_of, trim,
};

verus! {

broadcast use vstd::string::group_string_axioms;

/// Which kind of content the stream is currently inside.
#[derive(Debug, Clone, Copy, PartialEq, Eq, Structural)]
pub enum StreamMode {
    Normal,
    InThinking,
    InToolCall,
}

/// Something the caller should render.
#[derive(Debug, Clone, PartialEq, Eq)]
pub enum StreamEvent {
    /// Plain answer text.
    Text(String),
    /// A thinking block opened.
    ThinkingStarted,
    /// Text inside a thinking block.
    ThinkingText(String),
    /// A thinking block closed; the thinking-step count so far.
    ThinkingEnded(usize),
    /// A complete tool call, trimmed.
    ToolCall(String),
}

/// Mathematical form of an event.
pub enum StreamEventView {
    Text(Seq<char>),
    ThinkingStarted,
    ThinkingText(Seq<char>),
    ThinkingEnded(usize),
    ToolCall(Seq<char>),
}

impl View for StreamEvent {
    type V = StreamEventView;

    open spec fn view(&self) -> StreamEventView {
        match self {
            StreamEvent::Text(s) => StreamEventView::Text(s@),
            StreamEvent::ThinkingStarted => StreamEventView::ThinkingStarted,
            StreamEvent::ThinkingText(s) => StreamEventView::ThinkingText(s@),
            StreamEvent::ThinkingEnded(n) => StreamEventView::ThinkingEnded(*n),
            StreamEvent::ToolCall(s) => StreamEventView::ToolCall(s@),
        }
    }
}

/// The views of a list of events.
pub open spec fn spec_events(v: Seq<StreamEvent>) -> Seq<StreamEventView> {
    v.map_values(|e: StreamEvent| e@)
}

/// Mathematical state of a parser.
pub struct StreamParserView {
    pub mode: StreamMode,
    /// Received text not yet classified.
    pub buffer: Seq<char>,
    pub total_tokens: nat,
    pub think_tokens: nat,
    /// Body of the tool call being received.
    pub tool_buffer: Seq<char>,
    pub tool_calls: Seq<Seq<char>>,
}

/// Whether `b` ends with a non-empty prefix of `tag` of at most `max` characters.
pub open spec fn spec_ends_with_prefix(b: Seq<char>, tag: Seq<char>, max: int) -> bool {
    exists|k: int| 1 <= k <= max && k <= tag.len() && #[trigger] spec_ends_with(b, tag.take(k))
}

/// Outside any block, text that may be the start of `<think>` (up to `<think`) or of
/// `<tool_call>` (up to `<tool_cal`) is held back.
pub open spec fn spec_hold_normal(b: Seq<char>) -> bool {
    spec_ends_with_prefix(b, "<think>"@, 6) || spec_ends_with_prefix(b, "<tool_call>"@, 9)
}

/// Inside a thinking block, text that may be the start of `</think>` is held back.
pub open spec fn spec_hold_thinking(b: Seq<char>) -> bool {
    spec_ends_with_prefix(b, "</think>"@, 7)
}

/// Inside a tool call, text that may be the start of `</tool_call>` is held back.
pub open spec fn spec_hold_tool(b: Seq<char>) -> bool {
    spec_ends_with_prefix(b, "</tool_call>"@, 11)
}

/// Classifies as much of the buffer as can be decided, appending the events to `out`.
pub open spec fn spec_drain(v: StreamParserView, out: Seq<StreamEventView>) -> (StreamParserView, Seq<StreamEventView>)
    decreases v.buffer.len(),
{
    let b = v.buffer;
    match v.mode {
        StreamMode::Normal => {
            match spec_find_from(b, "<think>"@, 0) {
                Some(p) => {
                    let out1 = if p > 0 { out.push(StreamEventView::Text(b.take(p))) } else { out };
                    let rest = b.skip(p + "<think>"@.len());
                    if 0 <= p && rest.len() < b.len() {
                        spec_drain(StreamParserView { mode: StreamMode::InThinking, buffer: rest, ..v },
                            out1.push(StreamEventView::ThinkingStarted))
                    } else {
                        (v, out)
                    }
                },
                None => match spec_find_from(b, "<tool_call>"@, 0) {
                    Some(p) => {
                        let out1 = if p > 0 { out.push(StreamEventView::Text(b.take(p))) } else { out };
                        let rest = b.skip(p + "<tool_call>"@.len());
                        if 0 <= p && rest.len() < b.len() {
                            spec_drain(StreamParserView {
                                mode: StreamMode::InToolCall,
                                buffer: rest,
                                tool_buffer: Seq::empty(),
                                ..v
                            }, out1)
                        } else {
                            (v, out)
                        }
                    },
                    None => if spec_hold_normal(b) || b.len() == 0 {
                        (v, out)
                    } else {
                        (StreamParserView { buffer: Seq::empty(), ..v }, out.push(StreamEventView::Text(b)))
                    },
                },
            }
        },
        StreamMode::InThinking => {
            let t = v.think_tokens + 1;
            match spec_find_from(b, "</think>"@, 0) {
                Some(p) => {
                    let out1 = if p > 0 { out.push(StreamEventView::ThinkingText(b.take(p))) } else { out };
                    let rest = b.skip(p + "</think>"@.len());
                    if 0 <= p && rest.len() < b.len() {
                        spec_drain(StreamParserView {
                            mode: StreamMode::Normal,
                            buffer: rest,
                            think_tokens: t,
                            ..v
                        }, out1.push(StreamEventView::ThinkingEnded(t as usize)))
                    } else {
                        (v, out)
                    }
                },
                None => if spec_hold_thinking(b) || b.len() == 0 {
                    (StreamParserView { think_tokens: t, ..v }, out)
                } else {
                    (StreamParserView { think_tokens: t, buffer: Seq::empty(), ..v },
                        out.push(StreamEventView::ThinkingText(b)))
                },
            }
        },
        StreamMode::InToolCall => {
            match spec_find_from(b, "</tool_call>"@, 0) {
                Some(p) => {
                    let body = v.tool_buffer + b.take(p);
                    let raw = spec_trim(body);
                    let rest = b.skip(p + "</tool_call>"@.len());
                    if 0 <= p && rest.len() < b.len() {
                        spec_drain(StreamParserView {
                            mode: StreamMode::Normal,
                            buffer: rest,
                            tool_buffer: body,
                            tool_calls: v.tool_calls.push(raw),
                            ..v
                        }, out.push(StreamEventView::ToolCall(raw)))
                    } else {
                        (v, out)
                    }
                },
                None => if spec_hold_tool(b) {
                    (v, out)
                } else {
                    (StreamParserView { tool_buffer: v.tool_buffer + b, buffer: Seq::empty(), ..v }, out)
                },
            }
        },
    }
}

/// The state and events after one received chunk of text.
pub open spec fn spec_on_token(v: StreamParserView, text: Seq<char>) -> (StreamParserView, Seq<StreamEventView>) {
    spec_drain(StreamParserView { total_tokens: v.total_tokens + 1, buffer: v.buffer + text, ..v }, Seq::empty())
}

/// The events that flush whatever is left when the stream ends.
pub open spec fn spec_finish(v: StreamParserView) -> (StreamParserView, Seq<StreamEventView>) {
    if v.buffer.len() > 0 {
        match v.mode {
            StreamMode::InThinking => (StreamParserView { buffer: Seq::empty(), ..v },
                seq![StreamEventView::ThinkingText(v.buffer), StreamEventView::ThinkingEnded(v.think_tokens as usize)]),
            StreamMode::InToolCall => {
                let body = v.tool_buffer + v.buffer;
                let raw = spec_trim(body);
                (StreamParserView { buffer: Seq::empty(), tool_buffer: body, tool_calls: v.tool_calls.push(raw), ..v },
                    seq![StreamEventView::ToolCall(raw)])
            },
            StreamMode::Normal => (StreamParserView { buffer: Seq::empty(), ..v }, seq![StreamEventView::Text(v.buffer)]),
        }
    } else if v.mode == StreamMode::InThinking {
        (v, seq![StreamEventView::ThinkingEnded(v.think_tokens as usize)])
    } else {
        (v, Seq::empty())
    }
}

/// Counts gathered over a whole stream.
#[derive(Debug, Clone)]
pub struct StreamTally {
    pub total_tokens: usize,
    pub thinking_tokens: usize,
    pub tool_calls: Vec<String>,
}

/// Splits streamed text into events.
pub struct StreamParser {
    mode: StreamMode,
    buffer: Vec<char>,
    total_tokens: usize,
    think_tokens: usize,
    tool_buffer: Vec<char>,
    tool_calls: Vec<String>,
}

impl View for StreamParser {
    type V = StreamParserView;

    closed spec fn view(&self) -> StreamParserView {
        StreamParserView {
            mode: self.mode,
            buffer: self.buffer@,
            total_tokens: self.total_tokens as nat,
            think_tokens: self.think_tokens as nat,
            tool_buffer: self.tool_buffer@,
            tool_calls: self.tool_calls@.map_values(|s: String| s@),
        }
    }
}

/// Every step of a drain shortens the buffer, so thinking steps grow by at most its length plus one.
proof fn lemma_drain_think_bound(v: StreamParserView, out: Seq<StreamEventView>)
    ensures
        spec_drain(v, out).0.think_tokens <= v.think_tokens + v.buffer.len() + 1,
        spec_drain(v, out).0.total_tokens == v.total_tokens,
    decreases v.buffer.len(),
{
    let b = v.buffer;
    match v.mode {
        StreamMode::Normal => {
            match spec_find_from(b, "<think>"@, 0) {
                Some(p) => {
                    let rest = b.skip(p + "<think>"@.len());
                    if 0 <= p && rest.len() < b.len() {
                        let out1 = if p > 0 { out.push(StreamEventView::Text(b.take(p))) } else { out };
                        lemma_drain_think_bound(StreamParserView { mode: StreamMode::InThinking, buffer: rest, ..v },
                            out1.push(StreamEventView::ThinkingStarted));
                    }
                },
                None => match spec_find_from(b, "<tool_call>"@, 0) {
                    Some(p) => {
                        let rest = b.skip(p + "<tool_call>"@.len());
                        if 0 <= p && rest.len() < b.len() {
                            let out1 = if p > 0 { out.push(StreamEventView::Text(b.take(p))) } else { out };
                            lemma_drain_think_bound(StreamParserView {
                                mode: StreamMode::InToolCall,
                                buffer: rest,
                                tool_buffer: Seq::empty(),
                                ..v
                            }, out1);
                        }
                    },
                    None => {},
                },
            }
        },
        StreamMode::InThinking => {
            let t = v.think_tokens + 1;
            match spec_find_from(b, "</think>"@, 0) {
                Some(p) => {
                    let rest = b.skip(p + "</think>"@.len());
                    if 0 <= p && rest.len() < b.len() {
                        let out1 = if p > 0 { out.push(StreamEventView::ThinkingText(b.take(p))) } else { out };
                        lemma_drain_think_bound(StreamParserView {
                            mode: StreamMode::Normal,
                            buffer: rest,
                            think_tokens: t,
                            ..v
                        }, out1.push(StreamEventView::ThinkingEnded(t as usize)));
                    }
                },
                None => {},
            }
        },
        StreamMode::InToolCall => {
            match spec_find_from(b, "</tool_call>"@, 0) {
                Some(p) => {
                    let body = v.tool_buffer + b.take(p);
                    let raw = spec_trim(body);
                    let rest = b.skip(p + "</tool_call>"@.len());
                    if 0 <= p && rest.len() < b.len() {
                        lemma_drain_think_bound(StreamParserView {
                            mode: StreamMode::Normal,
                            buffer: rest,
                            tool_buffer: body,
                            tool_calls: v.tool_calls.push(raw),
                            ..v
                        }, out.push(StreamEventView::ToolCall(raw)));
                    }
                },
                None => {},
            }
        },
    }
}

/// Whether `b` ends with a non-empty prefix of `tag` of at most `max` characters.
fn ends_with_prefix(b: &[char], tag: &[char], max: usize) -> (r: bool)
    requires
        max < usize::MAX,
    ensures
        r == spec_ends_with_prefix(b@, tag@, max as int),
{
    let mut k: usize = 1;
    while k <= max && k <= tag.len()
        invariant
            1 <= k,
            max < usize::MAX,
            forall|j: int| 1 <= j < k && j <= max && j <= tag@.len() ==> !spec_ends_with(b@, #[trigger] tag@.take(j)),
        decreases max + 1 - k,
    {
        let pre = vstd::slice::slice_subrange(tag, 0, k);
        proof { assert(pre@ =~= tag@.take(k as int)); }
        if ends_with(b, pre) {
            return true;
        }
        k += 1;
    }
    false
}

/// The text of `s[..n]`.
fn prefix_string(s: &[char], n: usize) -> (r: String)
    requires
        n <= s@.len(),
    ensures
        r@ == s@.take(n as int),
{
    let mut r = String::new();
    crate::text::push_range(&mut r, s, 0, n);
    assert(s@.subrange(0, n as int) =~= s@.take(n as int));
    r
}

/// A copy of `s[from..]`.
fn tail(s: &[char], from: usize) -> (r: Vec<char>)
    requires
        from <= s@.len(),
    ensures
        r@ == s@.skip(from as int),
{
    let mut r: Vec<char> = Vec::new();
    let mut i = from;
    while i < s.len()
        invariant
            from <= i <= s@.len(),
            r@ == s@.subrange(from as int, i as int),
        decreases s@.len() - i,
    {
        r.push(s[i]);
        assert(s@.subrange(from as int, i + 1) == s@.subrange(from as int, i as int).push(s@[i as int]));
        i += 1;
    }
    r
}

impl StreamParser {
    /// A parser in normal mode, or already inside a thinking block when `thinking` is set
    /// (the prompt opened one).
    pub fn with_thinking(thinking: bool) -> (r: Self)
        ensures
            r@.mode == (if thinking { StreamMode::InThinking } else { StreamMode::Normal }),
            r@.buffer.len() == 0,
            r@.total_tokens == 0,
            r@.think_tokens == 0,
            r@.tool_buffer.len() == 0,
            r@.tool_calls.len() == 0,
    {
        let r = StreamParser {
            mode: if thinking { StreamMode::InThinking } else { StreamMode::Normal },
            buffer: Vec::new(),
            total_tokens: 0,
            think_tokens: 0,
            tool_buffer: Vec::new(),
            tool_calls: Vec::new(),
        };
        assert(r@.tool_calls =~= Seq::<Seq<char>>::empty());
        r
    }

    /// A parser in normal mode.
    pub fn new() -> (r: Self)
        ensures
            r@.mode == StreamMode::Normal,
            r@.buffer.len() == 0,
            r@.total_tokens == 0,
            r@.think_tokens == 0,
            r@.tool_buffer.len() == 0,
            r@.tool_calls.len() == 0,
    {
        Self::with_thinking(false)
    }

    /// Number of chunks received.
    pub fn total_tokens(&self) -> (r: usize)
        ensures
            r == self@.total_tokens,
    {
        self.total_tokens
    }

    /// Number of processing steps taken inside thinking blocks.
    pub fn think_tokens(&self) -> (r: usize)
        ensures
            r == self@.think_tokens,
    {
        self.think_tokens
    }

    /// The current mode.
    pub fn mode(&self) -> (r: StreamMode)
        ensures
            r == self@.mode,
    {
        self.mode
    }

    fn drain(&mut self, out: &mut Vec<StreamEvent>)
        requires
            old(self)@.think_tokens + old(self)@.buffer.len() + 1 <= usize::MAX,
        ensures
            (final(self)@, spec_events(final(out)@)) == spec_drain(old(self)@, spec_events(old(out)@)),
        decreases old(self)@.buffer.len(),
    {
        let ghost v = self@;
        let ghost o = spec_events(out@);
        proof { reveal_strlit("<think>"); reveal_strlit("<tool_call>"); reveal_strlit("</think>"); reveal_strlit("</tool_call>"); }
        match self.mode {
            StreamMode::Normal => {
                let tag = chars_of("<think>");
                match find_from(self.buffer.as_slice(), tag.as_slice(), 0) {
                    Some(p) => {
                        if p > 0 {
                            out.push(StreamEvent::Text(prefix_string(self.buffer.as_slice(), p)));
                        }
                        assert(spec_find_from(v.buffer, "<think>"@, 0) == Some(p as int));
                        self.buffer = tail(self.buffer.as_slice(), p + 7);
                        self.mode = StreamMode::InThinking;
                        out.push(StreamEvent::ThinkingStarted);
                        assert(spec_events(out@) =~= (if p > 0 { o.push(StreamEventView::Text(v.buffer.take(p as int))) } else { o }).push(StreamEventView::ThinkingStarted));
                        assert(self@ == StreamParserView { mode: StreamMode::InThinking, buffer: v.buffer.skip(p + 7), ..v });

                        self.drain(out);
                    },
                    None => {
                        let tag2 = chars_of("<tool_call>");
                        match find_from(self.buffer.as_slice(), tag2.as_slice(), 0) {
                            Some(p) => {
                                if p > 0 {
                                    out.push(StreamEvent::Text(prefix_string(self.buffer.as_slice(), p)));
                                        }
                                assert(spec_find_from(v.buffer, "<think>"@, 0) is None);
                                assert(spec_find_from(v.buffer, "<tool_call>"@, 0) == Some(p as int));
                                self.buffer = tail(self.buffer.as_slice(), p + 11);
                                self.mode = StreamMode::InToolCall;
                                self.tool_buffer = Vec::new();
                                assert(spec_events(out@) =~= (if p > 0 { o.push(StreamEventView::Text(v.buffer.take(p as int))) } else { o }));
                                assert(self@ == StreamParserView { mode: StreamMode::InToolCall, buffer: v.buffer.skip(p + 11), tool_buffer: Seq::empty(), ..v });

                                self.drain(out);
                            },
                            None => {
                                let hold = ends_with_prefix(self.buffer.as_slice(), tag.as_slice(), 6)
                                    || ends_with_prefix(self.buffer.as_slice(), tag2.as_slice(), 9);
                                assert(hold == spec_hold_normal(v.buffer));
                                assert(spec_find_from(v.buffer, "<think>"@, 0) is None);
                                assert(spec_find_from(v.buffer, "<tool_call>"@, 0) is None);
                                assert(spec_drain(v, o) == (if spec_hold_normal(v.buffer) || v.buffer.len() == 0 { (v, o) } else {
                                    (StreamParserView { buffer: Seq::empty(), ..v }, o.push(StreamEventView::Text(v.buffer))) }));
                                if !hold && self.buffer.len() > 0 {
                                    out.push(StreamEvent::Text(string_of(self.buffer.as_slice())));
                                    self.buffer = Vec::new();
                                    assert(spec_events(out@) =~= o.push(StreamEventView::Text(v.buffer)));
                                    assert(self@ == StreamParserView { buffer: Seq::empty(), ..v });
                                }
                                assert((self@, spec_events(out@)) == spec_drain(v, o));

                            },
                        }
                    },
                }
            },
            StreamMode::InThinking => {
                self.think_tokens = self.think_tokens + 1;
                let tag = chars_of("</think>");
                match find_from(self.buffer.as_slice(), tag.as_slice(), 0) {
                    Some(p) => {
                        if p > 0 {
                            out.push(StreamEvent::ThinkingText(prefix_string(self.buffer.as_slice(), p)));
                        }
                        self.buffer = tail(self.buffer.as_slice(), p + 8);
                        self.mode = StreamMode::Normal;
                        out.push(StreamEvent::ThinkingEnded(self.think_tokens));
                        proof {
                            let t = v.think_tokens + 1;
                            assert(spec_events(out@) =~= (if p > 0 { o.push(StreamEventView::ThinkingText(v.buffer.take(p as int))) } else { o }).push(StreamEventView::ThinkingEnded(t as usize)));
                            assert(self@ == StreamParserView { mode: StreamMode::Normal, buffer: v.buffer.skip(p + 8), think_tokens: t, ..v });
                            assert(spec_drain(v, o) == spec_drain(self@, spec_events(out@)));
                        }
                        self.drain(out);
                        assert((self@, spec_events(out@)) == spec_drain(v, o));
                    },
                    None => {
                        if !ends_with_prefix(self.buffer.as_slice(), tag.as_slice(), 7) && self.buffer.len() > 0 {
                            out.push(StreamEvent::ThinkingText(string_of(self.buffer.as_slice())));
                            self.buffer = Vec::new();
                        }
                        assert((self@, spec_events(out@)) == spec_drain(v, o));
                    },
                }
            },
            StreamMode::InToolCall => {
                let tag = chars_of("</tool_call>");
                match find_from(self.buffer.as_slice(), tag.as_slice(), 0) {
                    Some(p) => {
                        let mut body = self.tool_buffer.clone();
                        let mut i: usize = 0;
                        while i < p
                            invariant
                                i <= p,
                                p <= self.buffer@.len(),
                                body@ == self.tool_buffer@ + self.buffer@.take(i as int),
                            decreases p - i,
                        {
                            body.push(self.buffer[i]);
                            assert(self.buffer@.take(i + 1) == self.buffer@.take(i as int).push(self.buffer@[i as int]));
                            i += 1;
                        }
                        let tr = trim(body.as_slice());
                        out.push(StreamEvent::ToolCall(string_of(tr)));
                        self.tool_calls.push(string_of(tr));
                        self.tool_buffer = body;
                        self.buffer = tail(self.buffer.as_slice(), p + 12);
                        self.mode = StreamMode::Normal;
                        proof {
                            let body_v = v.tool_buffer + v.buffer.take(p as int);
                            assert(spec_events(out@) =~= o.push(StreamEventView::ToolCall(spec_trim(body_v))));
                            assert(self@.tool_calls =~= v.tool_calls.push(spec_trim(body_v)));
                            assert(self@ == StreamParserView { mode: StreamMode::Normal, buffer: v.buffer.skip(p + 12),
                                tool_buffer: body_v, tool_calls: v.tool_calls.push(spec_trim(body_v)), ..v });
                        }
                        self.drain(out);
                    },
                    None => {
                        if !ends_with_prefix(self.buffer.as_slice(), tag.as_slice(), 11) {
                            let mut i: usize = 0;
                            let n = self.buffer.len();
                            while i < n
                                invariant
                                    i <= n,
                                    n == self.buffer@.len(),
                                    self.buffer@ == v.buffer,
                                    self.tool_buffer@ == v.tool_buffer + v.buffer.take(i as int),
                                    self.mode == v.mode,
                                    self.total_tokens == v.total_tokens,
                                    self.think_tokens == v.think_tokens,
                                    self.tool_calls@ == old(self).tool_calls@,
                                decreases n - i,
                            {
                                let c = self.buffer[i];
                                self.tool_buffer.push(c);
                                assert(v.buffer.take(i + 1) == v.buffer.take(i as int).push(c));
                                i += 1;
                            }
                            self.buffer = Vec::new();
                            proof { assert(v.buffer.take(n as int) =~= v.buffer); }
                        }
                        assert((self@, spec_events(out@)) == spec_drain(v, o));
                    },
                }
            },
        }
    }

    /// Receives one chunk of decoded text and returns the events it makes decidable.
    pub fn on_token(&mut self, text: &str) -> (r: Vec<StreamEvent>)
        requires
            old(self)@.total_tokens < usize::MAX,
            old(self)@.think_tokens + old(self)@.buffer.len() + text@.len() + 1 <= usize::MAX,
        ensures
            (final(self)@, spec_events(r@)) == spec_on_token(old(self)@, text@),
    {
        self.total_tokens = self.total_tokens + 1;
        let tc = chars_of(text);
        let mut i: usize = 0;
        let ghost b0 = self.buffer@;
        while i < tc.len()
            invariant
                i <= tc@.len(),
                tc@ == text@,
                self.buffer@ == b0 + tc@.take(i as int),
                self.mode == old(self).mode,
                self.total_tokens == old(self).total_tokens + 1,
                self.think_tokens == old(self).think_tokens,
                self.tool_buffer == old(self).tool_buffer,
                self.tool_calls == old(self).tool_calls,
            decreases tc@.len() - i,
        {
            self.buffer.push(tc[i]);
            assert(tc@.take(i + 1) == tc@.take(i as int).push(tc@[i as int]));
            i += 1;
        }
        proof { assert(tc@.take(tc@.len() as int) =~= tc@); }
        let mut out: Vec<StreamEvent> = Vec::new();
        proof { assert(spec_events(out@) =~= Seq::<StreamEventView>::empty()); }
        self.drain(&mut out);
        out
    }

    /// Flushes what is left at the end of the stream and returns its events with the tally.
    pub fn finish(self) -> (r: (Vec<StreamEvent>, StreamTally))
        ensures
            spec_events(r.0@) == spec_finish(self@).1,
            r.1.total_tokens == self@.total_tokens,
            r.1.thinking_tokens == self@.think_tokens,
            r.1.tool_calls@.map_values(|s: String| s@) == spec_finish(self@).0.tool_calls,
    {
        let mut s = self;
        let mut out: Vec<StreamEvent> = Vec::new();
        if s.buffer.len() > 0 {
            match s.mode {
                StreamMode::InThinking => {
                    out.push(StreamEvent::ThinkingText(string_of(s.buffer.as_slice())));
                    out.push(StreamEvent::ThinkingEnded(s.think_tokens));
                },
                StreamMode::InToolCall => {
                    let mut body = s.tool_buffer.clone();
                    let n = s.buffer.len();
                    for i in 0..n
                        invariant
                            n == s.buffer@.len(),
                            body@ == s.tool_buffer@ + s.buffer@.take(i as int),
                    {
                        body.push(s.buffer[i]);
                        assert(s.buffer@.take(i + 1) == s.buffer@.take(i as int).push(s.buffer@[i as int]));
                    }
                    proof { assert(s.buffer@.take(n as int) =~= s.buffer@); }
                    let tr = trim(body.as_slice());
                    out.push(StreamEvent::ToolCall(string_of(tr)));
                    s.tool_calls.push(string_of(tr));
                },
                StreamMode::Normal => {
                    out.push(StreamEvent::Text(string_of(s.buffer.as_slice())));
                },
            }
        } else if s.mode == StreamMode::InThinking {
            out.push(StreamEvent::ThinkingEnded(s.think_tokens));
        }
        proof {
            assert(spec_events(out@) =~= spec_finish(self@).1);
            assert(s.tool_calls@.map_values(|t: String| t@) =~= spec_finish(self@).0.tool_calls);
        }
        (out, StreamTally { total_tokens: s.total_tokens, thinking_tokens: s.think_tokens, tool_calls: s.tool_calls })
    }
}


proof fn lemma_find_absent(s: Seq<char>, p: Seq<char>, from: int)
    requires
        p.len() > 0,
        forall|i: int| 0 <= i < s.len() ==> s[i] != p[0],
        0 <= from,
    ensures
        spec_find_from(s, p, from) is None,
    decreases s.len() + 1 - from,
{
    if from + p.len() <= s.len() {
        if crate::text::spec_occurs_at(s, p, from) {
            assert(s.subrange(from, from + p.len())[0] == s[from]);
        }
        lemma_find_absent(s, p, from + 1);
    }
}

proof fn lemma_no_tag_prefix(s: Seq<char>, tag: Seq<char>, max: int)
    requires
        tag.len() > 0,
        forall|i: int| 0 <= i < s.len() ==> s[i] != tag[0],
    ensures
        !spec_ends_with_prefix(s, tag, max),
{
    if spec_ends_with_prefix(s, tag, max) {
        let k = choose|k: int| 1 <= k <= max && k <= tag.len() && #[trigger] spec_ends_with(s, tag.take(k));
        assert(s.skip(s.len() - k)[0] == s[s.len() - k]);
        assert(tag.take(k)[0] == tag[0]);
    }
}

/// Text without `<` that arrives outside any block, with nothing pending, is shown at
/// once and in full: only a `<` can start a tag, so nothing is held back.
pub proof fn lemma_plain_text_passes_through(v: StreamParserView, text: Seq<char>)
    requires
        v.mode == StreamMode::Normal,
        v.buffer.len() == 0,
        forall|i: int| 0 <= i < text.len() ==> text[i] != '<',
    ensures
        spec_on_token(v, text).1 == (if text.len() > 0 { seq![StreamEventView::Text(text)] } else { Seq::<StreamEventView>::empty() }),
        spec_on_token(v, text).0.buffer.len() == 0,
        spec_on_token(v, text).0.mode == StreamMode::Normal,
{
    reveal_strlit("<think>");
    reveal_strlit("<tool_call>");
    let b = v.buffer + text;
    assert(b =~= text);
    lemma_find_absent(b, "<think>"@, 0);
    lemma_find_absent(b, "<tool_call>"@, 0);
    lemma_no_tag_prefix(b, "<think>"@, 6);
    lemma_no_tag_prefix(b, "<tool_call>"@, 9);
    if text.len() > 0 {
        assert(Seq::<StreamEventView>::empty().push(StreamEventView::Text(b)) =~= seq![StreamEventView::Text(text)]);
    }
}

} // verus!
