//! Grammar-constrained decoding: token bitmasks, a pushdown JSON recognizer and the
//! `<tool_call>{...}</tool_call>` controller.

use vstd::prelude::*;
use crate::text::{chars_of, spec_is_whitespace, is_whitespace, spec_starts_with, starts_with, string_of, spec_skip_ws, skip_ws, lemma_skip_ws_bounds};

verus! {

broadcast use vstd::string::group_string_axioms;

/// Number of 64-bit words in a token mask (covers token ids below 262,144).
pub const BITMASK_WORDS: usize = 4096;

/// Number of token ids a mask can represent.
pub const MASK_TOKEN_LIMIT: usize = 262144;

/// Bit `b` of `w` is set.
pub open spec fn spec_bit(w: u64, b: u64) -> bool {
    (w >> b) & 1u64 == 1u64
}

proof fn lemma_bit_or(w: u64, b: u64, c: u64)
    requires
        b < 64,
        c < 64,
    ensures
        spec_bit(w | (1u64 << b), c) == (c == b || spec_bit(w, c)),
{
    assert(spec_bit(w | (1u64 << b), c) == (c == b || spec_bit(w, c))) by (bit_vector)
        requires
            b < 64,
            c < 64,
    ;
}

proof fn lemma_bit_clear(w: u64, b: u64, c: u64)
    requires
        b < 64,
        c < 64,
    ensures
        spec_bit(w & !(1u64 << b), c) == (c != b && spec_bit(w, c)),
{
    assert(spec_bit(w & !(1u64 << b), c) == (c != b && spec_bit(w, c))) by (bit_vector)
        requires
            b < 64,
            c < 64,
    ;
}

proof fn lemma_bit_test(w: u64, b: u64)
    requires
        b < 64,
    ensures
        ((w & (1u64 << b)) != 0) == spec_bit(w, b),
{
    assert(((w & (1u64 << b)) != 0) == spec_bit(w, b)) by (bit_vector)
        requires
            b < 64,
    ;
}

proof fn lemma_bit_full_empty(b: u64)
    requires
        b < 64,
    ensures
        spec_bit(u64::MAX, b),
        !spec_bit(0u64, b),
{
    assert(spec_bit(u64::MAX, b)) by (bit_vector)
        requires
            b < 64,
    ;
    assert(!spec_bit(0u64, b)) by (bit_vector)
        requires
            b < 64,
    ;
}

/// Zero-heap bitset of the tokens allowed at the current generation step.
#[derive(Clone, Debug, PartialEq, Eq)]
pub struct TokenBitMask {
    pub words: [u64; BITMASK_WORDS],
}

impl TokenBitMask {
    /// Whether token `t` is allowed by the mask.
    pub open spec fn allows(&self, t: int) -> bool {
        0 <= t < MASK_TOKEN_LIMIT && spec_bit(self.words@[t / 64], (t % 64) as u64)
    }

    /// A mask in which every representable token is allowed.
    pub fn allow_all() -> (r: Self)
        ensures
            forall|t: int| 0 <= t < MASK_TOKEN_LIMIT ==> #[trigger] r.allows(t),
    {
        let r = Self { words: [u64::MAX; BITMASK_WORDS] };
        assert forall|t: int| 0 <= t < MASK_TOKEN_LIMIT implies #[trigger] r.allows(t) by {
            lemma_bit_full_empty((t % 64) as u64);
        }
        r
    }

    /// A mask in which no token is allowed.
    pub fn allow_none() -> (r: Self)
        ensures
            forall|t: int| !#[trigger] r.allows(t),
    {
        let r = Self { words: [0u64; BITMASK_WORDS] };
        assert forall|t: int| !#[trigger] r.allows(t) by {
            if 0 <= t < MASK_TOKEN_LIMIT {
                lemma_bit_full_empty((t % 64) as u64);
            }
        }
        r
    }

    /// Marks `token_id` as allowed (ids at or above the limit are ignored).
    pub fn allow(&mut self, token_id: u32)
        ensures
            forall|t: int| #[trigger] final(self).allows(t) == (old(self).allows(t) || (t
                == token_id && t < MASK_TOKEN_LIMIT)),
    {
        let idx = token_id as usize;
        if idx < BITMASK_WORDS * 64 {
            let wi = idx / 64;
            let b = (idx % 64) as u64;
            let ghost w = self.words@[wi as int];
            self.words[wi] = self.words[wi] | (1u64 << b);
            assert forall|t: int| #[trigger] final(self).allows(t) == (old(self).allows(t) || (t
                == token_id && t < MASK_TOKEN_LIMIT)) by {
                if 0 <= t < MASK_TOKEN_LIMIT {
                    if t / 64 == wi {
                        lemma_bit_or(w, b, (t % 64) as u64);
                    }
                }
            }
        }
    }

    /// Marks `token_id` as disallowed (ids at or above the limit are ignored).
    pub fn disallow(&mut self, token_id: u32)
        ensures
            forall|t: int| #[trigger] final(self).allows(t) == (old(self).allows(t) && t
                != token_id),
    {
        let idx = token_id as usize;
        if idx < BITMASK_WORDS * 64 {
            let wi = idx / 64;
            let b = (idx % 64) as u64;
            let ghost w = self.words@[wi as int];
            self.words[wi] = self.words[wi] & !(1u64 << b);
            assert forall|t: int| #[trigger] final(self).allows(t) == (old(self).allows(t) && t
                != token_id) by {
                if 0 <= t < MASK_TOKEN_LIMIT {
                    if t / 64 == wi {
                        lemma_bit_clear(w, b, (t % 64) as u64);
                    }
                }
            }
        }
    }

    /// Whether `token_id` is allowed (always false at or above the limit).
    pub fn is_allowed(&self, token_id: u32) -> (r: bool)
        ensures
            r == self.allows(token_id as int),
    {
        let idx = token_id as usize;
        if idx < BITMASK_WORDS * 64 {
            let b = (idx % 64) as u64;
            proof {
                lemma_bit_test(self.words@[(idx / 64) as int], b);
            }
            (self.words[idx / 64] & (1u64 << b)) != 0
        } else {
            false
        }
    }

    /// Sets every entry of `logits` whose token the mask forbids to `blocked` (negative
    /// infinity, for float logits); entries at or above the mask's limit are left alone.
    pub fn apply_to_logits<T: Copy>(&self, logits: &mut [T], blocked: T)
        ensures
            final(logits)@.len() == old(logits)@.len(),
            forall|i: int| 0 <= i < old(logits)@.len() ==> #[trigger] final(logits)@[i] == (if i
                < MASK_TOKEN_LIMIT && !self.allows(i) {
                blocked
            } else {
                old(logits)@[i]
            }),
    {
        let n = logits.len();
        let limit = if n < BITMASK_WORDS * 64 {
            n
        } else {
            BITMASK_WORDS * 64
        };
        let mut i: usize = 0;
        while i < limit
            invariant
                i <= limit,
                limit <= n,
                limit <= MASK_TOKEN_LIMIT,
                limit == n || limit == MASK_TOKEN_LIMIT,
                n == old(logits)@.len(),
                logits@.len() == n,
                forall|j: int| 0 <= j < i ==> #[trigger] logits@[j] == (if !self.allows(j) {
                    blocked
                } else {
                    old(logits)@[j]
                }),
                forall|j: int| i <= j < n ==> #[trigger] logits@[j] == old(logits)@[j],
            decreases limit - i,
        {
            if !self.is_allowed(i as u32) {
                logits[i] = blocked;
            }
            i += 1;
        }
    }
}

/// Maximum nesting depth of JSON containers tracked by [`JsonGrammar`].
pub const MAX_JSON_STACK_DEPTH: usize = 32;

/// Kind of an open JSON container.
#[derive(Debug, Clone, Copy, PartialEq, Eq, Structural, Default)]
pub enum JsonScope {
    #[default]
    Object,
    Array,
}

/// Abstract state of the JSON recognizer: the open containers, innermost last, and the
/// expectation flags.
#[verifier::ext_equal]
pub struct JsonState {
    pub stack: Seq<JsonScope>,
    pub in_string: bool,
    pub escape: bool,
    pub expect_key: bool,
    pub expect_colon: bool,
    pub expect_value: bool,
    pub expect_comma_or_close: bool,
    pub started: bool,
    pub completed: bool,
    pub has_error: bool,
}

/// Characters that may begin or continue a number or a `true`/`false`/`null` literal.
pub open spec fn spec_is_literal_char(ch: char) -> bool {
    ('0' <= ch && ch <= '9') || ch == '-' || ch == '+' || ch == '.' || ch == 'e' || ch == 'E'
        || ch == 't' || ch == 'r' || ch == 'u' || ch == 'f' || ch == 'a' || ch == 'l' || ch == 's'
        || ch == 'n'
}

/// The same state over another stack of open containers.
pub open spec fn json_with_stack(g: JsonState, stack: Seq<JsonScope>) -> JsonState {
    JsonState { stack, ..g }
}

/// The state with the error flag raised.
pub open spec fn json_fail(g: JsonState) -> (JsonState, bool) {
    (JsonState { has_error: true, ..g }, false)
}

/// A container was closed: the value it formed is complete, and so is the document when
/// no container is left open.
pub open spec fn json_after_close(g: JsonState, stack: Seq<JsonScope>) -> JsonState {
    JsonState {
        stack,
        expect_comma_or_close: true,
        expect_value: false,
        completed: if stack.len() == 0 && g.started { true } else { g.completed },
        ..g
    }
}

/// One character of input: the next state, and whether the character was accepted.
pub open spec fn json_step(g: JsonState, ch: char) -> (JsonState, bool) {
    if g.escape {
        (JsonState { escape: false, ..g }, true)
    } else if ch == '\\' && g.in_string {
        (JsonState { escape: true, ..g }, true)
    } else if ch == '"' {
        if g.in_string {
            if g.expect_key {
                (JsonState { in_string: false, expect_key: false, expect_colon: true, started: true, ..g }, true)
            } else if g.expect_value {
                (JsonState {
                    in_string: false,
                    expect_value: false,
                    expect_comma_or_close: true,
                    started: true,
                    ..g
                }, true)
            } else {
                json_fail(JsonState { in_string: false, ..g })
            }
        } else if !g.expect_key && !g.expect_value {
            json_fail(JsonState { in_string: true, ..g })
        } else {
            (JsonState { in_string: true, started: true, ..g }, true)
        }
    } else if g.in_string || spec_is_whitespace(ch) {
        (g, true)
    } else if ch == '{' {
        if !g.expect_value || g.stack.len() >= MAX_JSON_STACK_DEPTH {
            json_fail(g)
        } else {
            (JsonState {
                stack: g.stack.push(JsonScope::Object),
                expect_value: false,
                expect_key: true,
                expect_comma_or_close: true,
                started: true,
                ..g
            }, true)
        }
    } else if ch == '}' {
        if g.expect_colon || g.expect_value || g.stack.len() == 0 {
            json_fail(g)
        } else if g.stack.last() != JsonScope::Object {
            json_fail(JsonState { stack: g.stack.drop_last(), ..g })
        } else {
            (json_after_close(
                JsonState { expect_key: false, expect_colon: false, ..g },
                g.stack.drop_last(),
            ), true)
        }
    } else if ch == '[' {
        if !g.expect_value || g.stack.len() >= MAX_JSON_STACK_DEPTH {
            json_fail(g)
        } else {
            (JsonState {
                stack: g.stack.push(JsonScope::Array),
                expect_value: true,
                expect_comma_or_close: true,
                started: true,
                ..g
            }, true)
        }
    } else if ch == ']' {
        if g.expect_colon || (g.expect_value && !g.expect_comma_or_close) || g.stack.len() == 0 {
            json_fail(g)
        } else if g.stack.last() != JsonScope::Array {
            json_fail(JsonState { stack: g.stack.drop_last(), ..g })
        } else {
            (json_after_close(g, g.stack.drop_last()), true)
        }
    } else if ch == ':' {
        if g.expect_colon {
            (JsonState { expect_colon: false, expect_value: true, expect_comma_or_close: false, ..g }, true)
        } else {
            json_fail(g)
        }
    } else if ch == ',' {
        if g.expect_comma_or_close && !g.expect_value && !g.expect_colon {
            if g.stack.len() > 0 && g.stack.last() == JsonScope::Object {
                (JsonState { expect_comma_or_close: false, expect_key: true, expect_value: false, ..g }, true)
            } else {
                (JsonState { expect_comma_or_close: false, expect_value: true, ..g }, true)
            }
        } else {
            json_fail(g)
        }
    } else if spec_is_literal_char(ch) {
        if g.expect_value {
            (JsonState { started: true, expect_value: false, expect_comma_or_close: true, ..g }, true)
        } else if g.expect_comma_or_close {
            (g, true)
        } else {
            json_fail(g)
        }
    } else {
        json_fail(g)
    }
}

/// Runs the recognizer over `s` from the front, stopping at the first rejected character:
/// the state reached and whether every character was accepted.
pub open spec fn json_run(g: JsonState, s: Seq<char>) -> (JsonState, bool)
    decreases s.len(),
{
    if s.len() == 0 {
        (g, true)
    } else {
        let (g1, ok) = json_step(g, s[0]);
        if !ok {
            (g1, false)
        } else {
            json_run(g1, s.drop_first())
        }
    }
}

/// Feeding a chunk: a completed or failed recognizer takes nothing more.
pub open spec fn json_feed(g: JsonState, s: Seq<char>) -> (JsonState, bool) {
    if g.completed || g.has_error {
        (g, false)
    } else {
        json_run(g, s)
    }
}

/// Whether a non-empty chunk would be accepted, without changing the state.
pub open spec fn json_accepts(g: JsonState, s: Seq<char>) -> bool {
    !g.completed && !g.has_error && s.len() > 0 && json_run(g, s).1
}

/// Runs the recognizer over `s` from index `i` until the document completes, a character
/// is rejected or the text ends: the state reached, whether every character taken was
/// accepted, and the index after the last character taken.
pub open spec fn json_run_from(g: JsonState, s: Seq<char>, i: int) -> (JsonState, bool, int)
    decreases s.len() - i,
{
    if i < 0 || i >= s.len() || g.completed {
        (g, true, i)
    } else {
        let (g1, ok) = json_step(g, s[i]);
        if !ok {
            (g1, false, i + 1)
        } else {
            json_run_from(g1, s, i + 1)
        }
    }
}

/// Stack-allocated pushdown recognizer of the structure of a JSON document.
#[derive(Debug, Clone, Copy)]
pub struct JsonGrammar {
    pub scope_stack: [JsonScope; MAX_JSON_STACK_DEPTH],
    pub stack_depth: usize,
    pub in_string: bool,
    pub escape: bool,
    pub expect_key: bool,
    pub expect_colon: bool,
    pub expect_value: bool,
    pub expect_comma_or_close: bool,
    pub started: bool,
    pub completed: bool,
    pub has_error: bool,
}

impl View for JsonGrammar {
    type V = JsonState;

    open spec fn view(&self) -> JsonState {
        JsonState {
            stack: self.scope_stack@.take(self.stack_depth as int),
            in_string: self.in_string,
            escape: self.escape,
            expect_key: self.expect_key,
            expect_colon: self.expect_colon,
            expect_value: self.expect_value,
            expect_comma_or_close: self.expect_comma_or_close,
            started: self.started,
            completed: self.completed,
            has_error: self.has_error,
        }
    }
}

/// The state of a fresh recognizer: expecting a value, nothing open.
pub open spec fn json_initial() -> JsonState {
    JsonState {
        stack: Seq::empty(),
        in_string: false,
        escape: false,
        expect_key: false,
        expect_colon: false,
        expect_value: true,
        expect_comma_or_close: false,
        started: false,
        completed: false,
        has_error: false,
    }
}

impl JsonGrammar {
    /// The depth counter stays within the fixed stack.
    pub open spec fn wf(&self) -> bool {
        self.stack_depth <= MAX_JSON_STACK_DEPTH
    }

    /// A fresh recognizer.
    pub fn new() -> (r: Self)
        ensures
            r.wf(),
            r@ == json_initial(),
    {
        let r = Self {
            scope_stack: [JsonScope::Object; MAX_JSON_STACK_DEPTH],
            stack_depth: 0,
            in_string: false,
            escape: false,
            expect_key: false,
            expect_colon: false,
            expect_value: true,
            expect_comma_or_close: false,
            started: false,
            completed: false,
            has_error: false,
        };
        assert(r@.stack =~= Seq::<JsonScope>::empty());
        r
    }

    fn push_scope(&mut self, scope: JsonScope) -> (ok: bool)
        requires
            old(self).wf(),
        ensures
            final(self).wf(),
            ok == (old(self).stack_depth < MAX_JSON_STACK_DEPTH),
            final(self)@ == (if ok { json_with_stack(old(self)@, old(self)@.stack.push(scope)) } else { old(self)@ }),
    {
        if self.stack_depth < MAX_JSON_STACK_DEPTH {
            let ghost before = self@;
            self.scope_stack[self.stack_depth] = scope;
            self.stack_depth = self.stack_depth + 1;
            assert(self@.stack =~= before.stack.push(scope));
            true
        } else {
            false
        }
    }

    fn pop_scope(&mut self) -> (r: Option<JsonScope>)
        requires
            old(self).wf(),
        ensures
            final(self).wf(),
            old(self)@.stack.len() == 0 ==> r is None && final(self)@ == old(self)@,
            old(self)@.stack.len() > 0 ==> r == Some(old(self)@.stack.last())
                && final(self)@ == json_with_stack(old(self)@, old(self)@.stack.drop_last()),
    {
        if self.stack_depth > 0 {
            let ghost before = self@;
            self.stack_depth = self.stack_depth - 1;
            assert(self@.stack =~= before.stack.drop_last());
            Some(self.scope_stack[self.stack_depth])
        } else {
            None
        }
    }

    fn last_scope(&self) -> (r: Option<JsonScope>)
        requires
            self.wf(),
        ensures
            r == (if self@.stack.len() > 0 { Some(self@.stack.last()) } else { None }),
    {
        if self.stack_depth > 0 {
            Some(self.scope_stack[self.stack_depth - 1])
        } else {
            None
        }
    }

    fn fail(&mut self) -> (ok: bool)
        requires
            old(self).wf(),
        ensures
            final(self).wf(),
            (final(self)@, ok) == json_fail(old(self)@),
    {
        self.has_error = true;
        false
    }

    /// Consumes one character; false (with the error flag raised) when it is rejected.
    #[verifier::rlimit(50)]
    #[verifier::spinoff_prover]
    fn step(&mut self, ch: char) -> (ok: bool)
        requires
            old(self).wf(),
        ensures
            final(self).wf(),
            final(self)@ == json_step(old(self)@, ch).0,
            ok == json_step(old(self)@, ch).1,
    {
        if self.escape {
            self.escape = false;
            return true;
        }
        if ch == '\\' && self.in_string {
            self.escape = true;
            return true;
        }
        if ch == '"' {
            self.in_string = !self.in_string;
            if !self.in_string {
                if self.expect_key {
                    self.expect_key = false;
                    self.expect_colon = true;
                } else if self.expect_value {
                    self.expect_value = false;
                    self.expect_comma_or_close = true;
                } else {
                    return self.fail();
                }
            } else {
                if !self.expect_key && !self.expect_value {
                    return self.fail();
                }
            }
            self.started = true;
            return true;
        }
        if self.in_string || is_whitespace(ch) {
            return true;
        }
        if ch == '{' {
            if !self.expect_value || !self.push_scope(JsonScope::Object) {
                return self.fail();
            }
            self.expect_value = false;
            self.expect_key = true;
            self.expect_comma_or_close = true;
            self.started = true;
            true
        } else if ch == '}' {
            if self.expect_colon || self.expect_value {
                return self.fail();
            }
            match self.pop_scope() {
                Some(JsonScope::Object) => {
                    self.expect_comma_or_close = true;
                    self.expect_key = false;
                    self.expect_colon = false;
                    self.expect_value = false;
                    if self.stack_depth == 0 && self.started {
                        self.completed = true;
                    }
                    true
                },
                _ => self.fail(),
            }
        } else if ch == '[' {
            if !self.expect_value || !self.push_scope(JsonScope::Array) {
                return self.fail();
            }
            self.expect_value = true;
            self.expect_comma_or_close = true;
            self.started = true;
            true
        } else if ch == ']' {
            if self.expect_colon || (self.expect_value && !self.expect_comma_or_close) {
                return self.fail();
            }
            match self.pop_scope() {
                Some(JsonScope::Array) => {
                    self.expect_comma_or_close = true;
                    self.expect_value = false;
                    if self.stack_depth == 0 && self.started {
                        self.completed = true;
                    }
                    true
                },
                _ => self.fail(),
            }
        } else if ch == ':' {
            if self.expect_colon {
                self.expect_colon = false;
                self.expect_value = true;
                self.expect_comma_or_close = false;
                true
            } else {
                self.fail()
            }
        } else if ch == ',' {
            if self.expect_comma_or_close && !self.expect_value && !self.expect_colon {
                self.expect_comma_or_close = false;
                match self.last_scope() {
                    Some(JsonScope::Object) => {
                        self.expect_key = true;
                        self.expect_value = false;
                    },
                    _ => {
                        self.expect_value = true;
                    },
                }
                true
            } else {
                self.fail()
            }
        } else if ('0' <= ch && ch <= '9') || ch == '-' || ch == '+' || ch == '.' || ch == 'e'
            || ch == 'E' || ch == 't' || ch == 'r' || ch == 'u' || ch == 'f' || ch == 'a' || ch
            == 'l' || ch == 's' || ch == 'n' {
            if self.expect_value {
                self.started = true;
                self.expect_value = false;
                self.expect_comma_or_close = true;
                true
            } else if self.expect_comma_or_close {
                true
            } else {
                self.fail()
            }
        } else {
            self.fail()
        }
    }

    /// Advances over a decoded chunk; false on the first syntax error (the characters before
    /// it stay consumed), or when the recognizer had already completed or failed.
    pub fn feed(&mut self, chunk: &str) -> (ok: bool)
        requires
            old(self).wf(),
        ensures
            final(self).wf(),
            final(self)@ == json_feed(old(self)@, chunk@).0,
            ok == json_feed(old(self)@, chunk@).1,
    {
        if self.completed || self.has_error {
            return false;
        }
        let ghost g0 = self@;
        assert(chunk@.skip(0) =~= chunk@);
        for ch in it: chunk.chars()
            invariant
                self.wf(),
                it.seq() == chunk@,
                !g0.completed && !g0.has_error,
                g0 == old(self)@,
                json_run(g0, chunk@) == json_run(self@, chunk@.skip(it.index() as int)),
        {
            let ghost k = it.index() as int;
            let ghost cur = self@;
            proof {
                assert(chunk@.skip(k)[0] == ch);
                assert(chunk@.skip(k).drop_first() =~= chunk@.skip(k + 1));
            }
            let ok = self.step(ch);
            proof {
                assert(json_run(cur, chunk@.skip(k)) == (if !ok { (self@, false) } else { json_run(
                    self@,
                    chunk@.skip(k + 1),
                ) }));
            }
            if !ok {
                return false;
            }
        }
        proof {
            assert(chunk@.skip(chunk@.len() as int) =~= Seq::<char>::empty());
        }
        true
    }

    /// Feeds `s` from index `i0` until the document completes, a character is rejected or
    /// the text ends (see [`json_run_from`]): whether every character taken was accepted,
    /// and the index after the last one taken.
    fn run_from(&mut self, s: &[char], i0: usize) -> (r: (bool, usize))
        requires
            old(self).wf(),
            i0 <= s@.len(),
        ensures
            final(self).wf(),
            (final(self)@, r.0, r.1 as int) == json_run_from(old(self)@, s@, i0 as int),
            i0 <= r.1 <= s@.len(),
    {
        let ghost g0 = self@;
        let mut i = i0;
        while i < s.len() && !self.completed
            invariant
                self.wf(),
                i0 <= i <= s@.len(),
                g0 == old(self)@,
                json_run_from(g0, s@, i0 as int) == json_run_from(self@, s@, i as int),
            decreases s@.len() - i,
        {
            let ghost cur = self@;
            let ok = self.step(s[i]);
            proof {
                assert(json_run_from(cur, s@, i as int) == (if !ok { (self@, false, i + 1) } else {
                    json_run_from(self@, s@, i + 1)
                }));
            }
            i += 1;
            if !ok {
                return (false, i);
            }
        }
        (true, i)
    }

    /// Whether a non-empty chunk would be accepted from the current state; the state
    /// itself is left as it is.
    pub fn can_accept(&self, chunk: &str) -> (r: bool)
        requires
            self.wf(),
        ensures
            r == json_accepts(self@, chunk@),
    {
        if self.completed || self.has_error || chunk.is_empty() {
            return false;
        }
        let mut sim = *self;
        sim.feed(chunk)
    }

    /// The mask of the vocabulary entries (indexed by token id) that can be accepted next;
    /// empty entries are never allowed.
    pub fn compute_mask(&self, vocab: &[String]) -> (mask: TokenBitMask)
        requires
            self.wf(),
            vocab@.len() <= u32::MAX + 1,
        ensures
            forall|t: int| #[trigger] mask.allows(t) == (0 <= t < vocab@.len() && t < MASK_TOKEN_LIMIT
                && json_accepts(self@, vocab@[t]@)),
    {
        let mut mask = TokenBitMask::allow_none();
        let n = vocab.len();
        for i in 0..n
            invariant
                n == vocab@.len(),
                n <= u32::MAX + 1,
                self.wf(),
                forall|t: int| #[trigger] mask.allows(t) == (0 <= t < i && t < MASK_TOKEN_LIMIT
                    && json_accepts(self@, vocab@[t]@)),
        {
            let token = &vocab[i];
            let text = token.as_str();
            if !text.is_empty() && self.can_accept(text) {
                mask.allow(i as u32);
            }
        }
        mask
    }
}

impl Default for JsonGrammar {
    fn default() -> (r: Self)
        ensures
            r.wf(),
            r@ == json_initial(),
    {
        Self::new()
    }
}

impl Default for TokenBitMask {
    fn default() -> (r: Self)
        ensures
            forall|t: int| 0 <= t < MASK_TOKEN_LIMIT ==> #[trigger] r.allows(t),
    {
        Self::allow_all()
    }
}

/// Whether a chunk may continue a literal target whose unmatched rest is `needed`: either
/// the chunk is a prefix of it, or it begins with all of it.
pub open spec fn spec_meets_target(needed: Seq<char>, chunk: Seq<char>) -> bool {
    spec_starts_with(needed, chunk) || spec_starts_with(chunk, needed)
}

/// Feeding text once the payload is complete: matched against the unmatched rest of the
/// suffix. The result is (prefix position, payload state, suffix position, completed,
/// accepted).
pub open spec fn tool_feed_suffix(
    ppos: int,
    json: JsonState,
    suffix: Seq<char>,
    spos: int,
    done: bool,
    rest: Seq<char>,
) -> (int, JsonState, int, bool, bool) {
    let needed = suffix.skip(spos);
    if spec_starts_with(needed, rest) {
        (ppos, json, spos + rest.len(), done || spos + rest.len() >= suffix.len(), true)
    } else if spec_starts_with(rest, needed) {
        (ppos, json, suffix.len() as int, true, true)
    } else {
        (ppos, json, spos, done, false)
    }
}

/// Feeding the part of a chunk that follows the prefix: into the JSON payload while it is
/// open; once the payload's object closes, white space is skipped and the text after it
/// is matched against the suffix. The result is (prefix position, payload state, suffix
/// position, completed, accepted).
pub open spec fn tool_feed_rest(
    ppos: int,
    json: JsonState,
    suffix: Seq<char>,
    spos: int,
    done: bool,
    rest: Seq<char>,
) -> (int, JsonState, int, bool, bool) {
    if !json.completed && rest.len() > 0 {
        if json.has_error {
            (ppos, json, spos, done, false)
        } else {
            let r = json_run_from(json, rest, 0);
            if !r.1 {
                (ppos, r.0, spos, done, false)
            } else {
                let k = spec_skip_ws(rest, r.2, rest.len() as int);
                if k >= rest.len() {
                    (ppos, r.0, spos, done, true)
                } else {
                    tool_feed_suffix(ppos, r.0, suffix, spos, done, rest.skip(k))
                }
            }
        }
    } else if json.completed && rest.len() > 0 {
        tool_feed_suffix(ppos, json, suffix, spos, done, rest)
    } else {
        (ppos, json, spos, done, true)
    }
}

/// Feeding a whole chunk to the tool-call controller (positions count characters).
pub open spec fn tool_feed(
    prefix: Seq<char>,
    ppos: int,
    json: JsonState,
    suffix: Seq<char>,
    spos: int,
    done: bool,
    chunk: Seq<char>,
) -> (int, JsonState, int, bool, bool) {
    if done {
        (ppos, json, spos, done, false)
    } else if ppos < prefix.len() {
        let needed = prefix.skip(ppos);
        if spec_starts_with(needed, chunk) {
            (ppos + chunk.len(), json, spos, done, true)
        } else if spec_starts_with(chunk, needed) {
            tool_feed_rest(prefix.len() as int, json, suffix, spos, done, chunk.skip(needed.len() as int))
        } else {
            (ppos, json, spos, done, false)
        }
    } else {
        tool_feed_rest(ppos, json, suffix, spos, done, chunk)
    }
}

/// Controller for the `<tool_call>{...}</tool_call>` format: a literal prefix, a JSON
/// payload, a literal suffix. Positions into the targets count characters (the default
/// targets are ASCII, so they are byte positions too).
#[derive(Debug, Clone)]
pub struct ToolCallGrammar {
    pub prefix_target: String,
    pub prefix_pos: usize,
    pub json: JsonGrammar,
    pub suffix_target: String,
    pub suffix_pos: usize,
    pub completed: bool,
}

impl ToolCallGrammar {
    /// The payload recognizer is sound and the suffix position lies within the suffix.
    pub open spec fn wf(&self) -> bool {
        self.json.wf() && self.suffix_pos <= self.suffix_target@.len()
    }

    /// The effect of feeding `chunk`, as computed by [`tool_feed`].
    pub open spec fn fed(&self, chunk: Seq<char>) -> (int, JsonState, int, bool, bool) {
        tool_feed(
            self.prefix_target@,
            self.prefix_pos as int,
            self.json@,
            self.suffix_target@,
            self.suffix_pos as int,
            self.completed,
            chunk,
        )
    }

    /// Whether a non-empty chunk can come next, phase by phase.
    pub open spec fn accepts(&self, chunk: Seq<char>) -> bool {
        if self.completed || chunk.len() == 0 {
            false
        } else if self.prefix_pos < self.prefix_target@.len() {
            spec_meets_target(self.prefix_target@.skip(self.prefix_pos as int), chunk)
        } else if !self.json.completed {
            tool_feed_rest(
                self.prefix_pos as int,
                self.json@,
                self.suffix_target@,
                self.suffix_pos as int,
                self.completed,
                chunk,
            ).4
        } else if self.suffix_pos < self.suffix_target@.len() {
            spec_meets_target(self.suffix_target@.skip(self.suffix_pos as int), chunk)
        } else {
            false
        }
    }

    /// A controller waiting for `<tool_call>`.
    pub fn new() -> (r: Self)
        ensures
            r.wf(),
            r.prefix_target@ == "<tool_call>"@,
            r.prefix_pos == 0,
            r.json@ == json_initial(),
            r.suffix_target@ == "</tool_call>"@,
            r.suffix_pos == 0,
            !r.completed,
    {
        Self {
            prefix_target: "<tool_call>".to_owned(),
            prefix_pos: 0,
            json: JsonGrammar::new(),
            suffix_target: "</tool_call>".to_owned(),
            suffix_pos: 0,
            completed: false,
        }
    }

    /// Whether a chunk can come next (see [`ToolCallGrammar::accepts`]).
    pub fn can_accept(&self, chunk: &str) -> (r: bool)
        requires
            self.wf(),
        ensures
            r == self.accepts(chunk@),
    {
        if self.completed || chunk.is_empty() {
            return false;
        }
        let c = chars_of(chunk);
        let p = chars_of(self.prefix_target.as_str());
        if self.prefix_pos < p.len() {
            let needed = &p.as_slice()[self.prefix_pos..p.len()];
            proof {
                assert(needed@ == self.prefix_target@.skip(self.prefix_pos as int));
            }
            return starts_with(needed, c.as_slice()) || starts_with(c.as_slice(), needed);
        }
        if !self.json.completed {
            if self.json.has_error {
                return false;
            }
            let mut sim = self.json;
            let (ok, end) = sim.run_from(c.as_slice(), 0);
            if !ok {
                return false;
            }
            let k = skip_ws(c.as_slice(), end, c.len());
            if k >= c.len() {
                return true;
            }
            let tail = &c.as_slice()[k..c.len()];
            let sfx = chars_of(self.suffix_target.as_str());
            let needed = &sfx.as_slice()[self.suffix_pos..sfx.len()];
            proof {
                assert(tail@ == chunk@.skip(k as int));
                assert(needed@ == self.suffix_target@.skip(self.suffix_pos as int));
            }
            return starts_with(needed, tail) || starts_with(tail, needed);
        }
        let sfx = chars_of(self.suffix_target.as_str());
        if self.suffix_pos < sfx.len() {
            let needed = &sfx.as_slice()[self.suffix_pos..sfx.len()];
            proof {
                assert(needed@ == self.suffix_target@.skip(self.suffix_pos as int));
            }
            return starts_with(needed, c.as_slice()) || starts_with(c.as_slice(), needed);
        }
        false
    }

    /// Advances over a chunk: first against the rest of the prefix, then into the JSON
    /// payload, then against the rest of the suffix (see [`tool_feed`]).
    pub fn feed(&mut self, chunk: &str) -> (ok: bool)
        requires
            old(self).wf(),
        ensures
            final(self).wf(),
            final(self).prefix_target@ == old(self).prefix_target@,
            final(self).suffix_target@ == old(self).suffix_target@,
            final(self).prefix_pos as int == old(self).fed(chunk@).0,
            final(self).json@ == old(self).fed(chunk@).1,
            final(self).suffix_pos as int == old(self).fed(chunk@).2,
            final(self).completed == old(self).fed(chunk@).3,
            ok == old(self).fed(chunk@).4,
    {
        if self.completed {
            return false;
        }
        let c = chars_of(chunk);
        let mut start: usize = 0;
        let p = chars_of(self.prefix_target.as_str());
        if self.prefix_pos < p.len() {
            let needed = &p.as_slice()[self.prefix_pos..p.len()];
            proof {
                assert(needed@ == self.prefix_target@.skip(self.prefix_pos as int));
            }
            if starts_with(needed, c.as_slice()) {
                self.prefix_pos = self.prefix_pos + c.len();
                return true;
            } else if starts_with(c.as_slice(), needed) {
                self.prefix_pos = self.prefix_pos + needed.len();
                start = needed.len();
            } else {
                return false;
            }
        }
        let rest = &c.as_slice()[start..c.len()];
        proof {
            assert(rest@ == chunk@.skip(start as int));
            assert(chunk@.skip(0) == chunk@);
        }
        self.feed_rest(rest)
    }

    /// Feeds the part of a chunk that follows the prefix (see [`tool_feed_rest`]).
    fn feed_rest(&mut self, rest: &[char]) -> (ok: bool)
        requires
            old(self).wf(),
        ensures
            final(self).wf(),
            final(self).prefix_target@ == old(self).prefix_target@,
            final(self).suffix_target@ == old(self).suffix_target@,
            (final(self).prefix_pos as int, final(self).json@, final(self).suffix_pos as int, final(self).completed, ok)
                == tool_feed_rest(
                old(self).prefix_pos as int,
                old(self).json@,
                old(self).suffix_target@,
                old(self).suffix_pos as int,
                old(self).completed,
                rest@,
            ),
    {
        if !self.json.completed && rest.len() > 0 {
            if self.json.has_error {
                return false;
            }
            let (ok, end) = self.json.run_from(rest, 0);
            if !ok {
                return false;
            }
            let k = skip_ws(rest, end, rest.len());
            if k >= rest.len() {
                return true;
            }
            let tail = &rest[k..rest.len()];
            proof {
                assert(tail@ == rest@.skip(k as int));
            }
            return self.feed_suffix(tail);
        }
        if self.json.completed && rest.len() > 0 {
            return self.feed_suffix(rest);
        }
        true
    }

    /// Matches `rest` against the unmatched part of the suffix (see [`tool_feed_suffix`]).
    fn feed_suffix(&mut self, rest: &[char]) -> (ok: bool)
        requires
            old(self).wf(),
        ensures
            final(self).wf(),
            final(self).prefix_target@ == old(self).prefix_target@,
            final(self).suffix_target@ == old(self).suffix_target@,
            (final(self).prefix_pos as int, final(self).json@, final(self).suffix_pos as int, final(self).completed, ok)
                == tool_feed_suffix(
                old(self).prefix_pos as int,
                old(self).json@,
                old(self).suffix_target@,
                old(self).suffix_pos as int,
                old(self).completed,
                rest@,
            ),
    {
        let sfx = chars_of(self.suffix_target.as_str());
        let needed = &sfx.as_slice()[self.suffix_pos..sfx.len()];
        proof {
            assert(needed@ == self.suffix_target@.skip(self.suffix_pos as int));
        }
        if starts_with(needed, rest) {
            self.suffix_pos = self.suffix_pos + rest.len();
            if self.suffix_pos >= sfx.len() {
                self.completed = true;
            }
            true
        } else if starts_with(rest, needed) {
            self.suffix_pos = self.suffix_pos + needed.len();
            self.completed = true;
            true
        } else {
            false
        }
    }

    /// The mask of the vocabulary entries (indexed by token id) that can come next; empty
    /// entries are never allowed.
    pub fn compute_mask(&self, vocab: &[String]) -> (mask: TokenBitMask)
        requires
            self.wf(),
            vocab@.len() <= u32::MAX + 1,
        ensures
            forall|t: int| #[trigger] mask.allows(t) == (0 <= t < vocab@.len() && t < MASK_TOKEN_LIMIT
                && self.accepts(vocab@[t]@)),
    {
        let mut mask = TokenBitMask::allow_none();
        let n = vocab.len();
        for i in 0..n
            invariant
                n == vocab@.len(),
                n <= u32::MAX + 1,
                self.wf(),
                forall|t: int| #[trigger] mask.allows(t) == (0 <= t < i && t < MASK_TOKEN_LIMIT
                    && self.accepts(vocab@[t]@)),
        {
            let text = vocab[i].as_str();
            if !text.is_empty() && self.can_accept(text) {
                mask.allow(i as u32);
            }
        }
        mask
    }
}

impl Default for ToolCallGrammar {
    fn default() -> (r: Self)
        ensures
            r.wf(),
            r.prefix_target@ == "<tool_call>"@,
            r.prefix_pos == 0,
            r.json@ == json_initial(),
            r.suffix_target@ == "</tool_call>"@,
            r.suffix_pos == 0,
            !r.completed,
    {
        Self::new()
    }
}

proof fn lemma_run_concat(g: JsonState, a: Seq<char>, b: Seq<char>)
    ensures
        json_run(g, a + b) == (if json_run(g, a).1 {
            json_run(json_run(g, a).0, b)
        } else {
            json_run(g, a)
        }),
        json_run(g, a).1 ==> json_run(g, a).0.has_error == g.has_error,
    decreases a.len(),
{
    if a.len() == 0 {
        assert(a + b =~= b);
    } else {
        let (g1, ok) = json_step(g, a[0]);
        assert((a + b)[0] == a[0]);
        assert((a + b).drop_first() =~= a.drop_first() + b);
        lemma_run_concat(g1, a.drop_first(), b);
    }
}

/// Streaming does not depend on how the text is cut into chunks: feeding `a` and then `b`
/// gives the state and verdict of feeding `a + b` at once, whenever `a` is accepted
/// without completing the document.
pub proof fn lemma_feed_split(g: JsonState, a: Seq<char>, b: Seq<char>)
    requires
        json_feed(g, a).1,
        !json_feed(g, a).0.completed,
    ensures
        json_feed(json_feed(g, a).0, b) == json_feed(g, a + b),
{
    lemma_run_concat(g, a, b);
}

/// Wherever a value is expected, an empty array is accepted exactly as an empty object
/// is: both leave the same state, back at the same nesting with the value complete, and
/// at the top level they complete the document.
pub proof fn lemma_empty_array_accepted(g: JsonState)
    requires
        g.expect_value,
        !g.in_string,
        !g.escape,
        !g.expect_key,
        !g.expect_colon,
        !g.has_error,
        g.stack.len() < MAX_JSON_STACK_DEPTH,
    ensures
        json_run(g, "[]"@).1,
        json_run(g, "[]"@) == json_run(g, "{}"@),
        json_run(g, "[]"@).0.stack == g.stack,
        !json_run(g, "[]"@).0.expect_value && json_run(g, "[]"@).0.expect_comma_or_close,
        g.stack.len() == 0 ==> json_run(g, "[]"@).0.completed,
{
    reveal_strlit("[]");
    reveal_strlit("{}");
    reveal_with_fuel(json_run, 3);
    let a = "[]"@;
    let o = "{}"@;
    assert(a.drop_first().drop_first() =~= Seq::<char>::empty());
    assert(o.drop_first().drop_first() =~= Seq::<char>::empty());
    let g1 = json_step(g, '[').0;
    assert(g1.stack.drop_last() =~= g.stack);
    let h1 = json_step(g, '{').0;
    assert(h1.stack.drop_last() =~= g.stack);
    assert(json_run(g, a) == json_run(g1, a.drop_first()));
    assert(json_run(g, o) == json_run(h1, o.drop_first()));
}

/// A recognizer that has completed or failed accepts nothing more and stays as it is.
pub proof fn lemma_feed_after_end(g: JsonState, s: Seq<char>)
    requires
        g.completed || g.has_error,
    ensures
        json_feed(g, s) == (g, false),
{
}

} // verus!
