//! Token stream handling of the chat dispatcher: interception of
//! `<TRIGGER:...</TRIGGER>` tool calls emitted by the model, the bounded
//! look-behind buffer, the completion messages and response collection.
use vstd::prelude::*;
use crate::text::{
    append_chars, chars_of, concat, contains_seq, decimal, decimal_exec, find, find_exec,
    has_prefix, has_suffix, lemma_contains_iff_find, lemma_find_from_props, occurs_at,
    slice_to_vec, string_of, trim, trim_exec,
};

verus! {

/// Opening marker of an intercepted trigger.
pub open spec fn trigger_start() -> Seq<char> {
    seq!['<', 'T', 'R', 'I', 'G', 'G', 'E', 'R', ':']
}

/// Closing marker of an intercepted trigger.
pub open spec fn trigger_end() -> Seq<char> {
    seq!['<', '/', 'T', 'R', 'I', 'G', 'G', 'E', 'R', '>']
}

/// The line that ends every response stream.
pub open spec fn done_line() -> Seq<char> {
    seq!['\n', '[', 'D', 'O', 'N', 'E', ']', '\n']
}

/// Number of bytes that the look-behind buffer keeps while no trigger is open.
pub open spec fn look_behind_bytes() -> nat {
    256
}

fn trigger_start_exec() -> (r: Vec<char>)
    ensures
        r@ == trigger_start(),
{
    let r = vec!['<', 'T', 'R', 'I', 'G', 'G', 'E', 'R', ':'];
    assert(r@ =~= trigger_start());
    r
}

fn trigger_end_exec() -> (r: Vec<char>)
    ensures
        r@ == trigger_end(),
{
    let r = vec!['<', '/', 'T', 'R', 'I', 'G', 'G', 'E', 'R', '>'];
    assert(r@ =~= trigger_end());
    r
}

fn done_line_exec() -> (r: Vec<char>)
    ensures
        r@ == done_line(),
{
    let r = vec!['\n', '[', 'D', 'O', 'N', 'E', ']', '\n'];
    assert(r@ =~= done_line());
    r
}

// ---------------------------------------------------------------------------
// UTF-8 lengths
// ---------------------------------------------------------------------------

/// `char::len_utf8`.
pub open spec fn char_utf8_len(c: char) -> nat {
    if (c as u32) < 0x80 {
        1
    } else if (c as u32) < 0x800 {
        2
    } else if (c as u32) < 0x10000 {
        3
    } else {
        4
    }
}

/// Byte length of the UTF-8 encoding (`str::len`).
pub open spec fn utf8_len(s: Seq<char>) -> nat
    decreases s.len(),
{
    if s.len() == 0 {
        0
    } else {
        utf8_len(s.drop_last()) + char_utf8_len(s.last())
    }
}

/// The character index at which the UTF-8 encoding reaches byte `b`, searching
/// from character index `k` (`str::is_char_boundary` and the matching index).
pub open spec fn boundary_from(s: Seq<char>, b: nat, k: int) -> Option<int>
    decreases s.len() - k,
{
    if k < 0 || k > s.len() {
        None
    } else if utf8_len(s.subrange(0, k)) == b {
        Some(k)
    } else if utf8_len(s.subrange(0, k)) > b || k == s.len() {
        None
    } else {
        boundary_from(s, b, k + 1)
    }
}

pub open spec fn char_boundary(s: Seq<char>, b: nat) -> Option<int> {
    boundary_from(s, b, 0)
}

pub proof fn lemma_utf8_len_bound(s: Seq<char>)
    ensures
        utf8_len(s) <= 4 * s.len(),
    decreases s.len(),
{
    if s.len() > 0 {
        lemma_utf8_len_bound(s.drop_last());
    }
}

pub proof fn lemma_utf8_len_concat(a: Seq<char>, b: Seq<char>)
    ensures
        utf8_len(a + b) == utf8_len(a) + utf8_len(b),
    decreases b.len(),
{
    if b.len() == 0 {
        assert(a + b =~= a);
    } else {
        lemma_utf8_len_concat(a, b.drop_last());
        assert((a + b).drop_last() =~= a + b.drop_last());
    }
}

proof fn lemma_boundary_from_props(s: Seq<char>, b: nat, k: int)
    ensures
        boundary_from(s, b, k) matches Some(j) ==> 0 <= j <= s.len() && utf8_len(
            s.subrange(0, j),
        ) == b,
    decreases s.len() - k,
{
    if k < 0 || k > s.len() {
    } else if utf8_len(s.subrange(0, k)) == b {
    } else if utf8_len(s.subrange(0, k)) > b || k == s.len() {
    } else {
        lemma_boundary_from_props(s, b, k + 1);
    }
}

fn char_utf8_len_exec(c: char) -> (r: u128)
    ensures
        r == char_utf8_len(c),
{
    let v: u32 = c as u32;
    if v < 0x80 {
        1
    } else if v < 0x800 {
        2
    } else if v < 0x10000 {
        3
    } else {
        4
    }
}

fn utf8_len_exec(s: &[char]) -> (r: u128)
    ensures
        r == utf8_len(s@),
{
    let mut acc: u128 = 0;
    let mut i: usize = 0;
    while i < s.len()
        invariant
            i <= s@.len(),
            acc == utf8_len(s@.subrange(0, i as int)),
        decreases s@.len() - i,
    {
        proof {
            assert(s@.subrange(0, i + 1).drop_last() =~= s@.subrange(0, i as int));
            lemma_utf8_len_bound(s@.subrange(0, i as int));
        }
        acc = acc + char_utf8_len_exec(s[i]);
        i = i + 1;
    }
    assert(s@.subrange(0, s@.len() as int) =~= s@);
    acc
}

fn char_boundary_exec(s: &[char], b: u128) -> (r: Option<usize>)
    ensures
        match r {
            Some(k) => char_boundary(s@, b as nat) == Some(k as int),
            None => char_boundary(s@, b as nat) is None,
        },
{
    let mut acc: u128 = 0;
    let mut k: usize = 0;
    assert(s@.subrange(0, 0) =~= Seq::<char>::empty());
    loop
        invariant
            k <= s@.len(),
            acc == utf8_len(s@.subrange(0, k as int)),
            char_boundary(s@, b as nat) == boundary_from(s@, b as nat, k as int),
        decreases s@.len() - k,
    {
        if acc == b {
            return Some(k);
        }
        if acc > b || k == s.len() {
            return None;
        }
        proof {
            assert(s@.subrange(0, k + 1).drop_last() =~= s@.subrange(0, k as int));
            lemma_utf8_len_bound(s@.subrange(0, k as int));
        }
        acc = acc + char_utf8_len_exec(s[k]);
        k = k + 1;
    }
}

// ---------------------------------------------------------------------------
// The trigger filter
// ---------------------------------------------------------------------------

/// What the native generation callback does with one decoded token.
pub enum TokenDecision {
    /// Generation was cancelled: the callback returns `false` without sending.
    Stop,
    /// The token is sent to the client; the callback returns the send outcome.
    Forward(String),
    /// A trigger is open: nothing is sent and generation continues.
    Hold,
    /// A complete trigger was read: it is sent, cancellation is requested and
    /// the callback returns `false`.
    Trigger(String),
}

/// Look-behind buffer of the streaming callback.
pub struct TriggerFilter {
    buffer: Vec<char>,
}

impl View for TriggerFilter {
    type V = Seq<char>;

    closed spec fn view(&self) -> Seq<char> {
        self.buffer@
    }
}

/// The callback does not panic on this buffer and token: when a trigger is
/// open, a closing marker found in the buffer does not end before the opening
/// marker; otherwise, when more than 256 bytes are buffered, the cut point lies
/// on a character boundary.
pub open spec fn step_defined(buffer: Seq<char>, token: Seq<char>) -> bool {
    let c = buffer + token;
    match find(c, trigger_start()) {
        Some(s) => match find(c, trigger_end()) {
            Some(e) => s <= e + trigger_end().len(),
            None => true,
        },
        None => utf8_len(c) > look_behind_bytes() ==> char_boundary(
            c,
            (utf8_len(c) - look_behind_bytes()) as nat,
        ) is Some,
    }
}

/// The buffer after one token.
pub open spec fn next_buffer(buffer: Seq<char>, token: Seq<char>, cancelled: bool) -> Seq<char> {
    let c = buffer + token;
    if cancelled {
        buffer
    } else if find(c, trigger_start()) is Some {
        c
    } else if utf8_len(c) > look_behind_bytes() {
        match char_boundary(c, (utf8_len(c) - look_behind_bytes()) as nat) {
            Some(k) => c.subrange(k, c.len() as int),
            None => c,
        }
    } else {
        c
    }
}

/// The text of the completed trigger in the combined buffer.
pub open spec fn trigger_text(c: Seq<char>) -> Seq<char> {
    match (find(c, trigger_start()), find(c, trigger_end())) {
        (Some(s), Some(e)) => c.subrange(s, e + trigger_end().len()),
        _ => Seq::empty(),
    }
}

/// The decision for one token, as a relation on the exec result.
pub open spec fn decision_matches(
    buffer: Seq<char>,
    token: Seq<char>,
    cancelled: bool,
    d: TokenDecision,
) -> bool {
    let c = buffer + token;
    if cancelled {
        d is Stop
    } else {
        match (find(c, trigger_start()), find(c, trigger_end())) {
            (Some(_), Some(_)) => d matches TokenDecision::Trigger(t) && t@ == trigger_text(c),
            (Some(_), None) => d is Hold,
            (None, _) => d matches TokenDecision::Forward(t) && t@ == token,
        }
    }
}

/// The flushed tail after generation: the open trigger, if generation was not
/// cancelled.
pub open spec fn flush_text(buffer: Seq<char>, cancelled: bool) -> Option<Seq<char>> {
    if cancelled {
        None
    } else {
        match find(buffer, trigger_start()) {
            Some(s) => Some(buffer.subrange(s, buffer.len() as int)),
            None => None,
        }
    }
}

/// `i32` formatted in decimal.
pub open spec fn signed_decimal(x: int) -> Seq<char> {
    if x < 0 {
        seq!['-'] + decimal((-x) as nat)
    } else {
        decimal(x as nat)
    }
}

pub open spec fn generation_failed_message(status: int) -> Seq<char> {
    "Error: Llama generation failed with code "@ + signed_decimal(status)
}

/// The messages that close a stream: the flushed trigger, the failure report
/// when the native call did not succeed and was not cancelled, and the done line.
pub open spec fn completion_messages(buffer: Seq<char>, status: int, cancelled: bool) -> Seq<
    Seq<char>,
> {
    let flushed = match flush_text(buffer, cancelled) {
        Some(t) => seq![t],
        None => Seq::empty(),
    };
    let failure = if status != 0 && !cancelled {
        seq![generation_failed_message(status)]
    } else {
        Seq::empty()
    };
    flushed + failure + seq![done_line()]
}

impl TriggerFilter {
    /// An empty look-behind buffer.
    pub fn new() -> (r: TriggerFilter)
        ensures
            r@ == Seq::<char>::empty(),
    {
        TriggerFilter { buffer: Vec::new() }
    }

    /// Whether `on_token` is defined for this token (see `step_defined`);
    /// the callback panics where it is not.
    pub fn accepts(&self, token: &str) -> (r: bool)
        ensures
            r == step_defined(self@, token@),
    {
        let t = chars_of(token);
        let c = concat(self.buffer.as_slice(), t.as_slice());
        let start = trigger_start_exec();
        let end = trigger_end_exec();
        match find_exec(c.as_slice(), start.as_slice()) {
            Some(s) => match find_exec(c.as_slice(), end.as_slice()) {
                Some(e) => (s as u128) <= (e as u128) + 10,
                None => true,
            },
            None => {
                let total = utf8_len_exec(c.as_slice());
                if total > 256 {
                    char_boundary_exec(c.as_slice(), total - 256).is_some()
                } else {
                    true
                }
            },
        }
    }

    /// Processes one decoded token of the native generation callback.
    pub fn on_token(&mut self, token: &str, cancelled: bool) -> (d: TokenDecision)
        requires
            !cancelled ==> step_defined(old(self)@, token@),
        ensures
            final(self)@ == next_buffer(old(self)@, token@, cancelled),
            decision_matches(old(self)@, token@, cancelled, d),
    {
        if cancelled {
            return TokenDecision::Stop;
        }
        let t = chars_of(token);
        let ghost old_buffer = self.buffer@;
        append_chars(&mut self.buffer, t.as_slice());
        let start = trigger_start_exec();
        let end = trigger_end_exec();
        match find_exec(self.buffer.as_slice(), start.as_slice()) {
            Some(s) => {
                match find_exec(self.buffer.as_slice(), end.as_slice()) {
                    Some(e) => {
                        let n = self.buffer.len();
                        proof {
                            lemma_find_from_props(self.buffer@, trigger_end(), 0);
                            lemma_find_from_props(self.buffer@, trigger_start(), 0);
                        }
                        assert(e + 10 <= n);
                        let stop = e + 10;
                        let text = slice_to_vec(self.buffer.as_slice(), s, stop);
                        TokenDecision::Trigger(string_of(text.as_slice()))
                    },
                    None => TokenDecision::Hold,
                }
            },
            None => {
                let total = utf8_len_exec(self.buffer.as_slice());
                if total > 256 {
                    proof {
                        lemma_boundary_from_props(self.buffer@, (total - 256) as nat, 0);
                    }
                    match char_boundary_exec(self.buffer.as_slice(), total - 256) {
                        Some(k) => {
                            let n = self.buffer.len();
                            self.buffer = slice_to_vec(self.buffer.as_slice(), k, n);
                        },
                        None => {},
                    }
                }
                TokenDecision::Forward(string_of(t.as_slice()))
            },
        }
    }

    /// The open trigger that is flushed to the client after generation.
    pub fn flush(&self, cancelled: bool) -> (r: Option<String>)
        ensures
            match r {
                Some(t) => flush_text(self@, cancelled) == Some(t@),
                None => flush_text(self@, cancelled) is None,
            },
    {
        if cancelled {
            return None;
        }
        let start = trigger_start_exec();
        proof {
            lemma_find_from_props(self.buffer@, trigger_start(), 0);
        }
        match find_exec(self.buffer.as_slice(), start.as_slice()) {
            Some(s) => {
                let n = self.buffer.len();
                let t = slice_to_vec(self.buffer.as_slice(), s, n);
                Some(string_of(t.as_slice()))
            },
            None => None,
        }
    }

    /// The messages that close the stream after the native call returned `status`.
    pub fn completion_messages(&self, status: i32, cancelled: bool) -> (r: Vec<String>)
        ensures
            r@.map_values(|m: String| m@) == completion_messages(self@, status as int, cancelled),
    {
        let mut out: Vec<String> = Vec::new();
        let flushed = self.flush(cancelled);
        match flushed {
            Some(t) => out.push(t),
            None => {},
        }
        if status != 0 && !cancelled {
            out.push(generation_failed_message_exec(status));
        }
        let done = done_line_exec();
        out.push(string_of(done.as_slice()));
        proof {
            let want = completion_messages(self@, status as int, cancelled);
            assert(out@.map_values(|m: String| m@) =~= want);
        }
        out
    }
}

fn signed_decimal_exec(x: i32) -> (r: Vec<char>)
    ensures
        r@ == signed_decimal(x as int),
{
    if x < 0 {
        let magnitude: u64 = (-(x as i64)) as u64;
        let digits = decimal_exec(magnitude);
        let mut r = vec!['-'];
        append_chars(&mut r, digits.as_slice());
        assert(r@ =~= seq!['-'] + decimal((-(x as int)) as nat));
        r
    } else {
        decimal_exec(x as u64)
    }
}

fn generation_failed_message_exec(status: i32) -> (r: String)
    ensures
        r@ == generation_failed_message(status as int),
{
    let prefix = chars_of("Error: Llama generation failed with code ");
    let digits = signed_decimal_exec(status);
    let all = concat(prefix.as_slice(), digits.as_slice());
    string_of(all.as_slice())
}


// ---------------------------------------------------------------------------
// Laws of the trigger filter
// ---------------------------------------------------------------------------

proof fn lemma_occurs_in_suffix(b: Seq<char>, t: Seq<char>, p: Seq<char>, i: int)
    requires
        occurs_at(t, p, i),
    ensures
        occurs_at(b + t, p, b.len() + i),
{
    assert((b + t).subrange(b.len() + i, b.len() + i + p.len()) =~= t.subrange(i, i + p.len()));
}

proof fn lemma_occurs_in_prefix(b: Seq<char>, t: Seq<char>, p: Seq<char>, i: int)
    requires
        occurs_at(b, p, i),
    ensures
        occurs_at(b + t, p, i),
{
    assert((b + t).subrange(i, i + p.len()) =~= b.subrange(i, i + p.len()));
}

/// A token that is forwarded to the client never contains the opening
/// trigger marker: tool calls are not leaked into the visible stream.
pub proof fn law_forwarded_token_has_no_trigger(buffer: Seq<char>, token: Seq<char>, d: TokenDecision)
    requires
        decision_matches(buffer, token, false, d),
        d is Forward,
    ensures
        d matches TokenDecision::Forward(t) && t@ == token,
        !contains_seq(token, trigger_start()),
{
    let c = buffer + token;
    lemma_find_from_props(c, trigger_start(), 0);
    if contains_seq(token, trigger_start()) {
        let i = choose|i: int| occurs_at(token, trigger_start(), i);
        lemma_occurs_in_suffix(buffer, token, trigger_start(), i);
    }
}

/// Once an opening trigger marker is buffered, every further token is held
/// back (or completes the trigger) and the buffer only grows.
pub proof fn law_open_trigger_is_held(buffer: Seq<char>, token: Seq<char>, d: TokenDecision)
    requires
        contains_seq(buffer, trigger_start()),
        decision_matches(buffer, token, false, d),
    ensures
        !(d is Forward),
        next_buffer(buffer, token, false) == buffer + token,
{
    let i = choose|i: int| occurs_at(buffer, trigger_start(), i);
    lemma_occurs_in_prefix(buffer, token, trigger_start(), i);
    lemma_contains_iff_find(buffer + token, trigger_start());
}

/// An intercepted trigger is either empty (a closing marker directly before
/// the opening one) or runs from the opening marker to the closing marker.
pub proof fn law_trigger_text_shape(buffer: Seq<char>, token: Seq<char>, d: TokenDecision)
    requires
        step_defined(buffer, token),
        decision_matches(buffer, token, false, d),
        d is Trigger,
    ensures
        d matches TokenDecision::Trigger(t) && (t@.len() == 0 || (has_prefix(
            t@,
            trigger_start(),
        ) && has_suffix(t@, trigger_end()))),
{
    let c = buffer + token;
    lemma_find_from_props(c, trigger_start(), 0);
    lemma_find_from_props(c, trigger_end(), 0);
    let s = find(c, trigger_start())->0;
    let e = find(c, trigger_end())->0;
    let t = c.subrange(s, e + 10);
    assert(c.subrange(s, s + 9) == trigger_start());
    assert(c.subrange(e, e + 10) == trigger_end());
    if s < e + 10 {
        if e < s {
            // The closing marker would overlap the opening '<' at a position
            // where it holds no '<'.
            assert(c.subrange(s, s + 9)[0] == '<');
            assert(c.subrange(e, e + 10)[s - e] == c[s]);
            assert(false);
        }
        assert(t.subrange(0, 9) =~= c.subrange(s, s + 9));
        assert(t.subrange(t.len() - 10, t.len() as int) =~= c.subrange(e, e + 10));
    } else {
        assert(t.len() == 0);
    }
}

/// While no trigger is open, the look-behind buffer holds at most 256 bytes
/// after each token.
pub proof fn law_look_behind_is_bounded(buffer: Seq<char>, token: Seq<char>)
    requires
        step_defined(buffer, token),
        !contains_seq(buffer + token, trigger_start()),
    ensures
        utf8_len(next_buffer(buffer, token, false)) <= look_behind_bytes(),
{
    let c = buffer + token;
    lemma_contains_iff_find(c, trigger_start());
    if utf8_len(c) > look_behind_bytes() {
        let b = (utf8_len(c) - look_behind_bytes()) as nat;
        lemma_boundary_from_props(c, b, 0);
        let k = char_boundary(c, b)->0;
        lemma_utf8_len_concat(c.subrange(0, k), c.subrange(k, c.len() as int));
        assert(c.subrange(0, k) + c.subrange(k, c.len() as int) =~= c);
    }
}

proof fn lemma_utf8_len_at_least_len(s: Seq<char>)
    ensures
        utf8_len(s) >= s.len(),
    decreases s.len(),
{
    if s.len() > 0 {
        lemma_utf8_len_at_least_len(s.drop_last());
    }
}

proof fn lemma_utf8_len_split(c: Seq<char>, j: int)
    requires
        0 <= j <= c.len(),
    ensures
        utf8_len(c) == utf8_len(c.subrange(0, j)) + utf8_len(c.subrange(j, c.len() as int)),
{
    lemma_utf8_len_concat(c.subrange(0, j), c.subrange(j, c.len() as int));
    assert(c.subrange(0, j) + c.subrange(j, c.len() as int) =~= c);
}

/// While no trigger is open, the look-behind buffer after a token is the
/// longest tail of the buffered text and the token that fits in 256 bytes:
/// it is a suffix of that text, at most 256 bytes long, and every longer
/// suffix exceeds 256 bytes. In particular the whole text is kept while it
/// fits, so an opening marker split over consecutive tokens is found.
pub proof fn law_look_behind_keeps_longest_tail(buffer: Seq<char>, token: Seq<char>)
    requires
        step_defined(buffer, token),
        !contains_seq(buffer + token, trigger_start()),
    ensures
        ({
            let c = buffer + token;
            let kept = next_buffer(buffer, token, false);
            &&& kept.len() <= c.len()
            &&& kept == c.subrange(c.len() - kept.len(), c.len() as int)
            &&& utf8_len(kept) <= 256
            &&& forall|j: int|
                0 <= j < c.len() - kept.len() ==> utf8_len(#[trigger] c.subrange(j, c.len() as int)) > 256
        }),
{
    let c = buffer + token;
    lemma_contains_iff_find(c, trigger_start());
    if utf8_len(c) > 256 {
        let b = (utf8_len(c) - 256) as nat;
        lemma_boundary_from_props(c, b, 0);
        let k = char_boundary(c, b)->0;
        let kept = c.subrange(k, c.len() as int);
        assert(next_buffer(buffer, token, false) == kept);
        assert(kept =~= c.subrange(c.len() - kept.len(), c.len() as int));
        lemma_utf8_len_split(c, k);
        assert forall|j: int| 0 <= j < c.len() - kept.len() implies utf8_len(
            #[trigger] c.subrange(j, c.len() as int),
        ) > 256 by {
            lemma_utf8_len_split(c, j);
            let pk = c.subrange(0, k);
            lemma_utf8_len_split(pk, j);
            assert(pk.subrange(0, j) =~= c.subrange(0, j));
            lemma_utf8_len_at_least_len(pk.subrange(j, k));
        }
    } else {
        assert(next_buffer(buffer, token, false) == c);
        assert(c =~= c.subrange(0, c.len() as int));
    }
}

/// The text of a response: every token before the first one that reads
/// `[DONE]` once surrounding whitespace is removed.
pub open spec fn collected_text(tokens: Seq<Seq<char>>) -> Seq<char>
    decreases tokens.len(),
{
    if tokens.len() == 0 {
        Seq::empty()
    } else if trim(tokens[0]) == "[DONE]"@ {
        Seq::empty()
    } else {
        tokens[0] + collected_text(tokens.drop_first())
    }
}

/// Collects the streamed tokens of `dispatch_prompt` into one response.
pub fn collect_response(tokens: &Vec<String>) -> (r: String)
    ensures
        r@ == collected_text(tokens@.map_values(|t: String| t@)),
{
    let ghost all = tokens@.map_values(|t: String| t@);
    let done = chars_of("[DONE]");
    let mut out: Vec<char> = Vec::new();
    let mut i: usize = 0;
    assert(all.subrange(0, all.len() as int) =~= all);
    assert(out@ + collected_text(all) =~= collected_text(all));
    while i < tokens.len()
        invariant
            i <= tokens@.len(),
            all == tokens@.map_values(|t: String| t@),
            done@ == "[DONE]"@,
            collected_text(all) == out@ + collected_text(all.subrange(i as int, all.len() as int)),
        decreases tokens@.len() - i,
    {
        let t = chars_of(tokens[i].as_str());
        let ghost rest = all.subrange(i as int, all.len() as int);
        assert(rest[0] == t@);
        assert(rest.drop_first() =~= all.subrange(i + 1, all.len() as int));
        let trimmed = trim_exec(t.as_slice());
        if crate::text::chars_eq(trimmed.as_slice(), done.as_slice()) {
            assert(collected_text(rest) =~= Seq::<char>::empty());
            assert(out@ + Seq::<char>::empty() =~= out@);
            return string_of(out.as_slice());
        }
        let ghost before = out@;
        append_chars(&mut out, t.as_slice());
        assert(before + (t@ + collected_text(rest.drop_first())) =~= (before + t@)
            + collected_text(rest.drop_first()));
        i = i + 1;
    }
    assert(all.subrange(i as int, all.len() as int) =~= Seq::<Seq<char>>::empty());
    assert(out@ + Seq::<char>::empty() =~= out@);
    string_of(out.as_slice())
}

} // verus!
