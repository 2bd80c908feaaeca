//! The daemon's event stream, as the tray reads it.

use vstd::prelude::*;
use vstd::string::{StrSliceExecFns, StringExecFns};
use vstd::utf8::{decode_utf8, valid_utf8};

use crate::json::{Json, JsonView};
use crate::text::{chars_of, find_from, first, lemma_first, occurs};
use crate::tray::{out_of_reach, unreachable_state, wrap_snapshot, wrapped};
use crate::wire::{parse_text, read_view, str_reads};

verus! {

/// How many characters stand before the first line feed.
pub open spec fn line_len(s: Seq<char>) -> int
    decreases s.len(),
{
    if s.len() == 0 || s[0] == '\n' {
        0
    } else {
        1 + line_len(s.skip(1))
    }
}

/// `s` without one carriage return at its end.
pub open spec fn without_return(s: Seq<char>) -> Seq<char> {
    if s.len() > 0 && s.last() == '\r' {
        s.drop_last()
    } else {
        s
    }
}

/// What marks a line of data.
pub open spec fn data_mark() -> Seq<char> {
    seq!['d', 'a', 't', 'a', ':', ' ']
}

/// What a line of data carries; no other line carries anything.
pub open spec fn line_data(line: Seq<char>) -> Seq<Seq<char>> {
    if line.len() >= 6 && line.take(6) == data_mark() {
        seq![line.skip(6)]
    } else {
        Seq::empty()
    }
}

/// What the lines of `s` carry, line by line. A line ends with a line feed, which may have a
/// carriage return before it; the last one may end without.
pub open spec fn data_lines(s: Seq<char>) -> Seq<Seq<char>>
    decreases s.len(),
{
    let n = line_len(s);
    if n < 0 || n >= s.len() {
        line_data(s)
    } else {
        line_data(without_return(s.take(n))) + data_lines(s.skip(n + 1))
    }
}

/// The blank line that ends a frame.
pub open spec fn frame_end() -> Seq<char> {
    seq!['\n', '\n']
}

/// What the complete frames of `s` carry, in their order.
pub open spec fn payloads(s: Seq<char>) -> Seq<Seq<char>>
    decreases s.len(),
{
    if occurs(s, frame_end()) {
        proof {
            lemma_first(s, frame_end());
        }
        let n = first(s, frame_end()) + 2;
        data_lines(s.take(n)) + payloads(s.skip(n))
    } else {
        Seq::empty()
    }
}

/// What follows the last complete frame of `s`.
pub open spec fn unfinished(s: Seq<char>) -> Seq<char>
    decreases s.len(),
{
    if occurs(s, frame_end()) {
        proof {
            lemma_first(s, frame_end());
        }
        unfinished(s.skip(first(s, frame_end()) + 2))
    } else {
        s
    }
}

/// The texts, each taken by its view.
pub open spec fn texts(v: Seq<String>) -> Seq<Seq<char>> {
    v.map_values(|s: String| s@)
}

proof fn lemma_line_len(s: Seq<char>, n: int)
    requires
        0 <= n <= s.len(),
        forall|i: int| 0 <= i < n ==> s[i] != '\n',
        n == s.len() || s[n] == '\n',
    ensures
        line_len(s) == n,
    decreases s.len(),
{
    if n > 0 {
        assert(s[0] != '\n');
        let rest = s.skip(1);
        assert forall|i: int| 0 <= i < n - 1 implies rest[i] != '\n' by {
            assert(rest[i] == s[i + 1]);
        }
        lemma_line_len(rest, n - 1);
    }
}

/// Adds what the line `chars[from..to]` carries.
fn push_line_data(text: &str, chars: &Vec<char>, from: usize, to: usize, out: &mut Vec<String>)
    requires
        chars@ == text@,
        from <= to <= chars@.len(),
    ensures
        texts(final(out)@) == texts(old(out)@) + line_data(
            chars@.subrange(from as int, to as int),
        ),
{
    let ghost line = chars@.subrange(from as int, to as int);
    if to - from >= 6 && chars[from] == 'd' && chars[from + 1] == 'a' && chars[from + 2] == 't'
        && chars[from + 3] == 'a' && chars[from + 4] == ':' && chars[from + 5] == ' ' {
        assert(line.take(6) =~= data_mark());
        assert(line.skip(6) =~= text@.subrange(from + 6, to as int));
        out.push(text.substring_char(from + 6, to).to_owned());
        assert(texts(out@) =~= texts(old(out)@) + line_data(line));
    } else {
        proof {
            if line.len() >= 6 && line.take(6) == data_mark() {
                assert forall|k: int| 0 <= k < 6 implies chars@[from + k] == data_mark()[k] by {
                    assert(line.take(6)[k] == chars@[from + k]);
                }
                assert(chars@[from + 0] == 'd' && chars@[from + 1] == 'a' && chars@[from + 2] == 't'
                    && chars@[from + 3] == 'a' && chars@[from + 4] == ':' && chars@[from + 5]
                    == ' ');
            }
            assert(texts(out@) =~= texts(old(out)@) + line_data(line));
        }
    }
}

/// Adds what the lines of `chars[from..to]` carry.
fn push_data_lines(text: &str, chars: &Vec<char>, from: usize, to: usize, out: &mut Vec<String>)
    requires
        chars@ == text@,
        from <= to <= chars@.len(),
    ensures
        texts(final(out)@) == texts(old(out)@) + data_lines(
            chars@.subrange(from as int, to as int),
        ),
{
    let ghost goal = texts(out@) + data_lines(chars@.subrange(from as int, to as int));
    let mut start: usize = from;
    let mut end: usize = from;
    while end < to
        invariant
            chars@ == text@,
            from <= start <= end <= to <= chars@.len(),
            forall|i: int| start <= i < end ==> chars@[i] != '\n',
            texts(out@) + data_lines(chars@.subrange(start as int, to as int)) == goal,
        decreases to - end,
    {
        if chars[end] == '\n' {
            let ghost rest = chars@.subrange(start as int, to as int);
            let ghost n = end - start;
            let cut: usize = if end > start && chars[end - 1] == '\r' {
                end - 1
            } else {
                end
            };
            proof {
                lemma_line_len(rest, n);
                assert(without_return(rest.take(n)) =~= chars@.subrange(start as int, cut as int));
                assert(rest.skip(n + 1) =~= chars@.subrange(end + 1, to as int));
            }
            let ghost before = texts(out@);
            push_line_data(text, chars, start, cut, out);
            proof {
                let line = line_data(chars@.subrange(start as int, cut as int));
                let more = data_lines(chars@.subrange(end + 1, to as int));
                assert(before + (line + more) =~= before + line + more);
            }
            start = end + 1;
        }
        end = end + 1;
    }
    proof {
        let rest = chars@.subrange(start as int, to as int);
        lemma_line_len(rest, rest.len() as int);
    }
    push_line_data(text, chars, start, to, out);
}

/// The part of the stream that has come in and not been used yet.
pub struct SseBuffer {
    pending: String,
}

impl View for SseBuffer {
    type V = Seq<char>;

    closed spec fn view(&self) -> Seq<char> {
        self.pending@
    }
}

impl SseBuffer {
    /// An empty buffer.
    pub fn new() -> (r: SseBuffer)
        ensures
            r@ == Seq::<char>::empty(),
    {
        SseBuffer { pending: String::new() }
    }

    /// Takes in more of the stream and hands out what the frames that are now complete carry.
    pub fn push(&mut self, chunk: &str) -> (r: Vec<String>)
        ensures
            texts(r@) == payloads(old(self)@ + chunk@),
            final(self)@ == unfinished(old(self)@ + chunk@),
    {
        self.pending.append(chunk);
        let chars = chars_of(self.pending.as_str());
        let mut blank: Vec<char> = Vec::new();
        blank.push('\n');
        blank.push('\n');
        assert(blank@ =~= frame_end());
        let ghost all = self.pending@;
        let mut out: Vec<String> = Vec::new();
        let mut from: usize = 0;
        let len: usize = chars.len();
        proof {
            assert(all.skip(0) == all);
            assert(texts(out@) + payloads(all) =~= payloads(all));
        }
        let mut done: bool = false;
        while !done
            invariant
                all == self.pending@,
                chars@ == all,
                all.len() == len,
                blank@ == frame_end(),
                from <= len,
                texts(out@) + payloads(all.skip(from as int)) == payloads(all),
                unfinished(all.skip(from as int)) == unfinished(all),
                done ==> !occurs(all.skip(from as int), frame_end()),
            decreases
                len - from,
                if done {
                    0int
                } else {
                    1
                },
        {
            match find_from(&chars, &blank, from) {
                Some(i) => {
                    let ghost rest = all.skip(from as int);
                    let ghost before = texts(out@);
                    let next: usize = i + 2;
                    proof {
                        lemma_first(rest, frame_end());
                        assert(rest.take(next - from) =~= all.subrange(from as int, next as int));
                        assert(rest.skip(next - from) =~= all.skip(next as int));
                    }
                    push_data_lines(self.pending.as_str(), &chars, from, next, &mut out);
                    proof {
                        let frame = data_lines(rest.take(next - from));
                        let more = payloads(all.skip(next as int));
                        assert(payloads(rest) == frame + more);
                        assert(before + (frame + more) =~= before + frame + more);
                    }
                    from = next;
                },
                None => {
                    done = true;
                },
            }
        }
        assert(all.subrange(from as int, len as int) =~= all.skip(from as int));
        assert(texts(out@) + payloads(all.skip(from as int)) =~= texts(out@));
        self.pending = self.pending.as_str().substring_char(from, len).to_owned();
        out
    }
}

/// The text that `String::from_utf8_lossy` makes of bytes.
pub uninterp spec fn lossy_text(bytes: Seq<u8>) -> Seq<char>;

/// `String::from_utf8_lossy`: the text of bytes that are valid UTF-8. Which characters take the
/// place of bytes that are not is left to the name.
#[verifier::external_body]
pub(crate) fn decode_lossy(bytes: &[u8]) -> (r: String)
    ensures
        r@ == lossy_text(bytes@),
        valid_utf8(bytes@) ==> r@ == decode_utf8(bytes@),
{
    String::from_utf8_lossy(bytes).into_owned()
}

/// The text of bytes: what they encode where they are valid UTF-8, and otherwise what
/// `String::from_utf8_lossy` makes of them.
pub open spec fn text_of_bytes(bytes: Seq<u8>) -> Seq<char> {
    if valid_utf8(bytes) {
        decode_utf8(bytes)
    } else {
        lossy_text(bytes)
    }
}

/// The state to publish for what reading a payload gave: none where it was no JSON.
pub open spec fn state_for(read: Result<JsonView, Seq<char>>) -> Option<JsonView> {
    match read {
        Ok(snapshot) => Some(wrapped(snapshot)),
        Err(_) => None,
    }
}

/// The state to publish for what reading a payload gave.
pub fn state_of_read(read: Result<Json, String>) -> (r: Option<Json>)
    ensures
        match r {
            Some(j) => state_for(read_view(read)) == Some(j@),
            None => state_for(read_view(read)) is None,
        },
{
    match read {
        Ok(snapshot) => Some(wrap_snapshot(snapshot)),
        Err(_) => None,
    }
}

/// The states to publish for payloads, in their order.
pub open spec fn states_for(payloads: Seq<Seq<char>>) -> Seq<JsonView>
    decreases payloads.len(),
{
    if payloads.len() == 0 {
        Seq::empty()
    } else {
        let before = states_for(payloads.drop_last());
        match state_for(str_reads(payloads.last())) {
            Some(state) => before.push(state),
            None => before,
        }
    }
}

/// The values, each taken by its view.
pub open spec fn json_views(v: Seq<Json>) -> Seq<JsonView> {
    v.map_values(|j: Json| j@)
}

/// The states to publish for payloads.
fn states_of(payloads: &Vec<String>) -> (r: Vec<Json>)
    ensures
        json_views(r@) == states_for(texts(payloads@)),
{
    let ghost all = texts(payloads@);
    let mut out: Vec<Json> = Vec::new();
    let mut i: usize = 0;
    assert(json_views(out@) =~= states_for(all.take(0)));
    while i < payloads.len()
        invariant
            i <= payloads@.len(),
            all == texts(payloads@),
            json_views(out@) == states_for(all.take(i as int)),
        decreases payloads@.len() - i,
    {
        proof {
            assert(all.take(i + 1).drop_last() == all.take(i as int));
            assert(all[i as int] == payloads@[i as int]@);
        }
        let ghost before = out@;
        if let Some(state) = state_of_read(parse_text(payloads[i].as_str())) {
            out.push(state);
            assert(json_views(out@) =~= json_views(before).push(state@));
        }
        i = i + 1;
    }
    assert(all.take(i as int) == all);
    out
}

/// How many seconds to wait between two attempts to reach the daemon.
pub const RETRY_SECS: u64 = 3;

/// What happens on the connection to the daemon.
pub enum LinkEvent {
    /// The request could not be sent.
    SendFailed,
    /// An answer came, with a status of success or another one.
    Answered { success: bool },
    /// More of the answer's body came.
    Chunk { bytes: Vec<u8> },
    /// The body broke off.
    ChunkFailed,
    /// The body ended.
    Ended,
}

/// What to write to the log.
#[derive(Clone, Copy, Debug, PartialEq, Eq, Structural)]
pub enum LinkLog {
    Nothing,
    Unreachable,
    BadStatus,
    Connected,
}

/// What to do about an event.
pub struct LinkAction {
    pub log: LinkLog,
    /// The states to publish, in this order.
    pub publish: Vec<Json>,
    /// Whether to wait and then send the request again.
    pub retry: bool,
    /// How many seconds to wait before that.
    pub wait_secs: u64,
}

/// The connection to the daemon.
pub struct Link {
    was_connected: bool,
    buffer: SseBuffer,
}

/// What a connection remembers.
#[verifier::ext_equal]
pub struct LinkView {
    /// The last attempt ended as a stream does.
    pub was_connected: bool,
    /// What has come in and not been used yet.
    pub pending: Seq<char>,
}

/// What to do about an event, the states taken by their views.
#[verifier::ext_equal]
pub struct LinkActionView {
    pub log: LinkLog,
    pub publish: Seq<JsonView>,
    pub retry: bool,
    pub wait_secs: u64,
}

impl View for Link {
    type V = LinkView;

    closed spec fn view(&self) -> LinkView {
        LinkView { was_connected: self.was_connected, pending: self.buffer@ }
    }
}

impl View for LinkAction {
    type V = LinkActionView;

    open spec fn view(&self) -> LinkActionView {
        LinkActionView {
            log: self.log,
            publish: json_views(self.publish@),
            retry: self.retry,
            wait_secs: self.wait_secs,
        }
    }
}

/// An attempt is over: the daemon shows as unreachable and the next attempt is due after a wait.
pub open spec fn attempt_over(l: LinkView, clean: bool, log: LinkLog) -> (LinkView, LinkActionView) {
    (
        LinkView { was_connected: clean, ..l },
        LinkActionView {
            log,
            publish: seq![out_of_reach()],
            retry: true,
            wait_secs: RETRY_SECS,
        },
    )
}

/// What is written to the log of a failure: it is told once and not on every attempt.
pub open spec fn told_once(l: LinkView, log: LinkLog) -> LinkLog {
    if l.was_connected {
        log
    } else {
        LinkLog::Nothing
    }
}

/// What an event makes of the connection and what to do about it.
pub open spec fn link_step(l: LinkView, ev: LinkEvent) -> (LinkView, LinkActionView) {
    match ev {
        LinkEvent::SendFailed => attempt_over(l, false, told_once(l, LinkLog::Unreachable)),
        LinkEvent::Answered { success } => if success {
            (
                LinkView { pending: Seq::empty(), ..l },
                LinkActionView {
                    log: LinkLog::Connected,
                    publish: Seq::empty(),
                    retry: false,
                    wait_secs: 0,
                },
            )
        } else {
            attempt_over(l, false, told_once(l, LinkLog::BadStatus))
        },
        LinkEvent::Chunk { bytes } => {
            let s = l.pending + text_of_bytes(bytes@);
            (
                LinkView { pending: unfinished(s), ..l },
                LinkActionView {
                    log: LinkLog::Nothing,
                    publish: states_for(payloads(s)),
                    retry: false,
                    wait_secs: 0,
                },
            )
        },
        LinkEvent::ChunkFailed => attempt_over(l, false, LinkLog::Nothing),
        LinkEvent::Ended => attempt_over(l, true, LinkLog::Nothing),
    }
}

impl Link {
    /// A connection that has not been tried yet.
    pub fn new() -> (r: Link)
        ensures
            r@ == (LinkView { was_connected: true, pending: Seq::empty() }),
    {
        Link { was_connected: true, buffer: SseBuffer::new() }
    }

    fn over(&mut self, clean: bool, log: LinkLog) -> (r: LinkAction)
        ensures
            (final(self)@, r@) == attempt_over(old(self)@, clean, log),
    {
        self.was_connected = clean;
        let mut publish: Vec<Json> = Vec::new();
        publish.push(unreachable_state());
        assert(json_views(publish@) =~= seq![out_of_reach()]);
        LinkAction { log, publish, retry: true, wait_secs: RETRY_SECS }
    }

    /// Takes in an event and says what to do about it.
    pub fn on_event(&mut self, ev: LinkEvent) -> (r: LinkAction)
        ensures
            (final(self)@, r@) == link_step(old(self)@, ev),
    {
        let told: bool = self.was_connected;
        match ev {
            LinkEvent::SendFailed => self.over(
                false,
                if told {
                    LinkLog::Unreachable
                } else {
                    LinkLog::Nothing
                },
            ),
            LinkEvent::Answered { success } => if success {
                self.buffer = SseBuffer::new();
                let publish: Vec<Json> = Vec::new();
                assert(json_views(publish@) =~= Seq::empty());
                LinkAction { log: LinkLog::Connected, publish, retry: false, wait_secs: 0 }
            } else {
                self.over(
                    false,
                    if told {
                        LinkLog::BadStatus
                    } else {
                        LinkLog::Nothing
                    },
                )
            },
            LinkEvent::Chunk { bytes } => {
                let text = decode_lossy(bytes.as_slice());
                let payloads = self.buffer.push(text.as_str());
                LinkAction {
                    log: LinkLog::Nothing,
                    publish: states_of(&payloads),
                    retry: false,
                    wait_secs: 0,
                }
            },
            LinkEvent::ChunkFailed => self.over(false, LinkLog::Nothing),
            LinkEvent::Ended => self.over(true, LinkLog::Nothing),
        }
    }
}

} // verus!
