//! Laws of the event stream.

use vstd::prelude::*;
use vstd::utf8::{
    decode_first_scalar, decode_utf8, encode_utf8, encode_utf8_decode_utf8, encode_utf8_valid_utf8,
    pop_first_scalar, valid_utf8, valid_utf8_concat,
};

use crate::daemon::is_snapshot_text;
use crate::feed::{
    data_lines, data_mark, frame_end, line_data, line_len, link_step, payloads, states_for,
    unfinished, without_return, LinkActionView, LinkEvent, LinkLog, LinkView,
    RETRY_SECS,
};
use crate::json::JsonView;
use crate::model::Tree;
use crate::state::snapshot::{label, shows, worst};
use crate::text::{first, first_at, lemma_first, lemma_first_is, occurs, occurs_at};
use crate::tray::{out_of_reach, shown_aggregate, wrapped};
use crate::wire::{compact_text, one_line, reads_as};

verus! {

proof fn lemma_first_in_more(a: Seq<char>, b: Seq<char>)
    requires
        occurs(a, frame_end()),
    ensures
        occurs(a + b, frame_end()),
        first(a + b, frame_end()) == first(a, frame_end()),
{
    lemma_first(a, frame_end());
    let i = first(a, frame_end());
    let s = a + b;
    assert(s.subrange(i, i + 2) =~= a.subrange(i, i + 2));
    assert forall|j: int| 0 <= j < i implies !occurs_at(s, frame_end(), j) by {
        assert(s.subrange(j, j + 2) =~= a.subrange(j, j + 2));
        assert(!occurs_at(a, frame_end(), j));
    }
    lemma_first_is(s, frame_end(), i);
}

/// It makes no difference how the stream is cut into pieces: what comes out, and what is left
/// over, is the same for a piece after a piece as for both in one.
pub proof fn law_chunks_make_no_difference(a: Seq<char>, b: Seq<char>)
    ensures
        payloads(a + b) == payloads(a) + payloads(unfinished(a) + b),
        unfinished(a + b) == unfinished(unfinished(a) + b),
    decreases a.len(),
{
    if occurs(a, frame_end()) {
        lemma_first(a, frame_end());
        lemma_first_in_more(a, b);
        let n = first(a, frame_end()) + 2;
        let s = a + b;
        assert(s.take(n) =~= a.take(n));
        assert(s.skip(n) =~= a.skip(n) + b);
        law_chunks_make_no_difference(a.skip(n), b);
        let frame = data_lines(a.take(n));
        let rest = payloads(a.skip(n));
        let more = payloads(unfinished(a.skip(n)) + b);
        assert(frame + (rest + more) =~= frame + rest + more);
    } else {
        assert(payloads(a) + payloads(a + b) =~= payloads(a + b));
    }
}

/// What is left over holds no complete frame.
pub proof fn law_unfinished_has_no_frame(s: Seq<char>)
    ensures
        !occurs(unfinished(s), frame_end()),
        payloads(unfinished(s)) == Seq::<Seq<char>>::empty(),
    decreases s.len(),
{
    if occurs(s, frame_end()) {
        lemma_first(s, frame_end());
        law_unfinished_has_no_frame(s.skip(first(s, frame_end()) + 2));
    }
}

/// A frame with the name of the event and one line of data.
pub open spec fn state_frame(data: Seq<char>) -> Seq<char> {
    "event: state"@ + seq!['\n'] + data_mark() + data + frame_end()
}

proof fn lemma_line_len_is(s: Seq<char>, n: int)
    requires
        0 <= n < s.len(),
        forall|i: int| 0 <= i < n ==> s[i] != '\n',
        s[n] == '\n',
    ensures
        line_len(s) == n,
    decreases n,
{
    if n > 0 {
        let rest = s.skip(1);
        assert forall|i: int| 0 <= i < n - 1 implies rest[i] != '\n' by {
            assert(rest[i] == s[i + 1]);
        }
        lemma_line_len_is(rest, n - 1);
    }
}

/// Where a frame has its line feeds.
proof fn lemma_frame_feeds(data: Seq<char>)
    requires
        one_line(data),
    ensures
        ({
            let s = state_frame(data);
            let n = 19 + data.len() as int;
            &&& s.len() == n + 2
            &&& forall|i: int| 0 <= i < n && i != 12 ==> #[trigger] s[i] != '\n'
            &&& s[n] == '\n' && s[n + 1] == '\n'
        }),
{
    reveal_strlit("event: state");
    let s = state_frame(data);
    let name = "event: state"@;
    let n = 19 + data.len() as int;
    assert forall|i: int| 0 <= i < n && i != 12 implies #[trigger] s[i] != '\n' by {
        if i < 12 {
            assert(s[i] == name[i]);
        } else if i < 19 {
            assert(s[i] == data_mark()[i - 13]);
        } else {
            assert(s[i] == data[i - 19]);
        }
    }
}

proof fn lemma_frame_ends(data: Seq<char>)
    requires
        one_line(data),
    ensures
        first_at(state_frame(data), frame_end(), 19 + data.len() as int),
{
    let s = state_frame(data);
    let n = 19 + data.len() as int;
    lemma_frame_feeds(data);
    assert(s.subrange(n, n + 2) =~= frame_end());
    assert forall|j: int| 0 <= j < n implies !occurs_at(s, frame_end(), j) by {
        if occurs_at(s, frame_end(), j) {
            let at = s.subrange(j, j + 2);
            assert(at[0] == s[j] && at[1] == s[j + 1]);
            assert(s[13] != '\n');
        }
    }
}

proof fn lemma_one_frame(s: Seq<char>)
    requires
        s.len() >= 2,
        first_at(s, frame_end(), s.len() - 2),
    ensures
        payloads(s) == data_lines(s),
        unfinished(s) == Seq::<char>::empty(),
{
    let n = s.len() as int;
    lemma_first_is(s, frame_end(), n - 2);
    assert(s.take(n) =~= s);
    let left = s.skip(n);
    assert(left =~= Seq::<char>::empty());
    assert(!occurs(left, frame_end()));
    assert(payloads(left) =~= Seq::<Seq<char>>::empty());
    assert(data_lines(s) + payloads(left) =~= data_lines(s));
    assert(unfinished(left) == left);
    assert(unfinished(s) == unfinished(left));
}

/// A frame whose data is one line carries just that data, and nothing of it is left over.
pub proof fn law_frame_carries_its_data(data: Seq<char>)
    requires
        one_line(data),
    ensures
        payloads(state_frame(data)) == seq![data],
        unfinished(state_frame(data)) == Seq::<char>::empty(),
{
    lemma_frame_feeds(data);
    lemma_frame_ends(data);
    lemma_one_frame(state_frame(data));
    lemma_frame_lines(data);
}

proof fn lemma_frame_lines(data: Seq<char>)
    requires
        one_line(data),
    ensures
        data_lines(state_frame(data)) == seq![data],
{
    reveal_strlit("event: state");
    let s = state_frame(data);
    let name = "event: state"@;
    assert(forall|i: int| 0 <= i < 12 ==> s[i] == name[i]);
    lemma_line_len_is(s, 12);
    let line = s.take(12);
    assert(line.last() == 'e');
    assert(line.take(6)[0] == 'e');
    assert(data_mark()[0] == 'd');
    assert(line_data(without_return(line)) =~= Seq::<Seq<char>>::empty());
    let rest = s.skip(13);
    assert(rest =~= data_mark() + data + frame_end());
    let n = 6 + data.len() as int;
    assert forall|i: int| 0 <= i < n implies rest[i] != '\n' by {
        if i < 6 {
            assert(rest[i] == data_mark()[i]);
        } else {
            assert(rest[i] == data[i - 6]);
        }
    }
    assert(rest[n] == '\n');
    lemma_line_len_is(rest, n);
    let carried = rest.take(n);
    assert(carried =~= data_mark() + data);
    if data.len() > 0 {
        assert(carried.last() == data.last());
    } else {
        assert(carried.last() == data_mark()[5]);
    }
    assert(carried.take(6) =~= data_mark());
    assert(carried.skip(6) =~= data);
    assert(line_data(without_return(carried)) =~= seq![data]);
    let end = rest.skip(n + 1);
    assert(end =~= seq!['\n']);
    lemma_line_len_is(end, 0);
    assert(without_return(end.take(0)).len() == 0);
    let empty = end.skip(1);
    assert(empty.len() == 0);
    assert(data_lines(empty) =~= Seq::<Seq<char>>::empty());
    assert(data_lines(end) =~= Seq::<Seq<char>>::empty());
    assert(data_lines(rest) =~= seq![data]);
    assert(data_lines(s) =~= seq![data]);
}

/// What the daemon shows is what the tray shows: the text of a snapshot, sent in a frame, is
/// published as one state, which wraps just that snapshot and has the tree's most severe status.
pub proof fn law_tray_shows_what_the_daemon_sends(t: Tree, at: u128, text: Seq<char>)
    requires
        is_snapshot_text(t, at, text),
    ensures
        exists|shown: JsonView|
            {
                &&& #[trigger] shows(t, at, shown)
                &&& states_for(payloads(state_frame(text))) == seq![wrapped(shown)]
                &&& shown_aggregate(wrapped(shown)) == label(worst(t))
            },
{
    let shown = choose|shown: JsonView|
        {
            &&& #[trigger] shows(t, at, shown)
            &&& text == compact_text(shown)
            &&& one_line(text)
            &&& reads_as(text, shown)
        };
    law_frame_carries_its_data(text);
    let one = seq![text];
    assert(one.drop_last() =~= Seq::empty());
    assert(states_for(one.drop_last()) =~= Seq::<JsonView>::empty());
    assert(states_for(one) =~= seq![wrapped(shown)]);
    crate::laws::shown::law_tray_shows_the_worst(t, at, shown);
}

proof fn lemma_decode_add(a: Seq<u8>, b: Seq<u8>)
    requires
        valid_utf8(a),
        valid_utf8(b),
    ensures
        valid_utf8(a + b),
        decode_utf8(a + b) == decode_utf8(a) + decode_utf8(b),
    decreases a.len(),
{
    valid_utf8_concat(a, b);
    if a.len() == 0 {
        assert(a + b =~= b);
        assert(decode_utf8(a) + decode_utf8(b) =~= decode_utf8(b));
    } else {
        let rest = pop_first_scalar(a);
        assert(rest.len() < a.len());
        lemma_decode_add(rest, b);
        assert(pop_first_scalar(a + b) =~= rest + b);
        assert(decode_first_scalar(a + b) == decode_first_scalar(a));
        assert(decode_utf8(a + b) =~= decode_utf8(a) + decode_utf8(b));
    }
}

proof fn lemma_states_add(a: Seq<Seq<char>>, b: Seq<Seq<char>>)
    ensures
        states_for(a + b) == states_for(a) + states_for(b),
    decreases b.len(),
{
    if b.len() == 0 {
        assert(a + b =~= a);
        assert(states_for(a) + states_for(b) =~= states_for(a));
    } else {
        assert((a + b).drop_last() =~= a + b.drop_last());
        lemma_states_add(a, b.drop_last());
        assert(states_for(a + b) =~= states_for(a) + states_for(b));
    }
}

/// It makes no difference how the body is cut into chunks between two characters: what is
/// published, and what is left over, is the same for a chunk after a chunk as for both in one.
pub proof fn law_byte_chunks_make_no_difference(
    l: LinkView,
    a: Vec<u8>,
    b: Vec<u8>,
    both: Vec<u8>,
)
    requires
        both@ == a@ + b@,
        valid_utf8(a@),
        valid_utf8(b@),
    ensures
        ({
            let (first, at_first) = link_step(l, LinkEvent::Chunk { bytes: a });
            let (then, at_then) = link_step(first, LinkEvent::Chunk { bytes: b });
            let (whole, at_once) = link_step(l, LinkEvent::Chunk { bytes: both });
            &&& then == whole
            &&& at_first.publish + at_then.publish == at_once.publish
        }),
{
    lemma_decode_add(a@, b@);
    let s = l.pending + decode_utf8(a@);
    assert(l.pending + decode_utf8(both@) =~= s + decode_utf8(b@));
    law_chunks_make_no_difference(s, decode_utf8(b@));
    lemma_states_add(payloads(s), payloads(unfinished(s) + decode_utf8(b@)));
}

/// The bytes of a frame with the text of a snapshot, as they come in on a new answer, are published
/// as the one state that wraps that snapshot.
pub proof fn law_tray_shows_the_bytes_that_come_in(
    t: Tree,
    at: u128,
    text: Seq<char>,
    l: LinkView,
    bytes: Vec<u8>,
)
    requires
        is_snapshot_text(t, at, text),
        l.pending == Seq::<char>::empty(),
        bytes@ == encode_utf8(state_frame(text)),
    ensures
        exists|shown: JsonView|
            {
                &&& #[trigger] shows(t, at, shown)
                &&& link_step(l, LinkEvent::Chunk { bytes }).1.publish == seq![wrapped(shown)]
            },
{
    encode_utf8_valid_utf8(state_frame(text));
    encode_utf8_decode_utf8(state_frame(text));
    law_tray_shows_what_the_daemon_sends(t, at, text);
    assert(l.pending + state_frame(text) =~= state_frame(text));
}

/// An attempt that ends, in whatever way, shows the daemon out of reach and is tried again after a
/// wait; while one lasts, neither happens.
pub proof fn law_every_end_shows_unreachable(l: LinkView, ev: LinkEvent)
    ensures
        link_step(l, ev).1.retry <==> (ev is SendFailed || ev is ChunkFailed || ev is Ended || ev
            == (LinkEvent::Answered { success: false })),
        link_step(l, ev).1.retry ==> link_step(l, ev).1.publish == seq![out_of_reach()],
        link_step(l, ev).1.retry ==> link_step(l, ev).1.wait_secs == RETRY_SECS,
{
}

/// An event that ends an attempt.
pub open spec fn ends_attempt(ev: LinkEvent) -> bool {
    ev is SendFailed || ev is ChunkFailed || ev is Ended || ev == (LinkEvent::Answered {
        success: false,
    })
}

/// What a row of events makes of a connection.
pub open spec fn link_after(l: LinkView, evs: Seq<LinkEvent>) -> LinkView
    decreases evs.len(),
{
    if evs.len() == 0 {
        l
    } else {
        link_step(link_after(l, evs.drop_last()), evs.last()).0
    }
}

/// What is to be done about each of a row of events.
pub open spec fn link_actions(l: LinkView, evs: Seq<LinkEvent>) -> Seq<LinkActionView>
    decreases evs.len(),
{
    if evs.len() == 0 {
        Seq::empty()
    } else {
        link_actions(l, evs.drop_last()).push(
            link_step(link_after(l, evs.drop_last()), evs.last()).1,
        )
    }
}

/// All that is published for a row of events, in its order.
pub open spec fn published(l: LinkView, evs: Seq<LinkEvent>) -> Seq<JsonView>
    decreases evs.len(),
{
    if evs.len() == 0 {
        Seq::empty()
    } else {
        published(l, evs.drop_last()) + link_actions(l, evs).last().publish
    }
}

/// Whatever happens on the connection, in whatever order: an attempt is followed by another one
/// exactly when an event ends it, after a wait of three seconds, and what is published then is that
/// the daemon is out of reach.
pub proof fn law_every_attempt_is_followed_by_another(l: LinkView, evs: Seq<LinkEvent>, i: int)
    requires
        0 <= i < evs.len(),
    ensures
        link_actions(l, evs).len() == evs.len(),
        link_actions(l, evs)[i].retry <==> ends_attempt(evs[i]),
        ends_attempt(evs[i]) ==> link_actions(l, evs)[i].publish == seq![out_of_reach()],
        ends_attempt(evs[i]) ==> link_actions(l, evs)[i].wait_secs == 3,
    decreases evs.len(),
{
    let rest = evs.drop_last();
    lemma_one_action_each(l, rest);
    if i < rest.len() {
        law_every_attempt_is_followed_by_another(l, rest, i);
    } else {
        law_every_end_shows_unreachable(link_after(l, rest), evs[i]);
    }
}

proof fn lemma_one_action_each(l: LinkView, evs: Seq<LinkEvent>)
    ensures
        link_actions(l, evs).len() == evs.len(),
    decreases evs.len(),
{
    if evs.len() > 0 {
        lemma_one_action_each(l, evs.drop_last());
    }
}

/// However an attempt ends, the last thing published up to then, over all attempts, is that the
/// daemon is out of reach.
pub proof fn law_unreachable_is_published_last(l: LinkView, evs: Seq<LinkEvent>)
    requires
        evs.len() > 0,
        ends_attempt(evs.last()),
    ensures
        published(l, evs).len() > 0,
        published(l, evs).last() == out_of_reach(),
{
    law_every_end_shows_unreachable(link_after(l, evs.drop_last()), evs.last());
}

/// A daemon that stays away is logged once: a failure is told after a stream that ended well and
/// not after another failure.
pub proof fn law_failure_is_told_once(l: LinkView, fails: LinkEvent, again: LinkEvent)
    requires
        fails is SendFailed || fails == (LinkEvent::Answered { success: false }),
        again is SendFailed || again == (LinkEvent::Answered { success: false }),
    ensures
        l.was_connected <==> link_step(l, fails).1.log != LinkLog::Nothing,
        link_step(link_step(l, fails).0, again).1.log == LinkLog::Nothing,
        link_step(link_step(l, LinkEvent::Ended).0, again).1.log != LinkLog::Nothing,
{
}

/// A new answer starts with nothing left over from the one before.
pub proof fn law_reconnect_starts_afresh(l: LinkView)
    ensures
        link_step(l, LinkEvent::Answered { success: true }).0.pending == Seq::<char>::empty(),
        link_step(l, LinkEvent::Answered { success: true }).1.log == LinkLog::Connected,
{
}

} // verus!
