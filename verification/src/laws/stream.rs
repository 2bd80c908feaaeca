//! Laws of the event stream, line by line and event by event.

use vstd::prelude::*;
use vstd::utf8::{decode_utf8, valid_utf8};

use crate::clock::{duration_nanos, Reading};
use crate::daemon::{ingests, is_snapshot_text, reaps, Config, Ingested};
use crate::feed::{
    data_lines, data_mark, frame_end, line_data, line_len, link_step, lossy_text, payloads,
    states_for, text_of_bytes, unfinished, without_return, LinkEvent, LinkLog, LinkView,
};
use crate::json::JsonView;
use crate::laws::texts::stands;
use crate::model::{purged, step, Tree};
use crate::state::snapshot::shows;
use crate::text::{first_at, lemma_first_is, occurs, occurs_at};
use crate::tray::wrapped;
use crate::wire::str_reads;

verus! {

/// The line is marked as data.
pub open spec fn marked(line: Seq<char>) -> bool {
    stands(line, "data: "@, 0)
}

proof fn lemma_mark()
    ensures
        "data: "@ == data_mark(),
        "data: "@.len() == 6,
{
    reveal_strlit("data: ");
    assert("data: "@ =~= data_mark());
}

proof fn lemma_line_data(line: Seq<char>)
    ensures
        marked(line) ==> line_data(line) == seq![line.skip(6)],
        !marked(line) ==> line_data(line) == Seq::<Seq<char>>::empty(),
{
    lemma_mark();
    if marked(line) {
        assert forall|k: int| 0 <= k < 6 implies line.take(6)[k] == data_mark()[k] by {
            assert(line[0 + k] == "data: "@[k]);
        }
        assert(line.take(6) =~= data_mark());
    } else if line.len() >= 6 && line.take(6) == data_mark() {
        assert forall|k: int| 0 <= k < 6 implies line[0 + k] == #[trigger] "data: "@[k] by {
            assert(line.take(6)[k] == line[k]);
        }
    }
}

proof fn lemma_line_len_up_to(s: Seq<char>, n: int)
    requires
        0 <= n <= s.len(),
        forall|i: int| 0 <= i < n ==> s[i] != '\n',
        n == s.len() || s[n] == '\n',
    ensures
        line_len(s) == n,
    decreases n,
{
    if n > 0 {
        let rest = s.skip(1);
        assert forall|i: int| 0 <= i < n - 1 implies rest[i] != '\n' by {
            assert(rest[i] == s[i + 1]);
        }
        lemma_line_len_up_to(rest, n - 1);
    }
}

/// Line by line: one that is marked as data carries what stands behind the mark, up to a carriage
/// return at its end; no other carries anything.
pub proof fn law_marked_lines_carry_data(line: Seq<char>, rest: Seq<char>)
    requires
        forall|i: int| 0 <= i < line.len() ==> #[trigger] line[i] != '\n',
    ensures
        ({
            let s = line + seq!['\n'] + rest;
            let cut = if line.len() > 0 && line[line.len() - 1] == '\r' {
                line.take(line.len() - 1)
            } else {
                line
            };
            &&& marked(line) && cut.len() >= 6 ==> data_lines(s) == seq![cut.skip(6)] + data_lines(
                rest,
            )
            &&& !marked(line) ==> data_lines(s) == data_lines(rest)
        }),
        marked(line) ==> data_lines(line) == seq![line.skip(6)],
        !marked(line) ==> data_lines(line) == Seq::<Seq<char>>::empty(),
{
    let s = line + seq!['\n'] + rest;
    let n = line.len() as int;
    assert forall|i: int| 0 <= i < n implies s[i] != '\n' by {
        assert(s[i] == line[i]);
    }
    assert(s[n] == '\n');
    lemma_line_len_up_to(s, n);
    assert(s.take(n) =~= line);
    assert(s.skip(n + 1) =~= rest);
    let cut = without_return(line);
    if n > 0 && line[n - 1] == '\r' {
        assert(cut =~= line.take(n - 1));
    }
    lemma_mark();
    lemma_line_data(cut);
    lemma_line_data(line);
    if marked(line) && cut.len() >= 6 {
        assert forall|k: int| 0 <= k < 6 implies cut[0 + k] == #[trigger] "data: "@[k] by {
            assert(line[0 + k] == "data: "@[k]);
        }
        assert(marked(cut));
    }
    if marked(cut) {
        assert forall|k: int| 0 <= k < 6 implies line[0 + k] == #[trigger] "data: "@[k] by {
            assert(cut[0 + k] == "data: "@[k]);
        }
        assert(marked(line));
    }
    assert(Seq::<Seq<char>>::empty() + data_lines(rest) =~= data_lines(rest));
    assert forall|i: int| 0 <= i < line.len() implies line[i] != '\n' by {}
    lemma_line_len_up_to(line, n);
}

/// Frame by frame: the first blank line ends a frame, which carries what its lines carry; what
/// follows is read on by itself. Without a blank line there is no frame, and all of it is left
/// over.
pub proof fn law_blank_lines_end_frames(frame: Seq<char>, rest: Seq<char>, s: Seq<char>)
    requires
        forall|i: int|
            0 <= i < frame.len() ==> !stands(frame + seq!['\n', '\n'], seq!['\n', '\n'], i),
        forall|i: int| !stands(s, seq!['\n', '\n'], i),
    ensures
        payloads(frame + seq!['\n', '\n'] + rest) == data_lines(frame + seq!['\n', '\n'])
            + payloads(rest),
        unfinished(frame + seq!['\n', '\n'] + rest) == unfinished(rest),
        payloads(s) == Seq::<Seq<char>>::empty(),
        unfinished(s) == s,
{
    let blank = seq!['\n', '\n'];
    assert(blank =~= frame_end());
    let whole = frame + blank + rest;
    let n = frame.len() as int;
    assert(whole.subrange(n, n + 2) =~= blank);
    assert forall|j: int| 0 <= j < n implies !occurs_at(whole, frame_end(), j) by {
        if occurs_at(whole, frame_end(), j) {
            let at = whole.subrange(j, j + 2);
            assert(at[0] == whole[j] && at[1] == whole[j + 1]);
            assert((frame + blank)[j] == whole[j] && (frame + blank)[j + 1] == whole[j + 1]);
            assert(stands(frame + blank, blank, j));
        }
    }
    assert(first_at(whole, frame_end(), n));
    lemma_first_is(whole, frame_end(), n);
    assert(whole.take(n + 2) =~= frame + blank);
    assert(whole.skip(n + 2) =~= rest);
    if occurs(s, frame_end()) {
        let i = choose|i: int| occurs_at(s, frame_end(), i);
        let at = s.subrange(i, i + 2);
        assert(at[0] == s[i] && at[1] == s[i + 1]);
        assert(stands(s, blank, i));
    }
}

/// Each payload that reads is published, wrapped, in its order, and none that does not.
pub proof fn law_what_reads_is_published(before: Seq<Seq<char>>, payload: Seq<char>)
    ensures
        states_for(Seq::empty()) == Seq::<JsonView>::empty(),
        str_reads(payload) matches Ok(v) ==> states_for(before.push(payload)) == states_for(
            before,
        ).push(wrapped(v)),
        str_reads(payload) is Err ==> states_for(before.push(payload)) == states_for(before),
{
    assert(before.push(payload).drop_last() =~= before);
}

/// What each event on the connection is answered with. A failure is logged as what it is, unless
/// the attempt before failed too; a stream that ends well is the end of a good attempt; bytes that
/// come in are read on from what was left over.
pub proof fn law_each_link_event(l: LinkView, bytes: Vec<u8>)
    ensures
        ({
            let (after, action) = link_step(l, LinkEvent::SendFailed);
            &&& !after.was_connected && after.pending == l.pending
            &&& action.log == (if l.was_connected {
                LinkLog::Unreachable
            } else {
                LinkLog::Nothing
            })
            &&& action.retry && action.wait_secs == 3
        }),
        ({
            let (after, action) = link_step(l, LinkEvent::Answered { success: false });
            &&& !after.was_connected && after.pending == l.pending
            &&& action.log == (if l.was_connected {
                LinkLog::BadStatus
            } else {
                LinkLog::Nothing
            })
            &&& action.retry && action.wait_secs == 3
        }),
        ({
            let (after, action) = link_step(l, LinkEvent::Answered { success: true });
            &&& after.was_connected == l.was_connected && after.pending.len() == 0
            &&& action.log == LinkLog::Connected && action.publish.len() == 0
            &&& !action.retry && action.wait_secs == 0
        }),
        ({
            let (after, action) = link_step(l, LinkEvent::ChunkFailed);
            &&& !after.was_connected && after.pending == l.pending
            &&& action.log == LinkLog::Nothing && action.retry && action.wait_secs == 3
        }),
        ({
            let (after, action) = link_step(l, LinkEvent::Ended);
            &&& after.was_connected && after.pending == l.pending
            &&& action.log == LinkLog::Nothing && action.retry && action.wait_secs == 3
        }),
        ({
            let (after, action) = link_step(l, LinkEvent::Chunk { bytes });
            let s = l.pending + text_of_bytes(bytes@);
            &&& valid_utf8(bytes@) ==> text_of_bytes(bytes@) == decode_utf8(bytes@)
            &&& !valid_utf8(bytes@) ==> text_of_bytes(bytes@) == lossy_text(bytes@)
            &&& after.was_connected == l.was_connected && after.pending == unfinished(s)
            &&& action.publish == states_for(payloads(s))
            &&& action.log == LinkLog::Nothing && !action.retry && action.wait_secs == 0
        }),
{
}

/// A body that does not read changes nothing and is dropped with the reason. One that reads does to
/// the tree what its event does, and a snapshot of the new tree, as of that time, goes out exactly
/// where that counts as a change.
pub proof fn law_bodies_are_taken_in(
    read: Result<JsonView, Seq<char>>,
    before: Tree,
    after: Tree,
    now: Reading,
    r: Ingested,
)
    requires
        ingests(read, before, after, now, r),
    ensures
        read matches Err(e) ==> after == before && (r matches Ingested::Dropped(s) && s@ == e),
        read matches Ok(ev) ==> ({
            &&& (after, r is Changed) == step(before, ev, now)
            &&& r is Changed || r is Unchanged
            &&& r matches Ingested::Changed(s) ==> is_snapshot_text(after, now.at, s@)
        }),
{
}

/// A round of removal goes by the two times of its settings, each for its own, and a snapshot of
/// what is left goes out exactly where something was removed.
pub proof fn law_rounds_go_by_the_settings(
    config: Config,
    before: Tree,
    after: Tree,
    at: u128,
    r: Option<String>,
)
    requires
        reaps(config, before, after, at, r),
    ensures
        after == purged(
            before,
            duration_nanos(config.stale_ttl),
            duration_nanos(config.done_ttl),
            at,
        ),
        r is Some <==> after != before,
        r matches Some(s) ==> is_snapshot_text(after, at, s@),
{
    crate::laws::tree::law_purge_reports_change(
        before,
        duration_nanos(config.stale_ttl),
        duration_nanos(config.done_ttl),
        at,
    );
}

/// The text of a snapshot reads as what the tree looks like, and is one line.
pub proof fn law_snapshot_text_reads_as_the_tree(t: Tree, at: u128, text: Seq<char>, i: int)
    requires
        is_snapshot_text(t, at, text),
    ensures
        str_reads(text) is Ok,
        shows(t, at, str_reads(text)->Ok_0),
        0 <= i < text.len() ==> text[i] != '\n' && text[i] != '\r',
{
}

} // verus!
