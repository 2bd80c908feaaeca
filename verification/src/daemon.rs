//! What the daemon decides: its settings, what it makes of a request, what it sends out.

use std::time::Duration;

use vstd::prelude::*;

use crate::clock::{duration_nanos, Reading};
use crate::json::{Json, JsonView};
use crate::model::{any_expired, purged, step, Tree};
use crate::state::snapshot::shows;
use crate::state::{str_view, Store};
use crate::text::{parse_u64, parsed_u64};
use crate::wire::{
    compact, compact_text, lemma_plain_deeper, one_line, parse_bytes, read_view, reads_as,
    slice_reads,
};

verus! {

/// How long things may last.
#[derive(Clone, Copy)]
pub struct Config {
    /// Silence after which a node is removed.
    pub stale_ttl: Duration,
    /// Silence after which a finished subagent is removed.
    pub done_ttl: Duration,
    /// Time between two rounds of removal.
    pub reap_interval: Duration,
}

impl Default for Config {
    fn default() -> (r: Config)
        ensures
            duration_nanos(r.stale_ttl) == 300 * 1_000_000_000,
            duration_nanos(r.done_ttl) == 60 * 1_000_000_000,
            duration_nanos(r.reap_interval) == 15 * 1_000_000_000,
    {
        Config {
            stale_ttl: Duration::from_secs(300),
            done_ttl: Duration::from_secs(60),
            reap_interval: Duration::from_secs(15),
        }
    }
}

/// The number of nanoseconds in the seconds that a variable gives, or the default where it is not
/// set or no number.
pub open spec fn nanos_or(var: Option<Seq<char>>, default_secs: nat) -> nat {
    match var {
        Some(s) => match parsed_u64(s) {
            Some(secs) => secs as nat * 1_000_000_000,
            None => default_secs * 1_000_000_000,
        },
        None => default_secs * 1_000_000_000,
    }
}

fn secs_or(var: Option<&str>, default: Duration) -> (r: Duration)
    ensures
        match str_view(var) {
            Some(s) => match parsed_u64(s) {
                Some(secs) => duration_nanos(r) == secs * 1_000_000_000,
                None => r == default,
            },
            None => r == default,
        },
{
    match var {
        Some(s) => match parse_u64(s) {
            Some(secs) => Duration::from_secs(secs),
            None => default,
        },
        None => default,
    }
}

impl Config {
    /// The settings that the environment makes: the values of its two variables for the times of
    /// removal, each given where it is set.
    pub fn from_env(ttl_secs: Option<&str>, done_ttl_secs: Option<&str>) -> (r: Config)
        ensures
            duration_nanos(r.stale_ttl) == nanos_or(str_view(ttl_secs), 300),
            duration_nanos(r.done_ttl) == nanos_or(str_view(done_ttl_secs), 60),
            duration_nanos(r.reap_interval) == 15 * 1_000_000_000,
    {
        let d = Config::default();
        Config {
            stale_ttl: secs_or(ttl_secs, d.stale_ttl),
            done_ttl: secs_or(done_ttl_secs, d.done_ttl),
            reap_interval: d.reap_interval,
        }
    }
}

/// The name under which snapshots go out on the event stream.
pub const STATE_EVENT: &'static str = "state";

/// The answer to a hook request.
pub struct HookAnswer {
    pub status: u16,
    pub body: Vec<u8>,
}

/// Answers a hook request, whether or not its payload could be handed on: no content, always. A
/// body would end up in the conversation of the agent that sent the request.
pub fn answer_hook(handed_on: bool) -> (r: HookAnswer)
    ensures
        r.status == 204,
        r.body@.len() == 0,
{
    HookAnswer { status: 204, body: Vec::new() }
}

/// What became of a payload.
pub enum Ingested {
    /// It was no JSON; the error says why.
    Dropped(String),
    /// It changed nothing.
    Unchanged,
    /// It changed the tree, which the snapshot shows.
    Changed(String),
}

/// The text is the compact form of what the tree looks like at that time: one line, which reads
/// as just that.
pub open spec fn is_snapshot_text(t: Tree, at: u128, text: Seq<char>) -> bool {
    exists|shown: JsonView|
        {
            &&& #[trigger] shows(t, at, shown)
            &&& text == compact_text(shown)
            &&& one_line(text)
            &&& reads_as(text, shown)
        }
}

/// What a payload that reads so does to the tree, and what becomes of it.
pub open spec fn ingests(
    read: Result<JsonView, Seq<char>>,
    before: Tree,
    after: Tree,
    now: Reading,
    r: Ingested,
) -> bool {
    match read {
        Err(e) => after == before && (r matches Ingested::Dropped(s) && s@ == e),
        Ok(ev) => {
            let (t, changed) = step(before, ev, now);
            &&& after == t
            &&& if changed {
                r matches Ingested::Changed(s) && is_snapshot_text(t, now.at, s@)
            } else {
                r is Unchanged
            }
        },
    }
}

/// The text of the store's snapshot at a given time.
pub fn snapshot_text_at(store: &Store, at: u128) -> (r: String)
    requires
        store.valid(),
    ensures
        is_snapshot_text(store@, at, r@),
{
    let shown = store.snapshot_at(at);
    proof {
        lemma_plain_deeper(shown@, 3, 127);
    }
    compact(shown)
}

/// The text of the store's snapshot.
pub fn snapshot_text(store: &Store) -> (r: String)
    requires
        store.valid(),
    ensures
        exists|at: u128|
            store.timer().shows(at) && #[trigger] is_snapshot_text(store@, at, r@),
{
    let at: u128 = store.now().at;
    snapshot_text_at(store, at)
}

/// Takes in what reading a payload gave, with what the clocks said when it came.
pub fn ingest_at(store: &mut Store, read: Result<Json, String>, now: &Reading) -> (r: Ingested)
    requires
        old(store).valid(),
    ensures
        final(store).valid(),
        final(store).timer() == old(store).timer(),
        ingests(read_view(read), old(store)@, final(store)@, *now, r),
{
    match read {
        Ok(event) => if store.apply_at(&event, now) {
            Ingested::Changed(snapshot_text_at(store, now.at))
        } else {
            Ingested::Unchanged
        },
        Err(e) => Ingested::Dropped(e),
    }
}

/// Takes in the body of a hook request.
pub fn ingest(store: &mut Store, body: &[u8]) -> (r: Ingested)
    requires
        old(store).valid(),
    ensures
        final(store).valid(),
        final(store).timer() == old(store).timer(),
        exists|now: Reading|
            old(store).timer().reads(now) && #[trigger] ingests(
                slice_reads(body@),
                old(store)@,
                final(store)@,
                now,
                r,
            ),
{
    let read = parse_bytes(body);
    let now = store.now();
    ingest_at(store, read, &now)
}

/// What a round of removal at that time does to the tree, and what it gives.
pub open spec fn reaps(
    config: Config,
    before: Tree,
    after: Tree,
    at: u128,
    r: Option<String>,
) -> bool {
    let stale = duration_nanos(config.stale_ttl);
    let done = duration_nanos(config.done_ttl);
    &&& after == purged(before, stale, done, at)
    &&& match r {
        Some(s) => any_expired(before, stale, done, at) && is_snapshot_text(after, at, s@),
        None => !any_expired(before, stale, done, at),
    }
}

/// A round of removal at a given time. Gives the text of the new snapshot where anything was
/// removed.
pub fn reap_at(store: &mut Store, config: &Config, at: u128) -> (r: Option<String>)
    requires
        old(store).valid(),
    ensures
        final(store).valid(),
        final(store).timer() == old(store).timer(),
        reaps(*config, old(store)@, final(store)@, at, r),
{
    if store.purge_at(config.stale_ttl, config.done_ttl, at) {
        Some(snapshot_text_at(store, at))
    } else {
        None
    }
}

/// A round of removal.
pub fn reap(store: &mut Store, config: &Config) -> (r: Option<String>)
    requires
        old(store).valid(),
    ensures
        final(store).valid(),
        final(store).timer() == old(store).timer(),
        exists|at: u128|
            old(store).timer().shows(at) && #[trigger] reaps(
                *config,
                old(store)@,
                final(store)@,
                at,
                r,
            ),
{
    let at: u128 = store.now().at;
    reap_at(store, config, at)
}

} // verus!
