//! Laws of the daemon over all that it takes in.

use vstd::prelude::*;

use crate::clock::{duration_nanos, Reading};
use crate::daemon::{ingests, is_snapshot_text, reaps, Config, Ingested};
use crate::json::JsonView;
use crate::model::{any_expired, purged, step, Tree};

verus! {

/// What the daemon does to its tree: take in a body, which reads so, or a round of removal.
#[verifier::ext_equal]
pub enum Deed {
    Body { read: Result<JsonView, Seq<char>>, now: Reading },
    Round { at: u128 },
}

/// What a deed makes of the tree, and whether it counts as a change.
pub open spec fn deed_step(config: Config, t: Tree, deed: Deed) -> (Tree, bool) {
    match deed {
        Deed::Body { read: Ok(ev), now } => step(t, ev, now),
        Deed::Body { read: Err(_), now } => (t, false),
        Deed::Round { at } => (
            purged(t, duration_nanos(config.stale_ttl), duration_nanos(config.done_ttl), at),
            any_expired(t, duration_nanos(config.stale_ttl), duration_nanos(config.done_ttl), at),
        ),
    }
}

/// The time of a deed on the monotonic clock.
pub open spec fn deed_time(deed: Deed) -> u128 {
    match deed {
        Deed::Body { read, now } => now.at,
        Deed::Round { at } => at,
    }
}

/// What a row of deeds makes of the tree.
pub open spec fn after_deeds(config: Config, t: Tree, deeds: Seq<Deed>) -> Tree
    decreases deeds.len(),
{
    if deeds.len() == 0 {
        t
    } else {
        deed_step(config, after_deeds(config, t, deeds.drop_last()), deeds.last()).0
    }
}

/// The texts are the snapshots of a row of deeds: one for each deed that counts as a change, of
/// the tree right after it and as of its time, in their order, and none for any other.
pub open spec fn announces(config: Config, t: Tree, deeds: Seq<Deed>, texts: Seq<Seq<char>>) -> bool
    decreases deeds.len(),
{
    if deeds.len() == 0 {
        texts.len() == 0
    } else {
        let rest = deeds.drop_last();
        let (after, changed) = deed_step(config, after_deeds(config, t, rest), deeds.last());
        if changed {
            &&& texts.len() > 0
            &&& is_snapshot_text(after, deed_time(deeds.last()), texts.last())
            &&& announces(config, t, rest, texts.drop_last())
        } else {
            announces(config, t, rest, texts)
        }
    }
}

/// The text to send out for what became of a body.
pub open spec fn sent_of(r: Ingested) -> Option<Seq<char>> {
    match r {
        Ingested::Changed(text) => Some(text@),
        _ => None,
    }
}

/// The text to send out for a round of removal.
pub open spec fn sent_of_round(r: Option<String>) -> Option<Seq<char>> {
    match r {
        Some(text) => Some(text@),
        None => None,
    }
}

/// A deed is done as the daemon does it, and this is sent out for it.
pub open spec fn does(
    config: Config,
    deed: Deed,
    before: Tree,
    after: Tree,
    sent: Option<Seq<char>>,
) -> bool {
    match deed {
        Deed::Body { read, now } => exists|r: Ingested|
            #[trigger] ingests(read, before, after, now, r) && sent == sent_of(r),
        Deed::Round { at } => exists|r: Option<String>|
            #[trigger] reaps(config, before, after, at, r) && sent == sent_of_round(r),
    }
}

/// The tree goes through `trees` while a row of deeds is done one after the other, and `sent` is
/// what is sent out for each.
pub open spec fn does_all(
    config: Config,
    deeds: Seq<Deed>,
    trees: Seq<Tree>,
    sent: Seq<Option<Seq<char>>>,
) -> bool {
    &&& trees.len() == deeds.len() + 1
    &&& sent.len() == deeds.len()
    &&& forall|i: int|
        0 <= i < deeds.len() ==> #[trigger] does(
            config,
            deeds[i],
            trees[i],
            trees[i + 1],
            sent[i],
        )
}

/// The texts among what is sent out, in their order.
pub open spec fn texts_sent(sent: Seq<Option<Seq<char>>>) -> Seq<Seq<char>>
    decreases sent.len(),
{
    if sent.len() == 0 {
        Seq::empty()
    } else {
        match sent.last() {
            Some(text) => texts_sent(sent.drop_last()).push(text),
            None => texts_sent(sent.drop_last()),
        }
    }
}

/// The deeds without the bodies that do not read.
pub open spec fn readable(deeds: Seq<Deed>) -> Seq<Deed>
    decreases deeds.len(),
{
    if deeds.len() == 0 {
        deeds
    } else {
        match deeds.last() {
            Deed::Body { read: Err(_), now } => readable(deeds.drop_last()),
            deed => readable(deeds.drop_last()).push(deed),
        }
    }
}

/// Whatever comes in, in whatever order: the tree at the end is what all deeds make of it, one
/// after the other, and what is sent out is one snapshot per change, taken right after it.
pub proof fn law_one_snapshot_per_change(
    config: Config,
    deeds: Seq<Deed>,
    trees: Seq<Tree>,
    sent: Seq<Option<Seq<char>>>,
)
    requires
        does_all(config, deeds, trees, sent),
    ensures
        trees.last() == after_deeds(config, trees[0], deeds),
        announces(config, trees[0], deeds, texts_sent(sent)),
    decreases deeds.len(),
{
    if deeds.len() > 0 {
        let n = deeds.len() - 1;
        let rest = deeds.drop_last();
        assert forall|i: int| 0 <= i < rest.len() implies #[trigger] does(
            config,
            rest[i],
            trees.drop_last()[i],
            trees.drop_last()[i + 1],
            sent.drop_last()[i],
        ) by {
            assert(does(config, deeds[i], trees[i], trees[i + 1], sent[i]));
        }
        law_one_snapshot_per_change(config, rest, trees.drop_last(), sent.drop_last());
        assert(does(config, deeds[n], trees[n], trees[n + 1], sent[n]));
        assert(trees[n] == after_deeds(config, trees[0], rest));
        match sent.last() {
            Some(text) => {
                assert(texts_sent(sent).drop_last() =~= texts_sent(sent.drop_last()));
            },
            None => {},
        }
    }
}

/// A body that does not read is dropped and stops nothing: the tree and the snapshots are those of
/// the other deeds alone.
pub proof fn law_unreadable_bodies_stop_nothing(
    config: Config,
    t: Tree,
    deeds: Seq<Deed>,
    texts: Seq<Seq<char>>,
)
    ensures
        after_deeds(config, t, deeds) == after_deeds(config, t, readable(deeds)),
        announces(config, t, deeds, texts) == announces(config, t, readable(deeds), texts),
    decreases deeds.len(),
{
    if deeds.len() > 0 {
        let rest = deeds.drop_last();
        law_unreadable_bodies_stop_nothing(config, t, rest, texts);
        law_unreadable_bodies_stop_nothing(config, t, rest, texts.drop_last());
        match deeds.last() {
            Deed::Body { read: Err(_), now } => {},
            deed => {
                assert(readable(deeds).drop_last() =~= readable(rest));
            },
        }
    }
}

} // verus!
