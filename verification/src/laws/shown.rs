//! Laws of what is shown.

use vstd::prelude::*;

use crate::json::JsonView;
use crate::model::{NodeView, Tree};
use crate::state::snapshot::{
    has_status, label, listed_before, listing, nodes_json, severity, shown_as, shows, worst,
};
use crate::state::Status;
use crate::text::{
    decimal, digit_char, digit_value, digits_value, is_digit, lemma_text_less_not_self,
    lemma_text_less_through, parsed_u64, text_less,
};
use crate::tray::{icon_style_of, out_of_reach, shown_aggregate, tooltip, wrapped, IconStyle};

verus! {

/// The status shown for the whole tree is the most severe one: no node has one that matters more,
/// and some node has it, unless there is none, which shows as idle.
pub proof fn law_worst_is_most_severe(t: Tree)
    ensures
        forall|id: Seq<char>| #[trigger]
            t.contains_key(id) ==> severity(t[id].status) <= severity(worst(t)),
        has_status(t, worst(t)) || t == Map::<Seq<char>, NodeView>::empty() && worst(t)
            == Status::Idle,
{
    assert forall|id: Seq<char>| #[trigger] t.contains_key(id) implies severity(t[id].status)
        <= severity(worst(t)) by {
        assert(has_status(t, t[id].status));
    }
    if !has_status(t, worst(t)) {
        assert forall|id: Seq<char>| !t.contains_key(id) by {
            if t.contains_key(id) {
                assert(has_status(t, t[id].status));
            }
        }
        assert(t =~= Map::<Seq<char>, NodeView>::empty());
    }
}

/// Statuses matter in this order: blocked, working, error, done, idle.
pub proof fn law_severities()
    ensures
        severity(Status::Blocked) > severity(Status::Working),
        severity(Status::Working) > severity(Status::Error),
        severity(Status::Error) > severity(Status::Done),
        severity(Status::Done) > severity(Status::Idle),
{
}

/// Each status has a name of its own.
pub proof fn law_labels_differ(a: Status, b: Status)
    requires
        label(a) == label(b),
    ensures
        a == b,
{
    reveal_strlit("idle");
    reveal_strlit("done");
    reveal_strlit("error");
    reveal_strlit("working");
    reveal_strlit("blocked");
    assert("idle"@.len() == 4 && "done"@.len() == 4 && "error"@.len() == 5);
    assert("working"@.len() == 7 && "blocked"@.len() == 7);
    assert("idle"@[0] == 'i' && "done"@[0] == 'd');
    assert("working"@[0] == 'w' && "blocked"@[0] == 'b');
}

proof fn lemma_not_before_itself(a: NodeView)
    ensures
        !listed_before(a, a),
{
    lemma_text_less_not_self(a.id);
}

proof fn lemma_found(t: Tree, a: Seq<NodeView>, b: Seq<NodeView>, i: int) -> (j: int)
    requires
        listing(t, a),
        listing(t, b),
        0 <= i < a.len(),
    ensures
        0 <= j < b.len(),
        b[j] == a[i],
{
    assert(t.contains_key(a[i].id));
    let j = choose|j: int| 0 <= j < b.len() && (#[trigger] b[j]).id == a[i].id;
    assert(t[b[j].id] == b[j]);
    j
}

proof fn lemma_listings_agree(t: Tree, a: Seq<NodeView>, b: Seq<NodeView>, i: int)
    requires
        listing(t, a),
        listing(t, b),
        0 <= i < a.len(),
    ensures
        i < b.len(),
        a[i] == b[i],
    decreases i,
{
    assert forall|k: int| 0 <= k < i implies k < b.len() && a[k] == b[k] by {
        lemma_listings_agree(t, a, b, k);
    }
    let j = lemma_found(t, a, b, i);
    lemma_not_before_itself(a[i]);
    if j < i {
        assert(a[j] == b[j]);
        assert(listed_before(a[j], a[i]));
    } else if i < j {
        let m = lemma_found(t, b, a, i);
        lemma_not_before_itself(b[i]);
        assert(listed_before(b[i], b[j]));
        if m < i {
            assert(a[m] == b[m]);
            assert(listed_before(b[m], b[i]));
        } else if i < m {
            assert(listed_before(a[i], a[m]));
            if text_less(a[i].id, b[i].id) && text_less(b[i].id, a[i].id) {
                lemma_text_less_through(a[i].id, b[i].id, a[i].id);
            }
        }
    }
}

/// There is one order in which a tree is listed.
pub proof fn law_listing_is_unique(t: Tree, a: Seq<NodeView>, b: Seq<NodeView>)
    requires
        listing(t, a),
        listing(t, b),
    ensures
        a == b,
{
    assert forall|i: int| 0 <= i < a.len() implies i < b.len() && a[i] == b[i] by {
        lemma_listings_agree(t, a, b, i);
    }
    if a.len() < b.len() {
        lemma_listings_agree(t, b, a, a.len() as int);
    }
    if b.len() < a.len() {
        lemma_listings_agree(t, a, b, b.len() as int);
    }
    assert(a =~= b);
}

/// The same tree at the same time always looks the same.
pub proof fn law_snapshot_is_a_function(t: Tree, at: u128, x: JsonView, y: JsonView)
    requires
        shows(t, at, x),
        shows(t, at, y),
    ensures
        x == y,
{
    let a = choose|order: Seq<NodeView>| #[trigger] shown_as(t, at, order, x);
    let b = choose|order: Seq<NodeView>| #[trigger] shown_as(t, at, order, y);
    law_listing_is_unique(t, a, b);
}

/// The tray shows the daemon's status: the name of the most severe one, under the icon of that
/// name, which is never the ring of a daemon out of reach.
pub proof fn law_tray_shows_the_worst(t: Tree, at: u128, shown: JsonView)
    requires
        shows(t, at, shown),
    ensures
        shown_aggregate(wrapped(shown)) == label(worst(t)),
        !icon_style_of(shown_aggregate(wrapped(shown))).hollow,
        icon_style_of(shown_aggregate(out_of_reach())).hollow,
{
    reveal_strlit("aggregate");
    reveal_strlit("nodes");
    assert("aggregate"@.len() != "nodes"@.len());
    lemma_unreachable_is_no_status();
}

proof fn lemma_unreachable_is_no_status()
    ensures
        "unreachable"@ != "blocked"@,
        "unreachable"@ != "working"@,
        "unreachable"@ != "error"@,
        "unreachable"@ != "done"@,
        "unreachable"@ != "idle"@,
{
    reveal_strlit("unreachable");
    reveal_strlit("idle");
    reveal_strlit("done");
    reveal_strlit("error");
    reveal_strlit("working");
    reveal_strlit("blocked");
    assert("unreachable"@.len() == 11);
    assert("idle"@.len() == 4 && "done"@.len() == 4 && "error"@.len() == 5);
    assert("working"@.len() == 7 && "blocked"@.len() == 7);
}

/// Each status has an icon of its own.
pub proof fn law_icons_differ(a: Status, b: Status)
    requires
        icon_style_of(label(a)) == icon_style_of(label(b)),
    ensures
        a == b,
{
    if label(a) != label(b) {
        lemma_icon(a);
        lemma_icon(b);
    } else {
        law_labels_differ(a, b);
    }
}

proof fn lemma_icon(s: Status)
    ensures
        icon_style_of(label(s)) == (match s {
            Status::Blocked => IconStyle { red: 0xf5, green: 0x9e, blue: 0x0b, hollow: false },
            Status::Working => IconStyle { red: 0x3b, green: 0x82, blue: 0xf6, hollow: false },
            Status::Error => IconStyle { red: 0xef, green: 0x44, blue: 0x44, hollow: false },
            Status::Done => IconStyle { red: 0x22, green: 0xc5, blue: 0x5e, hollow: false },
            Status::Idle => IconStyle { red: 0x9c, green: 0xa3, blue: 0xaf, hollow: false },
        }),
{
    if label(s) == label(Status::Blocked) {
        law_labels_differ(s, Status::Blocked);
    } else if label(s) == label(Status::Working) {
        law_labels_differ(s, Status::Working);
    } else if label(s) == label(Status::Error) {
        law_labels_differ(s, Status::Error);
    } else if label(s) == label(Status::Done) {
        law_labels_differ(s, Status::Done);
    }
}

/// A daemon without agents and a daemon out of reach never look alike: neither by the tooltip nor
/// by the icon.
pub proof fn law_no_agents_is_not_unreachable(at: u128, shown: JsonView)
    requires
        shows(Map::empty(), at, shown),
    ensures
        tooltip(wrapped(shown)) == "agentdeck — no agents"@,
        tooltip(out_of_reach()) == "agentdeck — daemon unreachable"@,
        tooltip(wrapped(shown)) != tooltip(out_of_reach()),
        icon_style_of(shown_aggregate(wrapped(shown))) != icon_style_of(
            shown_aggregate(out_of_reach()),
        ),
{
    let t: Tree = Map::empty();
    law_tray_shows_the_worst(t, at, shown);
    reveal_strlit("connected");
    reveal_strlit("aggregate");
    reveal_strlit("nodes");
    assert("connected"@[0] == 'c' && "aggregate"@[0] == 'a' && "nodes"@[0] == 'n');
    let order = choose|order: Seq<NodeView>| #[trigger] shown_as(t, at, order, shown);
    if order.len() > 0 {
        assert(t.contains_key(order[0].id));
    }
    assert(nodes_json(order, at).len() == 0);
    reveal_strlit("agentdeck — no agents");
    reveal_strlit("agentdeck — daemon unreachable");
    assert("agentdeck — no agents"@.len() != "agentdeck — daemon unreachable"@.len());
}

/// A number written in decimal digits reads as that number.
pub proof fn law_decimal_reads_back(n: u64)
    ensures
        parsed_u64(decimal(n as nat)) == Some(n),
{
    lemma_decimal(n as nat);
}

/// A number in decimal digits is at least one digit, digits alone, and denotes the number.
pub proof fn lemma_decimal(n: nat)
    ensures
        decimal(n).len() > 0,
        forall|i: int| 0 <= i < decimal(n).len() ==> is_digit(#[trigger] decimal(n)[i]),
        digits_value(decimal(n)) == n,
    decreases n,
{
    reveal_with_fuel(digits_value, 2);
    if n < 10 {
        let s = decimal(n);
        assert(s.drop_last() =~= Seq::empty());
        assert(is_digit(digit_char(n)) && digit_value(digit_char(n)) == n);
    } else {
        lemma_decimal(n / 10);
        let d = n % 10;
        assert(is_digit(digit_char(d)) && digit_value(digit_char(d)) == d);
        assert(decimal(n).drop_last() =~= decimal(n / 10));
    }
}

} // verus!
