//! What the tray shows.

use vstd::prelude::*;
use vstd::string::StringExecFns;

use crate::json::{add_member, array_view, lemma_array_view, take_member, Json, JsonView};
use crate::text::{decimal, push_decimal, same_str};

verus! {

/// The state while the daemon cannot be reached.
pub open spec fn out_of_reach() -> JsonView {
    JsonView::Object(
        Map::empty().insert("connected"@, JsonView::Bool(false)).insert(
            "aggregate"@,
            JsonView::Str("unreachable"@),
        ).insert("nodes"@, JsonView::Array(Seq::empty())),
    )
}

/// The state while the daemon cannot be reached.
pub fn unreachable_state() -> (r: Json)
    ensures
        r@ == out_of_reach(),
{
    let mut fields: Vec<(String, Json)> = Vec::new();
    add_member(&mut fields, "connected", Json::Bool(false));
    add_member(&mut fields, "aggregate", Json::from_str("unreachable"));
    let nodes: Vec<Json> = Vec::new();
    proof {
        lemma_array_view(nodes@);
        assert(array_view(nodes@) =~= Seq::empty());
    }
    add_member(&mut fields, "nodes", Json::Array(nodes));
    Json::Object(fields)
}

/// `a`, or `b` where there is no `a`.
pub open spec fn given_or(a: Option<JsonView>, b: JsonView) -> JsonView {
    match a {
        Some(v) => v,
        None => b,
    }
}

/// The state that a snapshot of the daemon makes.
pub open spec fn wrapped(snapshot: JsonView) -> JsonView {
    JsonView::Object(
        Map::empty().insert("connected"@, JsonView::Bool(true)).insert(
            "aggregate"@,
            given_or(snapshot.get("aggregate"@), JsonView::Str("idle"@)),
        ).insert("nodes"@, given_or(snapshot.get("nodes"@), JsonView::Array(Seq::empty()))),
    )
}

/// The state that a snapshot of the daemon makes.
pub fn wrap_snapshot(snapshot: Json) -> (r: Json)
    ensures
        r@ == wrapped(snapshot@),
{
    let ghost s = snapshot@;
    let mut aggregate: Option<Json> = None;
    let mut nodes: Option<Json> = None;
    proof {
        reveal_strlit("aggregate");
        reveal_strlit("nodes");
        assert("aggregate"@.len() != "nodes"@.len());
    }
    if let Json::Object(members) = snapshot {
        let mut given = members;
        aggregate = take_member(&mut given, "aggregate");
        nodes = take_member(&mut given, "nodes");
    }
    let mut fields: Vec<(String, Json)> = Vec::new();
    add_member(&mut fields, "connected", Json::Bool(true));
    let shown = match aggregate {
        Some(v) => v,
        None => Json::from_str("idle"),
    };
    add_member(&mut fields, "aggregate", shown);
    let listed = match nodes {
        Some(v) => v,
        None => {
            let empty: Vec<Json> = Vec::new();
            proof {
                lemma_array_view(empty@);
                assert(array_view(empty@) =~= Seq::empty());
            }
            Json::Array(empty)
        },
    };
    add_member(&mut fields, "nodes", listed);
    Json::Object(fields)
}

/// The status that a state shows.
pub open spec fn shown_aggregate(state: JsonView) -> Seq<char> {
    match state.at("aggregate"@).as_str() {
        Some(s) => s,
        None => "unreachable"@,
    }
}

/// The status that a state shows.
pub fn aggregate_label(state: &Json) -> (r: &str)
    ensures
        r@ == shown_aggregate(state@),
{
    match state.get("aggregate") {
        Some(v) => match v.as_str() {
            Some(s) => s,
            None => "unreachable",
        },
        None => "unreachable",
    }
}

/// The look of the tray icon: its colour, and whether it is a ring in place of a disc.
#[derive(Clone, Copy, Debug, PartialEq, Eq, Structural)]
pub struct IconStyle {
    pub red: u8,
    pub green: u8,
    pub blue: u8,
    pub hollow: bool,
}

/// The look of the tray icon for a status; a gray ring for anything else.
pub open spec fn icon_style_of(aggregate: Seq<char>) -> IconStyle {
    if aggregate == "blocked"@ {
        IconStyle { red: 0xf5, green: 0x9e, blue: 0x0b, hollow: false }
    } else if aggregate == "working"@ {
        IconStyle { red: 0x3b, green: 0x82, blue: 0xf6, hollow: false }
    } else if aggregate == "error"@ {
        IconStyle { red: 0xef, green: 0x44, blue: 0x44, hollow: false }
    } else if aggregate == "done"@ {
        IconStyle { red: 0x22, green: 0xc5, blue: 0x5e, hollow: false }
    } else if aggregate == "idle"@ {
        IconStyle { red: 0x9c, green: 0xa3, blue: 0xaf, hollow: false }
    } else {
        IconStyle { red: 0x9c, green: 0xa3, blue: 0xaf, hollow: true }
    }
}

/// The look of the tray icon for a status.
pub fn icon_style(aggregate: &str) -> (r: IconStyle)
    ensures
        r == icon_style_of(aggregate@),
{
    if same_str(aggregate, "blocked") {
        IconStyle { red: 0xf5, green: 0x9e, blue: 0x0b, hollow: false }
    } else if same_str(aggregate, "working") {
        IconStyle { red: 0x3b, green: 0x82, blue: 0xf6, hollow: false }
    } else if same_str(aggregate, "error") {
        IconStyle { red: 0xef, green: 0x44, blue: 0x44, hollow: false }
    } else if same_str(aggregate, "done") {
        IconStyle { red: 0x22, green: 0xc5, blue: 0x5e, hollow: false }
    } else if same_str(aggregate, "idle") {
        IconStyle { red: 0x9c, green: 0xa3, blue: 0xaf, hollow: false }
    } else {
        IconStyle { red: 0x9c, green: 0xa3, blue: 0xaf, hollow: true }
    }
}

/// What happens to the popover's window.
#[derive(Clone, Copy, Debug, PartialEq, Eq, Structural)]
pub enum WindowChange {
    CloseRequested,
    FocusLost,
    Other,
}

/// What to do about it.
#[derive(Clone, Copy, Debug, PartialEq, Eq, Structural)]
pub struct WindowReaction {
    pub prevent_close: bool,
    pub hide: bool,
}

/// Closing the popover or taking the focus from it hides it and never quits. Where the window is
/// the only surface, with no tray to bring it back from, losing the focus leaves it alone.
pub fn react_to_window(change: WindowChange, window_mode: bool) -> (r: WindowReaction)
    ensures
        r.prevent_close == (change == WindowChange::CloseRequested),
        r.hide == (change == WindowChange::CloseRequested || change == WindowChange::FocusLost
            && !window_mode),
{
    match change {
        WindowChange::CloseRequested => WindowReaction { prevent_close: true, hide: true },
        WindowChange::FocusLost => WindowReaction { prevent_close: false, hide: !window_mode },
        WindowChange::Other => WindowReaction { prevent_close: false, hide: false },
    }
}

/// The statuses in the order in which the tooltip counts them.
pub open spec fn counted_status(i: int) -> Seq<char> {
    if i == 0 {
        "blocked"@
    } else if i == 1 {
        "working"@
    } else if i == 2 {
        "error"@
    } else if i == 3 {
        "done"@
    } else {
        "idle"@
    }
}

/// How many of the nodes have that status.
pub open spec fn count_with(nodes: Seq<JsonView>, status: Seq<char>) -> nat
    decreases nodes.len(),
{
    if nodes.len() == 0 {
        0
    } else {
        count_with(nodes.drop_last(), status) + if nodes.last().at("status"@) == JsonView::Str(
            status,
        ) {
            1nat
        } else {
            0
        }
    }
}

/// The counts of the first `k` statuses, those of 0 left out, with commas between them.
pub open spec fn tally(nodes: Seq<JsonView>, k: int) -> Seq<char>
    decreases k,
{
    if k <= 0 {
        Seq::empty()
    } else {
        let before = tally(nodes, k - 1);
        let status = counted_status(k - 1);
        let count = count_with(nodes, status);
        if count == 0 {
            before
        } else {
            (if before.len() == 0 {
                before
            } else {
                before + ", "@
            }) + decimal(count) + " "@ + status
        }
    }
}

/// The tooltip of a state.
pub open spec fn tooltip(state: JsonView) -> Seq<char> {
    if state.at("connected"@) != JsonView::Bool(true) {
        "agentdeck — daemon unreachable"@
    } else {
        match state.at("nodes"@).as_array() {
            Some(nodes) => if nodes.len() == 0 {
                "agentdeck — no agents"@
            } else {
                "agentdeck — "@ + tally(nodes, 5)
            },
            None => "agentdeck — no agents"@,
        }
    }
}

fn status_counted(i: usize) -> (r: &'static str)
    ensures
        r@ == counted_status(i as int),
{
    if i == 0 {
        "blocked"
    } else if i == 1 {
        "working"
    } else if i == 2 {
        "error"
    } else if i == 3 {
        "done"
    } else {
        "idle"
    }
}

/// How many of the nodes have that status.
fn count_nodes(nodes: &Vec<Json>, status: &str) -> (r: usize)
    ensures
        r == count_with(array_view(nodes@), status@),
{
    let ghost all = array_view(nodes@);
    proof {
        lemma_array_view(nodes@);
    }
    let mut count: usize = 0;
    let mut i: usize = 0;
    while i < nodes.len()
        invariant
            i <= nodes@.len(),
            count <= i,
            all.len() == nodes@.len(),
            forall|k: int| 0 <= k < all.len() ==> #[trigger] all[k] == nodes@[k]@,
            count == count_with(all.take(i as int), status@),
        decreases nodes@.len() - i,
    {
        assert(all.take(i + 1).drop_last() == all.take(i as int));
        assert(all[i as int] == nodes@[i as int]@);
        let matches: bool = match nodes[i].get("status") {
            Some(Json::Str(s)) => same_str(s.as_str(), status),
            _ => false,
        };
        if matches {
            count = count + 1;
        }
        i = i + 1;
    }
    assert(all.take(i as int) == all);
    count
}

/// The tooltip of a state.
pub fn tray_tooltip(state: &Json) -> (r: String)
    ensures
        r@ == tooltip(state@),
{
    let connected: bool = match state.get("connected") {
        Some(Json::Bool(b)) => *b,
        _ => false,
    };
    if !connected {
        return "agentdeck — daemon unreachable".to_owned();
    }
    let nodes = match state.get("nodes") {
        Some(v) => match v.as_array() {
            Some(nodes) => nodes,
            None => {
                return "agentdeck — no agents".to_owned();
            },
        },
        None => {
            return "agentdeck — no agents".to_owned();
        },
    };
    proof {
        lemma_array_view(nodes@);
    }
    if nodes.len() == 0 {
        return "agentdeck — no agents".to_owned();
    }
    let ghost all = array_view(nodes@);
    let mut parts: String = String::new();
    let mut k: usize = 0;
    while k < 5
        invariant
            k <= 5,
            all == array_view(nodes@),
            parts@ == tally(all, k as int),
        decreases 5 - k,
    {
        let status = status_counted(k);
        let count: usize = count_nodes(nodes, status);
        if count > 0 {
            if !parts.as_str().is_empty() {
                parts.append(", ");
            }
            push_decimal(&mut parts, count as u64);
            parts.append(" ");
            parts.append(status);
        }
        k = k + 1;
    }
    let mut out: String = "agentdeck — ".to_owned();
    out.append(parts.as_str());
    out
}

} // verus!
