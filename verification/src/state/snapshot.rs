//! The whole state as one JSON value.

use vstd::prelude::*;

use crate::clock::{millis, whole_millis};
use crate::json::{add_member, array_view, number_from, Json, JsonView};
use crate::model::{NodeView, Tree};
use crate::state::{lemma_tree_at, lemma_tree_has, text_view, Node, Status, Store};
use crate::text::{lemma_text_less_through, lemma_text_less_total, str_less, text_less};
use crate::wire::{lemma_plain_name, plain, plain_name};

verus! {

/// How much a status matters.
pub open spec fn severity(s: Status) -> int {
    match s {
        Status::Idle => 0,
        Status::Done => 1,
        Status::Error => 2,
        Status::Working => 3,
        Status::Blocked => 4,
    }
}

/// Some node has that status.
pub open spec fn has_status(t: Tree, s: Status) -> bool {
    exists|id: Seq<char>| #[trigger] t.contains_key(id) && t[id].status == s
}

/// The status to show for the whole tree.
pub open spec fn worst(t: Tree) -> Status {
    if has_status(t, Status::Blocked) {
        Status::Blocked
    } else if has_status(t, Status::Working) {
        Status::Working
    } else if has_status(t, Status::Error) {
        Status::Error
    } else if has_status(t, Status::Done) {
        Status::Done
    } else {
        Status::Idle
    }
}

/// The name of a status.
pub open spec fn label(s: Status) -> Seq<char> {
    match s {
        Status::Idle => "idle"@,
        Status::Done => "done"@,
        Status::Error => "error"@,
        Status::Working => "working"@,
        Status::Blocked => "blocked"@,
    }
}

impl Status {
    /// The name of the status.
    pub fn label(&self) -> (r: &'static str)
        ensures
            r@ == label(*self),
    {
        match self {
            Status::Idle => "idle",
            Status::Done => "done",
            Status::Error => "error",
            Status::Working => "working",
            Status::Blocked => "blocked",
        }
    }

    /// Whether the status matters less than another.
    fn below(&self, other: &Status) -> (r: bool)
        ensures
            r == (severity(*self) < severity(*other)),
    {
        self.rank() < other.rank()
    }

    fn rank(&self) -> (r: u8)
        ensures
            r == severity(*self),
    {
        match self {
            Status::Idle => 0,
            Status::Done => 1,
            Status::Error => 2,
            Status::Working => 3,
            Status::Blocked => 4,
        }
    }
}

/// Listed before: started earlier, or at the same time and with the smaller id.
pub open spec fn listed_before(a: NodeView, b: NodeView) -> bool {
    a.started_at_ms < b.started_at_ms || a.started_at_ms == b.started_at_ms && text_less(a.id, b.id)
}

/// `order` is the nodes of `t`, each once, in the order of their listing.
pub open spec fn listing(t: Tree, order: Seq<NodeView>) -> bool {
    &&& forall|i: int|
        0 <= i < order.len() ==> t.contains_key((#[trigger] order[i]).id) && t[order[i].id]
            == order[i]
    &&& forall|id: Seq<char>| #[trigger]
        t.contains_key(id) ==> exists|i: int| 0 <= i < order.len() && (#[trigger] order[i]).id == id
    &&& forall|i: int, j: int|
        0 <= i < j < order.len() ==> listed_before(#[trigger] order[i], #[trigger] order[j])
}

/// A text, or `Null`.
pub open spec fn text_json(o: Option<Seq<char>>) -> JsonView {
    match o {
        Some(s) => JsonView::Str(s),
        None => JsonView::Null,
    }
}

/// A number.
pub open spec fn u64_json(n: u64) -> JsonView {
    JsonView::Number(number_from(n))
}

/// A number, or `Null`.
pub open spec fn number_json(o: Option<u64>) -> JsonView {
    match o {
        Some(n) => u64_json(n),
        None => JsonView::Null,
    }
}

/// How long ago a node started, in milliseconds.
pub open spec fn age_ms(n: NodeView, at: u128) -> u64 {
    millis(
        if at >= n.started {
            (at - n.started) as nat
        } else {
            0
        },
    )
}

/// A node as JSON.
pub open spec fn node_json(n: NodeView, at: u128) -> JsonView {
    JsonView::Object(
        Map::empty().insert("id"@, JsonView::Str(n.id)).insert("parent"@, text_json(n.parent)).insert(
            "agent_type"@,
            text_json(n.agent_type),
        ).insert("cwd"@, text_json(n.cwd)).insert("status"@, JsonView::Str(label(n.status))).insert(
            "started_at_ms"@,
            u64_json(n.started_at_ms),
        ).insert("age_ms"@, u64_json(age_ms(n, at))).insert("tokens"@, number_json(n.tokens)).insert(
            "duration_ms"@,
            number_json(n.duration_ms),
        ).insert("tool_calls"@, number_json(n.tool_calls)).insert("model"@, text_json(n.model)),
    )
}

/// The nodes as JSON.
pub open spec fn nodes_json(order: Seq<NodeView>, at: u128) -> Seq<JsonView> {
    order.map_values(|n: NodeView| node_json(n, at))
}

/// The number reads back as it was written.
pub open spec fn exact(n: u64) -> bool {
    u64_json(n).as_u64() == Some(n)
}

/// The numbers of a node read back as they were written.
pub open spec fn exact_numbers(n: NodeView, at: u128) -> bool {
    &&& exact(n.started_at_ms)
    &&& exact(age_ms(n, at))
    &&& n.tokens matches Some(x) ==> exact(x)
    &&& n.duration_ms matches Some(x) ==> exact(x)
    &&& n.tool_calls matches Some(x) ==> exact(x)
}

/// `shown` is the tree as JSON at that time, its nodes in that order.
pub open spec fn shown_as(t: Tree, at: u128, order: Seq<NodeView>, shown: JsonView) -> bool {
    &&& listing(t, order)
    &&& shown == JsonView::Object(
        Map::empty().insert("aggregate"@, JsonView::Str(label(worst(t)))).insert(
            "nodes"@,
            JsonView::Array(nodes_json(order, at)),
        ),
    )
    &&& forall|i: int| 0 <= i < order.len() ==> exact_numbers(#[trigger] order[i], at)
}

/// `shown` is what the tree looks like as JSON at that time.
pub open spec fn shows(t: Tree, at: u128, shown: JsonView) -> bool {
    exists|order: Seq<NodeView>| #[trigger] shown_as(t, at, order, shown)
}

fn opt_text(o: &Option<String>) -> (r: Json)
    ensures
        r@ == text_json(text_view(*o)),
        plain(r@, 0),
{
    match o {
        Some(s) => Json::from_str(s.as_str()),
        None => Json::Null,
    }
}

fn opt_number(o: Option<u64>) -> (r: Json)
    ensures
        r@ == number_json(o),
        plain(r@, 0),
        o matches Some(n) ==> exact(n),
{
    match o {
        Some(n) => Json::from_u64(n),
        None => Json::Null,
    }
}

proof fn lemma_names_are_plain()
    ensures
        plain_name("id"@),
        plain_name("parent"@),
        plain_name("agent_type"@),
        plain_name("cwd"@),
        plain_name("status"@),
        plain_name("started_at_ms"@),
        plain_name("age_ms"@),
        plain_name("tokens"@),
        plain_name("duration_ms"@),
        plain_name("tool_calls"@),
        plain_name("model"@),
        plain_name("aggregate"@),
        plain_name("nodes"@),
{
    reveal_strlit("id");
    reveal_strlit("parent");
    reveal_strlit("agent_type");
    reveal_strlit("cwd");
    reveal_strlit("status");
    reveal_strlit("started_at_ms");
    reveal_strlit("age_ms");
    reveal_strlit("tokens");
    reveal_strlit("duration_ms");
    reveal_strlit("tool_calls");
    reveal_strlit("model");
    reveal_strlit("aggregate");
    reveal_strlit("nodes");
    lemma_plain_name("id"@);
    lemma_plain_name("parent"@);
    lemma_plain_name("agent_type"@);
    lemma_plain_name("cwd"@);
    lemma_plain_name("status"@);
    lemma_plain_name("started_at_ms"@);
    lemma_plain_name("age_ms"@);
    lemma_plain_name("tokens"@);
    lemma_plain_name("duration_ms"@);
    lemma_plain_name("tool_calls"@);
    lemma_plain_name("model"@);
    lemma_plain_name("aggregate"@);
    lemma_plain_name("nodes"@);
}

fn node_to_json(n: &Node, at: u128) -> (r: Json)
    ensures
        r@ == node_json(n@, at),
        plain(r@, 1),
        exact_numbers(n@, at),
{
    let age: u128 = if at >= n.started {
        at - n.started
    } else {
        0
    };
    let mut fields: Vec<(String, Json)> = Vec::new();
    add_member(&mut fields, "id", Json::from_str(n.id.as_str()));
    add_member(&mut fields, "parent", opt_text(&n.parent));
    add_member(&mut fields, "agent_type", opt_text(&n.agent_type));
    add_member(&mut fields, "cwd", opt_text(&n.cwd));
    add_member(&mut fields, "status", Json::from_str(n.status.label()));
    add_member(&mut fields, "started_at_ms", Json::from_u64(n.started_at_ms));
    add_member(&mut fields, "age_ms", Json::from_u64(whole_millis(age)));
    add_member(&mut fields, "tokens", opt_number(n.tokens));
    add_member(&mut fields, "duration_ms", opt_number(n.duration_ms));
    add_member(&mut fields, "tool_calls", opt_number(n.tool_calls));
    add_member(&mut fields, "model", opt_text(&n.model));
    proof {
        reveal_with_fuel(plain, 2);
        lemma_names_are_plain();
    }
    Json::Object(fields)
}

proof fn lemma_listed_through(a: NodeView, b: NodeView, c: NodeView)
    requires
        listed_before(a, b),
        listed_before(b, c),
    ensures
        listed_before(a, c),
{
    if text_less(a.id, b.id) && text_less(b.id, c.id) {
        lemma_text_less_through(a.id, b.id, c.id);
    }
}

/// The nodes at those positions, taken by their views.
spec fn picked(nodes: Seq<Node>, order: Seq<usize>) -> Seq<NodeView> {
    Seq::new(order.len(), |k: int| nodes[order[k] as int]@)
}

/// `order` is the first `n` positions, each once, in the order of their nodes' listing.
spec fn ordered(nodes: Seq<Node>, order: Seq<usize>, n: int) -> bool {
    &&& n <= usize::MAX
    &&& forall|k: int| 0 <= k < order.len() ==> (#[trigger] order[k]) < n
    &&& forall|i: int| 0 <= i < n ==> order.contains(#[trigger] (i as usize))
    &&& forall|a: int, b: int|
        0 <= a < b < order.len() ==> listed_before(
            nodes[#[trigger] order[a] as int]@,
            nodes[#[trigger] order[b] as int]@,
        )
}

fn before(a: &Node, b: &Node) -> (r: bool)
    ensures
        r == listed_before(a@, b@),
{
    a.started_at_ms < b.started_at_ms || (a.started_at_ms == b.started_at_ms && str_less(
        a.id.as_str(),
        b.id.as_str(),
    ))
}

impl Store {
    /// Where the next node goes among those already in order.
    fn place(&self, order: &Vec<usize>, i: usize) -> (p: usize)
        requires
            self.valid(),
            i < self.nodes@.len(),
            ordered(self.nodes@, order@, i as int),
        ensures
            p <= order@.len(),
            forall|k: int|
                0 <= k < p ==> listed_before(
                    self.nodes@[#[trigger] order@[k] as int]@,
                    self.nodes@[i as int]@,
                ),
            forall|k: int|
                p <= k < order@.len() ==> listed_before(
                    self.nodes@[i as int]@,
                    self.nodes@[#[trigger] order@[k] as int]@,
                ),
    {
        let mut p: usize = 0;
        while p < order.len()
            invariant
                self.valid(),
                i < self.nodes@.len(),
                ordered(self.nodes@, order@, i as int),
                p <= order@.len(),
                forall|k: int|
                    0 <= k < p ==> listed_before(
                        self.nodes@[#[trigger] order@[k] as int]@,
                        self.nodes@[i as int]@,
                    ),
            decreases order@.len() - p,
        {
            let q: usize = order[p];
            if before(&self.nodes[i], &self.nodes[q]) {
                proof {
                    let n = self.nodes@[i as int]@;
                    let m = self.nodes@[q as int]@;
                    assert forall|k: int| p <= k < order@.len() implies listed_before(
                        n,
                        self.nodes@[#[trigger] order@[k] as int]@,
                    ) by {
                        if k > p {
                            lemma_listed_through(n, m, self.nodes@[order@[k] as int]@);
                        }
                    }
                }
                return p;
            }
            proof {
                assert(self.nodes@[q as int].id@ != self.nodes@[i as int].id@);
                lemma_text_less_total(self.nodes@[q as int].id@, self.nodes@[i as int].id@);
            }
            p = p + 1;
        }
        p
    }

    /// The positions of the nodes in the order of their listing.
    fn in_order(&self) -> (order: Vec<usize>)
        requires
            self.valid(),
        ensures
            ordered(self.nodes@, order@, self.nodes@.len() as int),
    {
        let mut order: Vec<usize> = Vec::new();
        let mut i: usize = 0;
        while i < self.nodes.len()
            invariant
                self.valid(),
                i <= self.nodes@.len(),
                ordered(self.nodes@, order@, i as int),
            decreases self.nodes@.len() - i,
        {
            let p: usize = self.place(&order, i);
            let ghost order0 = order@;
            order.insert(p, i);
            proof {
                let order1 = order@;
                assert(order1 == order0.insert(p as int, i));
                assert forall|a: int, b: int| 0 <= a < b < order1.len() implies listed_before(
                    self.nodes@[#[trigger] order1[a] as int]@,
                    self.nodes@[#[trigger] order1[b] as int]@,
                ) by {
                    if a != p && b != p {
                        let x = if a < p {
                            a
                        } else {
                            a - 1
                        };
                        let y = if b < p {
                            b
                        } else {
                            b - 1
                        };
                        assert(order1[a] == order0[x] && order1[b] == order0[y]);
                    } else if a == p {
                        assert(order1[b] == order0[b - 1]);
                    } else {
                        assert(order1[a] == order0[a]);
                    }
                }
                assert forall|m: int| 0 <= m < i + 1 implies order1.contains(
                    #[trigger] (m as usize),
                ) by {
                    if m == i {
                        assert(order1[p as int] == i);
                    } else {
                        assert(order0.contains(m as usize));
                        let k = choose|k: int| 0 <= k < order0.len() && order0[k] == m as usize;
                        let x = if k < p {
                            k
                        } else {
                            k + 1
                        };
                        assert(order1[x] == order0[k]);
                    }
                }
                assert forall|k: int| 0 <= k < order1.len() implies (#[trigger] order1[k]) < i
                    + 1 by {
                    if k != p {
                        let x = if k < p {
                            k
                        } else {
                            k - 1
                        };
                        assert(order1[k] == order0[x]);
                    }
                }
            }
            i = i + 1;
        }
        order
    }

    /// The status to show for all nodes together: the most severe one.
    pub fn aggregate(&self) -> (r: Status)
        requires
            self.valid(),
        ensures
            r == worst(self@),
    {
        let mut top: Status = Status::Idle;
        let mut i: usize = 0;
        while i < self.nodes.len()
            invariant
                i <= self.nodes@.len(),
                forall|k: int|
                    0 <= k < i ==> severity((#[trigger] self.nodes@[k]).status) <= severity(top),
                top == Status::Idle || exists|k: int|
                    0 <= k < i && (#[trigger] self.nodes@[k]).status == top,
            decreases self.nodes@.len() - i,
        {
            if top.below(&self.nodes[i].status) {
                top = self.nodes[i].status;
                assert(self.nodes@[i as int].status == top);
            }
            i = i + 1;
        }
        proof {
            let t = self@;
            assert forall|id: Seq<char>| #[trigger] t.contains_key(id) implies severity(t[id].status)
                <= severity(top) by {
                let k = lemma_tree_has(self.nodes@, id);
            }
            if top != Status::Idle {
                let k = choose|k: int|
                    0 <= k < self.nodes@.len() && (#[trigger] self.nodes@[k]).status == top;
                lemma_tree_at(self.nodes@, k);
                assert(has_status(t, top));
            }
        }
        top
    }

    /// The whole state at a given time.
    pub fn snapshot_at(&self, at: u128) -> (r: Json)
        requires
            self.valid(),
        ensures
            shows(self@, at, r@),
            plain(r@, 3),
    {
        let order = self.in_order();
        let ghost views = picked(self.nodes@, order@);
        let mut items: Vec<Json> = Vec::new();
        let mut k: usize = 0;
        while k < order.len()
            invariant
                self.valid(),
                ordered(self.nodes@, order@, self.nodes@.len() as int),
                views == picked(self.nodes@, order@),
                k <= order@.len(),
                items@.len() == k,
                forall|m: int| 0 <= m < k ==> (#[trigger] items@[m])@ == node_json(views[m], at),
                forall|m: int| 0 <= m < k ==> plain((#[trigger] items@[m])@, 1),
                forall|m: int| 0 <= m < k ==> exact_numbers(#[trigger] views[m], at),
            decreases order@.len() - k,
        {
            items.push(node_to_json(&self.nodes[order[k]], at));
            k = k + 1;
        }
        let mut fields: Vec<(String, Json)> = Vec::new();
        add_member(&mut fields, "aggregate", Json::from_str(self.aggregate().label()));
        proof {
            reveal_with_fuel(array_view, 2);
            assert(array_view(items@) =~= nodes_json(views, at));
            let t = self@;
            assert forall|m: int| 0 <= m < views.len() implies t.contains_key(
                (#[trigger] views[m]).id,
            ) && t[views[m].id] == views[m] by {
                lemma_tree_at(self.nodes@, order@[m] as int);
            }
            assert forall|id: Seq<char>| #[trigger] t.contains_key(id) implies exists|m: int|
                0 <= m < views.len() && (#[trigger] views[m]).id == id by {
                let i = lemma_tree_has(self.nodes@, id);
                assert(order@.contains(i as usize));
                let m = choose|m: int| 0 <= m < order@.len() && order@[m] == i as usize;
                assert(views[m].id == id);
            }
            assert(listing(t, views));
        }
        add_member(&mut fields, "nodes", Json::Array(items));
        proof {
            reveal_with_fuel(plain, 3);
            lemma_names_are_plain();
            assert(shown_as(self@, at, views, Json::Object(fields)@));
        }
        Json::Object(fields)
    }

    /// The whole state, as the store's clock has it.
    pub fn snapshot(&self) -> (r: Json)
        requires
            self.valid(),
        ensures
            exists|at: u128| self.timer().shows(at) && #[trigger] shows(self@, at, r@),
            plain(r@, 3),
    {
        let at: u128 = self.clock.now();
        self.snapshot_at(at)
    }
}

} // verus!
