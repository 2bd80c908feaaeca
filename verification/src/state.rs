//! The session tree, driven by hook payloads.

pub mod snapshot;

use std::time::Duration;

use vstd::prelude::*;

use crate::clock::{duration_nanos, Clock, Reading};
use crate::json::{str_field, u64_field, Json};
use crate::model::{
    after_session_start, after_subagent_start, ancestor, any_expired, below_any, descends, enriched,
    expired, fresh, hook_named, keyed, launched, lemma_descends_child, lemma_descends_self,
    lemma_without_next, notified_status, notified_task, or, purged, step, swept, tag_number, touched,
    uses_agent_tool, with_response, with_root, without_tree, without_trees, Hook, NodeView, Tree,
};
use crate::text::{contains_str, extract_tag, parse_u64, same_str};

verus! {

/// Ordered by severity: the last one that any node has is the one to show.
#[derive(Clone, Copy, Debug, PartialEq, Eq, PartialOrd, Ord, Structural)]
pub enum Status {
    Idle,
    Done,
    Error,
    Working,
    Blocked,
}

/// A session, or a subagent below it.
#[derive(Clone, Debug)]
pub struct Node {
    pub id: String,
    /// None: a session. A subagent's parent is its session until the response of its launch
    /// names the agent that launched it.
    pub parent: Option<String>,
    pub agent_type: Option<String>,
    pub cwd: Option<String>,
    pub status: Status,
    /// Milliseconds since the Unix epoch.
    pub started_at_ms: u64,
    /// Nanoseconds on the store's clock.
    pub started: u128,
    /// Nanoseconds on the store's clock.
    pub last_event: u128,
    pub tokens: Option<u64>,
    pub duration_ms: Option<u64>,
    pub tool_calls: Option<u64>,
    pub model: Option<String>,
}

/// An optional text, taken by its view.
pub open spec fn text_view(o: Option<String>) -> Option<Seq<char>> {
    match o {
        Some(s) => Some(s@),
        None => None,
    }
}

/// An optional borrowed text, taken by its view.
pub open spec fn str_view(o: Option<&str>) -> Option<Seq<char>> {
    match o {
        Some(s) => Some(s@),
        None => None,
    }
}

impl View for Node {
    type V = NodeView;

    open spec fn view(&self) -> NodeView {
        NodeView {
            id: self.id@,
            parent: text_view(self.parent),
            agent_type: text_view(self.agent_type),
            cwd: text_view(self.cwd),
            status: self.status,
            started_at_ms: self.started_at_ms,
            started: self.started,
            last_event: self.last_event,
            tokens: self.tokens,
            duration_ms: self.duration_ms,
            tool_calls: self.tool_calls,
            model: text_view(self.model),
        }
    }
}

fn owned(o: Option<&str>) -> (r: Option<String>)
    ensures
        text_view(r) == str_view(o),
{
    match o {
        Some(s) => Some(s.to_owned()),
        None => None,
    }
}

fn or_kept(new: Option<&str>, kept: Option<String>) -> (r: Option<String>)
    ensures
        text_view(r) == or(str_view(new), text_view(kept)),
{
    match new {
        Some(s) => Some(s.to_owned()),
        None => kept,
    }
}

fn or_number(new: Option<u64>, kept: Option<u64>) -> (r: Option<u64>)
    ensures
        r == or(new, kept),
{
    match new {
        Some(_) => new,
        None => kept,
    }
}

impl Node {
    fn new(id: &str, parent: Option<&str>, status: Status, now: &Reading) -> (r: Node)
        ensures
            r@ == fresh(id@, str_view(parent), status, *now),
    {
        Node {
            id: id.to_owned(),
            parent: owned(parent),
            agent_type: None,
            cwd: None,
            status,
            started_at_ms: now.epoch_ms,
            started: now.at,
            last_event: now.at,
            tokens: None,
            duration_ms: None,
            tool_calls: None,
            model: None,
        }
    }
}

/// The `i`th node has that id.
spec fn stands(nodes: Seq<Node>, id: Seq<char>, i: int) -> bool {
    0 <= i < nodes.len() && nodes[i].id@ == id
}

/// No two nodes share an id.
spec fn distinct(nodes: Seq<Node>) -> bool {
    forall|i: int, j: int|
        0 <= i < j < nodes.len() ==> (#[trigger] nodes[i]).id@ != (#[trigger] nodes[j]).id@
}

/// The nodes, each under its id.
spec fn tree_of(nodes: Seq<Node>) -> Tree {
    Map::new(
        |id: Seq<char>| exists|i: int| stands(nodes, id, i),
        |id: Seq<char>| nodes[choose|i: int| stands(nodes, id, i)]@,
    )
}

proof fn lemma_tree_at(nodes: Seq<Node>, i: int)
    requires
        distinct(nodes),
        0 <= i < nodes.len(),
    ensures
        tree_of(nodes).contains_key(nodes[i].id@),
        tree_of(nodes)[nodes[i].id@] == nodes[i]@,
{
    let id = nodes[i].id@;
    assert(stands(nodes, id, i));
    let k = choose|k: int| stands(nodes, id, k);
    if k < i {
        assert(nodes[k].id@ != nodes[i].id@);
    } else if i < k {
        assert(nodes[i].id@ != nodes[k].id@);
    }
}

proof fn lemma_tree_has(nodes: Seq<Node>, id: Seq<char>) -> (i: int)
    requires
        distinct(nodes),
        tree_of(nodes).contains_key(id),
    ensures
        stands(nodes, id, i),
        tree_of(nodes)[id] == nodes[i]@,
{
    let i = choose|i: int| stands(nodes, id, i);
    lemma_tree_at(nodes, i);
    i
}

proof fn lemma_tree_push(nodes: Seq<Node>, node: Node)
    requires
        distinct(nodes),
        !tree_of(nodes).contains_key(node.id@),
    ensures
        distinct(nodes.push(node)),
        tree_of(nodes.push(node)) == tree_of(nodes).insert(node.id@, node@),
{
    let more = nodes.push(node);
    assert forall|i: int, j: int| 0 <= i < j < more.len() implies (#[trigger] more[i]).id@ != (
    #[trigger] more[j]).id@ by {
        if j == nodes.len() {
            assert(stands(nodes, more[i].id@, i));
        }
    }
    let left = tree_of(more);
    let right = tree_of(nodes).insert(node.id@, node@);
    assert forall|id: Seq<char>| #[trigger] left.contains_key(id) implies right.contains_key(id)
        && left[id] == right[id] by {
        let i = lemma_tree_has(more, id);
        if i < nodes.len() {
            lemma_tree_at(nodes, i);
        }
    }
    assert forall|id: Seq<char>| #[trigger] right.contains_key(id) implies left.contains_key(id) by {
        if id == node.id@ {
            lemma_tree_at(more, nodes.len() as int);
        } else {
            let i = lemma_tree_has(nodes, id);
            assert(more[i] == nodes[i]);
            lemma_tree_at(more, i);
        }
    }
    assert(left =~= right);
}

/// The nodes without the `i`th, whose place the last one takes.
spec fn swapped_out(nodes: Seq<Node>, i: int) -> Seq<Node> {
    nodes.update(i, nodes.last()).drop_last()
}

proof fn lemma_tree_swap_out(nodes: Seq<Node>, i: int)
    requires
        distinct(nodes),
        0 <= i < nodes.len(),
    ensures
        distinct(swapped_out(nodes, i)),
        tree_of(swapped_out(nodes, i)) == tree_of(nodes).remove(nodes[i].id@),
{
    let less = swapped_out(nodes, i);
    let last = nodes.len() - 1;
    assert forall|a: int, b: int| 0 <= a < b < less.len() implies (#[trigger] less[a]).id@ != (
    #[trigger] less[b]).id@ by {
        let x = if a == i {
            last
        } else {
            a
        };
        let y = if b == i {
            last
        } else {
            b
        };
        assert(less[a] == nodes[x] && less[b] == nodes[y]);
    }
    let left = tree_of(less);
    let right = tree_of(nodes).remove(nodes[i].id@);
    assert forall|id: Seq<char>| #[trigger] left.contains_key(id) implies right.contains_key(id)
        && left[id] == right[id] by {
        let a = lemma_tree_has(less, id);
        let x = if a == i {
            last
        } else {
            a
        };
        assert(less[a] == nodes[x]);
        lemma_tree_at(nodes, x);
        if x < i {
            assert(nodes[x].id@ != nodes[i].id@);
        } else {
            assert(nodes[i].id@ != nodes[x].id@);
        }
    }
    assert forall|id: Seq<char>| #[trigger] right.contains_key(id) implies left.contains_key(id) by {
        let x = lemma_tree_has(nodes, id);
        let a = if x == last {
            i
        } else {
            x
        };
        assert(less[a] == nodes[x]);
        lemma_tree_at(less, a);
    }
    assert(left =~= right);
}

/// The marks and the list of marked nodes agree, and only nodes below `root` are marked.
spec fn marks_agree(
    nodes: Seq<Node>,
    root: Seq<char>,
    marked: Seq<bool>,
    doomed: Seq<usize>,
) -> bool {
    &&& marked.len() == nodes.len() <= usize::MAX
    &&& doomed.no_duplicates()
    &&& forall|k: int|
        0 <= k < doomed.len() ==> (#[trigger] doomed[k]) < nodes.len() && marked[doomed[k] as int]
    &&& forall|j: int| 0 <= j < nodes.len() && #[trigger] marked[j] ==> doomed.contains(j as usize)
    &&& forall|j: int|
        0 <= j < nodes.len() && #[trigger] marked[j] ==> descends(tree_of(nodes), root, nodes[j].id@)
}

/// The `j`th node is a child of the `k`th.
spec fn is_child(nodes: Seq<Node>, j: int, k: int) -> bool {
    text_view(nodes[j].parent) == Some(nodes[k].id@)
}

/// The children of the first `i` listed nodes are marked.
spec fn children_marked(
    nodes: Seq<Node>,
    marked: Seq<bool>,
    doomed: Seq<usize>,
    i: int,
) -> bool {
    forall|k: int, j: int|
        0 <= k < i && 0 <= j < nodes.len() && #[trigger] is_child(nodes, j, doomed[k] as int)
            ==> marked[j]
}

proof fn lemma_doomed_fit(nodes: Seq<Node>, root: Seq<char>, marked: Seq<bool>, doomed: Seq<usize>)
    requires
        marks_agree(nodes, root, marked, doomed),
    ensures
        doomed.len() <= nodes.len(),
{
    let ints = doomed.map_values(|x: usize| x as int);
    let range = vstd::set_lib::set_int_range(0, nodes.len() as int);
    vstd::set_lib::lemma_int_range(0, nodes.len() as int);
    assert(ints.no_duplicates());
    ints.unique_seq_to_set();
    assert(ints.to_set().subset_of(range));
    vstd::set_lib::lemma_len_subset(ints.to_set(), range);
}

/// Once the children of all marked nodes are marked, all that descends from the root is.
proof fn lemma_marks_complete(
    nodes: Seq<Node>,
    root: Seq<char>,
    marked: Seq<bool>,
    doomed: Seq<usize>,
    j: int,
    n: nat,
)
    requires
        distinct(nodes),
        marks_agree(nodes, root, marked, doomed),
        children_marked(nodes, marked, doomed, doomed.len() as int),
        exists|s: int| stands(nodes, root, s) && marked[s],
        0 <= j < nodes.len(),
        ancestor(tree_of(nodes), nodes[j].id@, n) == Some(root),
    ensures
        marked[j],
    decreases n,
{
    let t = tree_of(nodes);
    let s = choose|s: int| stands(nodes, root, s) && marked[s];
    if n == 0 {
        if s < j {
            assert(nodes[s].id@ != nodes[j].id@);
        } else if j < s {
            assert(nodes[j].id@ != nodes[s].id@);
        }
    } else {
        lemma_tree_at(nodes, j);
        let p = t[nodes[j].id@].parent->0;
        assert(ancestor(t, p, (n - 1) as nat) == Some(root));
        if n == 1 {
            lemma_tree_at(nodes, s);
        }
        assert(t.contains_key(p));
        let q = lemma_tree_has(nodes, p);
        lemma_marks_complete(nodes, root, marked, doomed, q, (n - 1) as nat);
        assert(doomed.contains(q as usize));
        let k = choose|k: int| 0 <= k < doomed.len() && doomed[k] == q as usize;
        assert(is_child(nodes, j, doomed[k] as int));
    }
}

/// The unmarked ones among the first `n` nodes.
spec fn unmarked(nodes: Seq<Node>, marked: Seq<bool>, n: int) -> Tree {
    Map::new(
        |id: Seq<char>| exists|j: int| #[trigger] stands(nodes, id, j) && j < n && !marked[j],
        |id: Seq<char>| tree_of(nodes)[id],
    )
}

proof fn lemma_unmarked_next(nodes: Seq<Node>, marked: Seq<bool>, n: int)
    requires
        distinct(nodes),
        marked.len() == nodes.len(),
        0 <= n < nodes.len(),
    ensures
        !unmarked(nodes, marked, n).contains_key(nodes[n].id@),
        unmarked(nodes, marked, n + 1) == if marked[n] {
            unmarked(nodes, marked, n)
        } else {
            unmarked(nodes, marked, n).insert(nodes[n].id@, nodes[n]@)
        },
{
    lemma_tree_at(nodes, n);
    let before = unmarked(nodes, marked, n);
    let after = unmarked(nodes, marked, n + 1);
    assert(stands(nodes, nodes[n].id@, n));
    if before.contains_key(nodes[n].id@) {
        let j = choose|j: int| #[trigger] stands(nodes, nodes[n].id@, j) && j < n && !marked[j];
        assert(nodes[j].id@ != nodes[n].id@);
    }
    if marked[n] {
        assert(before =~= after);
    } else {
        assert(after =~= before.insert(nodes[n].id@, nodes[n]@));
    }
}

/// All sessions and subagents that are known.
pub struct Store {
    nodes: Vec<Node>,
    clock: Clock,
}

impl View for Store {
    type V = Tree;

    closed spec fn view(&self) -> Tree {
        tree_of(self.nodes@)
    }
}

impl Store {
    /// No two nodes share an id.
    pub closed spec fn valid(&self) -> bool {
        distinct(self.nodes@)
    }

    /// The clock that the store's times are read from.
    pub closed spec fn timer(&self) -> Clock {
        self.clock
    }

    /// A valid store holds each node under its own id.
    pub proof fn lemma_keyed(&self)
        requires
            self.valid(),
        ensures
            keyed(self@),
    {
        assert forall|id: Seq<char>| #[trigger] self@.contains_key(id) implies self@[id].id
            == id by {
            let i = lemma_tree_has(self.nodes@, id);
        }
    }

    fn position(&self, id: &str) -> (r: Option<usize>)
        requires
            self.valid(),
        ensures
            match r {
                Some(i) => {
                    &&& i < self.nodes@.len()
                    &&& self.nodes@[i as int].id@ == id@
                    &&& self@.contains_key(id@)
                    &&& self@[id@] == self.nodes@[i as int]@
                },
                None => !self@.contains_key(id@),
            },
    {
        let mut i: usize = 0;
        while i < self.nodes.len()
            invariant
                self.valid(),
                i <= self.nodes@.len(),
                forall|k: int| 0 <= k < i ==> (#[trigger] self.nodes@[k]).id@ != id@,
            decreases self.nodes@.len() - i,
        {
            if same_str(self.nodes[i].id.as_str(), id) {
                proof {
                    lemma_tree_at(self.nodes@, i as int);
                }
                return Some(i);
            }
            i = i + 1;
        }
        None
    }

    /// The node of that id.
    pub fn get(&self, id: &str) -> (r: Option<&Node>)
        requires
            self.valid(),
        ensures
            match r {
                Some(n) => self@.contains_key(id@) && self@[id@] == n@,
                None => !self@.contains_key(id@),
            },
    {
        match self.position(id) {
            Some(i) => Some(&self.nodes[i]),
            None => None,
        }
    }

    /// Takes the node of that id out.
    fn take(&mut self, id: &str) -> (r: Option<Node>)
        requires
            old(self).valid(),
        ensures
            final(self).valid(),
            final(self).timer() == old(self).timer(),
            match r {
                Some(n) => {
                    &&& old(self)@.contains_key(id@)
                    &&& old(self)@[id@] == n@
                    &&& n.id@ == id@
                    &&& final(self)@ == old(self)@.remove(id@)
                },
                None => !old(self)@.contains_key(id@) && *final(self) == *old(self),
            },
    {
        match self.position(id) {
            Some(i) => {
                proof {
                    lemma_tree_swap_out(self.nodes@, i as int);
                }
                let n = self.nodes.swap_remove(i);
                assert(self.nodes@ =~= swapped_out(old(self).nodes@, i as int));
                Some(n)
            },
            None => None,
        }
    }

    /// Puts a node in whose id is not there.
    fn put(&mut self, node: Node)
        requires
            old(self).valid(),
            !old(self)@.contains_key(node.id@),
        ensures
            final(self).valid(),
            final(self).timer() == old(self).timer(),
            final(self)@ == old(self)@.insert(node.id@, node@),
    {
        proof {
            lemma_tree_push(self.nodes@, node);
        }
        self.nodes.push(node);
    }
}

impl Store {
    /// Marks and lists the children of one node.
    fn mark_children(
        &self,
        root: &str,
        i: usize,
        marked: &mut Vec<bool>,
        doomed: &mut Vec<usize>,
    )
        requires
            self.valid(),
            marks_agree(self.nodes@, root@, old(marked)@, old(doomed)@),
            i < old(doomed)@.len(),
            children_marked(self.nodes@, old(marked)@, old(doomed)@, i as int),
        ensures
            marks_agree(self.nodes@, root@, final(marked)@, final(doomed)@),
            i < final(doomed)@.len(),
            forall|j: int|
                0 <= j < self.nodes@.len() && old(marked)@[j] ==> #[trigger] final(marked)@[j],
            children_marked(self.nodes@, final(marked)@, final(doomed)@, i + 1),
    {
        let ghost t = tree_of(self.nodes@);
        let parent: usize = doomed[i];
        let mut j: usize = 0;
        while j < self.nodes.len()
            invariant
                self.valid(),
                t == tree_of(self.nodes@),
                j <= self.nodes@.len(),
                i < doomed@.len(),
                doomed@[i as int] == parent,
                marks_agree(self.nodes@, root@, marked@, doomed@),
                children_marked(self.nodes@, marked@, doomed@, i as int),
                forall|m: int|
                    0 <= m < self.nodes@.len() && old(marked)@[m] ==> #[trigger] marked@[m],
                forall|m: int|
                    0 <= m < j && #[trigger] is_child(self.nodes@, m, parent as int) ==> marked@[m],
            decreases self.nodes@.len() - j,
        {
            let child: bool = match &self.nodes[j].parent {
                Some(p) => same_str(p.as_str(), self.nodes[parent].id.as_str()),
                None => false,
            };
            assert(child == is_child(self.nodes@, j as int, parent as int));
            if child && !marked[j] {
                let ghost marked0 = marked@;
                let ghost doomed0 = doomed@;
                marked.set(j, true);
                doomed.push(j);
                proof {
                    assert(marked0[parent as int]);
                    lemma_tree_at(self.nodes@, j as int);
                    lemma_descends_child(t, root@, self.nodes@[j as int].id@);
                    assert(!doomed0.contains(j));
                    assert forall|m: int|
                        0 <= m < self.nodes@.len() && #[trigger] marked@[m] implies doomed@.contains(
                        m as usize,
                    ) by {
                        if m == j {
                            assert(doomed@[doomed0.len() as int] == j);
                        } else {
                            assert(marked0[m]);
                            let k = choose|k: int|
                                0 <= k < doomed0.len() && doomed0[k] == m as usize;
                            assert(doomed@[k] == m as usize);
                        }
                    }
                    assert forall|m: int|
                        0 <= m < self.nodes@.len() && #[trigger] marked@[m] implies descends(
                        t,
                        root@,
                        self.nodes@[m].id@,
                    ) by {
                        if m != j {
                            assert(marked0[m]);
                        }
                    }
                    assert forall|k: int, m: int|
                        0 <= k < i && 0 <= m < self.nodes@.len() && #[trigger] is_child(
                            self.nodes@,
                            m,
                            doomed@[k] as int,
                        ) implies marked@[m] by {
                        assert(doomed@[k] == doomed0[k]);
                        assert(marked0[m]);
                    }
                }
            }
            j = j + 1;
        }
    }

    /// Removes a node and all that is below it.
    pub fn remove_tree(&mut self, root: &str) -> (r: bool)
        requires
            old(self).valid(),
        ensures
            final(self).valid(),
            final(self).timer() == old(self).timer(),
            final(self)@ == without_tree(old(self)@, root@),
            r == old(self)@.contains_key(root@),
    {
        let start: usize = match self.position(root) {
            Some(i) => i,
            None => {
                return false;
            },
        };
        let ghost t = self@;
        let ghost all = self.nodes@;
        let mut marked: Vec<bool> = Vec::new();
        while marked.len() < self.nodes.len()
            invariant
                marked@.len() <= self.nodes@.len(),
                forall|j: int| 0 <= j < marked@.len() ==> !(#[trigger] marked@[j]),
            decreases self.nodes@.len() - marked@.len(),
        {
            marked.push(false);
        }
        marked.set(start, true);
        let mut doomed: Vec<usize> = Vec::new();
        doomed.push(start);
        proof {
            lemma_descends_self(t, root@);
            assert(doomed@[0] == start);
            assert(stands(all, root@, start as int));
        }
        let mut i: usize = 0;
        while i < doomed.len()
            invariant
                *self == *old(self),
                self.valid(),
                i <= doomed@.len() <= self.nodes@.len(),
                marks_agree(self.nodes@, root@, marked@, doomed@),
                children_marked(self.nodes@, marked@, doomed@, i as int),
                stands(self.nodes@, root@, start as int),
                marked@[start as int],
            decreases self.nodes@.len() - i,
        {
            self.mark_children(root, i, &mut marked, &mut doomed);
            proof {
                lemma_doomed_fit(self.nodes@, root@, marked@, doomed@);
            }
            i = i + 1;
        }
        let mut before: Vec<Node> = Vec::new();
        std::mem::swap(&mut before, &mut self.nodes);
        let mut kept: Vec<Node> = Vec::new();
        let mut j: usize = 0;
        assert(tree_of(kept@) =~= unmarked(all, marked@, 0));
        for node in it: before
            invariant
                it.seq() == all,
                j == it.index(),
                marked@.len() == all.len() <= usize::MAX,
                distinct(all),
                distinct(kept@),
                tree_of(kept@) == unmarked(all, marked@, j as int),
        {
            proof {
                lemma_unmarked_next(all, marked@, j as int);
            }
            if !marked[j] {
                proof {
                    lemma_tree_push(kept@, node);
                }
                kept.push(node);
            }
            j = j + 1;
        }
        self.nodes = kept;
        proof {
            let left = self@;
            let right = without_tree(t, root@);
            assert forall|id: Seq<char>| #[trigger] left.contains_key(id) implies right.contains_key(id)
                && left[id] == right[id] by {
                let k = choose|k: int| #[trigger] stands(all, id, k) && k < all.len() && !marked@[k];
                lemma_tree_at(all, k);
                if descends(t, root@, id) {
                    let n = choose|n: nat| #[trigger] ancestor(t, id, n) == Some(root@);
                    lemma_marks_complete(all, root@, marked@, doomed@, k, n);
                }
            }
            assert forall|id: Seq<char>| #[trigger] right.contains_key(id) implies left.contains_key(
                id,
            ) by {
                let k = lemma_tree_has(all, id);
                assert(!marked@[k]);
            }
            assert(left =~= right);
        }
        true
    }
}

/// The texts, each taken by its view.
spec fn texts(ids: Seq<String>) -> Seq<Seq<char>> {
    ids.map_values(|s: String| s@)
}

impl Store {
    /// Whether a node is up for removal.
    fn is_expired(&self, i: usize, stale: u128, done: u128, at: u128) -> (r: bool)
        requires
            self.valid(),
            i < self.nodes@.len(),
        ensures
            r == expired(self@, self.nodes@[i as int]@, stale as nat, done as nat, at),
    {
        let node = &self.nodes[i];
        let silent: u128 = if at >= node.last_event {
            at - node.last_event
        } else {
            0
        };
        let orphan: bool = match &node.parent {
            Some(p) => self.position(p.as_str()).is_none(),
            None => false,
        };
        let finished: bool = match node.status {
            Status::Done => true,
            Status::Error => true,
            _ => false,
        };
        silent > stale || orphan || (node.parent.is_some() && finished && silent >= done)
    }

    /// Removes, at a given time, every node that has been silent for longer than `stale_ttl`, every
    /// finished subagent that has been silent for `done_ttl` and every node whose parent is gone,
    /// each with all that is below it.
    pub fn purge_at(&mut self, stale_ttl: Duration, done_ttl: Duration, at: u128) -> (r: bool)
        requires
            old(self).valid(),
        ensures
            final(self).valid(),
            final(self).timer() == old(self).timer(),
            final(self)@ == purged(
                old(self)@,
                duration_nanos(stale_ttl),
                duration_nanos(done_ttl),
                at,
            ),
            r == any_expired(old(self)@, duration_nanos(stale_ttl), duration_nanos(done_ttl), at),
    {
        let stale: u128 = stale_ttl.as_nanos();
        let done: u128 = done_ttl.as_nanos();
        let ghost t = self@;
        let mut doomed: Vec<String> = Vec::new();
        let mut i: usize = 0;
        while i < self.nodes.len()
            invariant
                *self == *old(self),
                self.valid(),
                t == self@,
                i <= self.nodes@.len(),
                forall|k: int|
                    0 <= k < doomed@.len() ==> t.contains_key((#[trigger] doomed@[k])@) && expired(
                        t,
                        t[doomed@[k]@],
                        stale as nat,
                        done as nat,
                        at,
                    ),
                forall|j: int|
                    0 <= j < i && expired(
                        t,
                        (#[trigger] self.nodes@[j])@,
                        stale as nat,
                        done as nat,
                        at,
                    ) ==> exists|k: int|
                        0 <= k < doomed@.len() && (#[trigger] doomed@[k])@ == self.nodes@[j].id@,
            decreases self.nodes@.len() - i,
        {
            if self.is_expired(i, stale, done, at) {
                proof {
                    lemma_tree_at(self.nodes@, i as int);
                }
                let ghost doomed0 = doomed@;
                doomed.push(self.nodes[i].id.clone());
                proof {
                    assert forall|j: int|
                        0 <= j < i + 1 && expired(
                            t,
                            (#[trigger] self.nodes@[j])@,
                            stale as nat,
                            done as nat,
                            at,
                        ) implies exists|k: int|
                        0 <= k < doomed@.len() && (#[trigger] doomed@[k])@ == self.nodes@[j].id@ by {
                        if j < i {
                            let k = choose|k: int|
                                0 <= k < doomed0.len() && (#[trigger] doomed0[k])@
                                    == self.nodes@[j].id@;
                            assert(doomed@[k] == doomed0[k]);
                        } else {
                            assert(doomed@[doomed0.len() as int]@ == self.nodes@[j].id@);
                        }
                    }
                }
            }
            i = i + 1;
        }
        let ghost roots = texts(doomed@);
        let mut changed: bool = false;
        let mut k: usize = 0;
        assert(t =~= without_trees(t, roots, 0));
        while k < doomed.len()
            invariant
                self.valid(),
                self.timer() == old(self).timer(),
                k <= doomed@.len(),
                roots == texts(doomed@),
                forall|m: int| 0 <= m < roots.len() ==> t.contains_key(#[trigger] roots[m]),
                self@ == without_trees(t, roots, k as int),
                changed == (k > 0),
            decreases doomed@.len() - k,
        {
            proof {
                assert(roots[k as int] == doomed@[k as int]@);
                lemma_without_next(t, roots, k as int);
                if k == 0 {
                    assert(t =~= without_trees(t, roots, 0));
                }
            }
            let gone: bool = self.remove_tree(doomed[k].as_str());
            changed = changed || gone;
            k = k + 1;
        }
        proof {
            assert forall|id: Seq<char>| #[trigger] t.contains_key(id) implies below_any(
                t,
                roots,
                roots.len() as int,
                id,
            ) == swept(t, id, stale as nat, done as nat, at) by {
                if below_any(t, roots, roots.len() as int, id) {
                    let m = choose|m: int|
                        0 <= m < roots.len() && descends(t, #[trigger] roots[m], id);
                    assert(roots[m] == doomed@[m]@);
                }
                if swept(t, id, stale as nat, done as nat, at) {
                    let d = choose|d: Seq<char>|
                        #![trigger descends(t, d, id)]
                        t.contains_key(d) && expired(t, t[d], stale as nat, done as nat, at)
                            && descends(t, d, id);
                    let j = lemma_tree_has(old(self).nodes@, d);
                    let m = choose|m: int|
                        0 <= m < doomed@.len() && (#[trigger] doomed@[m])@ == old(
                            self,
                        ).nodes@[j].id@;
                    assert(roots[m] == d);
                }
            }
            assert(self@ =~= purged(t, stale as nat, done as nat, at));
            if any_expired(t, stale as nat, done as nat, at) {
                let d = choose|d: Seq<char>| #[trigger]
                    t.contains_key(d) && expired(t, t[d], stale as nat, done as nat, at);
                let j = lemma_tree_has(old(self).nodes@, d);
                assert(doomed@.len() > 0);
            }
            if doomed@.len() > 0 {
                assert(t.contains_key(doomed@[0]@));
            }
        }
        changed
    }

    /// Removes what has been silent too long, as the store's clock has it.
    pub fn purge(&mut self, stale_ttl: Duration, done_ttl: Duration) -> (r: bool)
        requires
            old(self).valid(),
        ensures
            final(self).valid(),
            final(self).timer() == old(self).timer(),
            exists|at: u128|
                {
                    &&& old(self).timer().shows(at)
                    &&& final(self)@ == #[trigger] purged(
                        old(self)@,
                        duration_nanos(stale_ttl),
                        duration_nanos(done_ttl),
                        at,
                    )
                    &&& r == any_expired(
                        old(self)@,
                        duration_nanos(stale_ttl),
                        duration_nanos(done_ttl),
                        at,
                    )
                },
    {
        let at: u128 = self.clock.now();
        self.purge_at(stale_ttl, done_ttl, at)
    }
}

impl Hook {
    /// The event of that name.
    pub fn named(name: &str) -> (r: Hook)
        ensures
            r == hook_named(name@),
    {
        if same_str(name, "SessionStart") {
            Hook::SessionStart
        } else if same_str(name, "UserPromptSubmit") {
            Hook::UserPromptSubmit
        } else if same_str(name, "SubagentStart") {
            Hook::SubagentStart
        } else if same_str(name, "SubagentStop") {
            Hook::SubagentStop
        } else if same_str(name, "Stop") {
            Hook::Stop
        } else if same_str(name, "StopFailure") {
            Hook::StopFailure
        } else if same_str(name, "Notification") {
            Hook::Notification
        } else if same_str(name, "PreToolUse") {
            Hook::PreToolUse
        } else if same_str(name, "PostToolUse") {
            Hook::PostToolUse
        } else if same_str(name, "SessionEnd") {
            Hook::SessionEnd
        } else {
            Hook::Other
        }
    }
}

/// The number that a tag of a text gives.
fn read_tag(text: &str, tag: &str) -> (r: Option<u64>)
    ensures
        r == tag_number(text@, tag@),
{
    match extract_tag(text, tag) {
        Some(s) => parse_u64(s),
        None => None,
    }
}

/// The status that a notification of that type brings.
fn status_of_notification(kind: Option<&str>) -> (r: Option<Status>)
    ensures
        r == notified_status(str_view(kind)),
{
    match kind {
        Some(k) => if same_str(k, "permission_prompt") || same_str(k, "idle_prompt") || same_str(
            k,
            "agent_needs_input",
        ) {
            Some(Status::Blocked)
        } else if same_str(k, "agent_completed") {
            Some(Status::Done)
        } else {
            None
        },
        None => None,
    }
}

/// Whether a payload is about the tool that launches subagents.
fn is_agent_tool(event: &Json) -> (r: bool)
    ensures
        r == uses_agent_tool(event@),
{
    match str_field(event, "tool_name") {
        Some(name) => same_str(name, "Agent"),
        None => false,
    }
}

impl Store {
    /// Makes sure that the session is there, with that status and just heard of.
    fn upsert_root(&mut self, session_id: &str, cwd: Option<&str>, status: Status, now: &Reading)
        requires
            old(self).valid(),
        ensures
            final(self).valid(),
            final(self).timer() == old(self).timer(),
            final(self)@ == with_root(old(self)@, session_id@, str_view(cwd), status, *now),
    {
        let mut node = match self.take(session_id) {
            Some(n) => n,
            None => Node::new(session_id, None, status, now),
        };
        node.status = status;
        node.last_event = now.at;
        let kept = node.cwd.take();
        node.cwd = or_kept(cwd, kept);
        self.put(node);
        assert(self@ =~= with_root(old(self)@, session_id@, str_view(cwd), status, *now));
    }

    /// Notes that a known node has been heard of.
    fn touch(&mut self, id: &str, status: Option<Status>, now: &Reading) -> (r: bool)
        requires
            old(self).valid(),
        ensures
            final(self).valid(),
            final(self).timer() == old(self).timer(),
            final(self)@ == touched(old(self)@, id@, status, *now),
            r == old(self)@.contains_key(id@),
    {
        match self.take(id) {
            Some(n) => {
                let mut node = n;
                node.last_event = now.at;
                if let Some(s) = status {
                    node.status = s;
                }
                self.put(node);
                assert(self@ =~= touched(old(self)@, id@, status, *now));
                true
            },
            None => false,
        }
    }

    /// Takes in the response of a launch: the true parent, and the numbers where the subagent is
    /// completed.
    pub fn apply_agent_response(&mut self, launcher: &str, resp: &Json, now: &Reading) -> (r: bool)
        requires
            old(self).valid(),
        ensures
            final(self).valid(),
            final(self).timer() == old(self).timer(),
            (final(self)@, r) == with_response(old(self)@, launcher@, resp@, *now),
            r <==> (resp@.str_field("agentId"@) matches Some(child) && child != launcher@ && old(
                self,
            )@.contains_key(child)),
            !r ==> final(self)@ == old(self)@,
            final(self)@.dom() == old(self)@.dom(),
            forall|id: Seq<char>|
                resp@.str_field("agentId"@) != Some(id) ==> #[trigger] final(self)@[id] == old(
                    self,
                )@[id],
    {
        let child_id = match str_field(resp, "agentId") {
            Some(id) => id,
            None => {
                return false;
            },
        };
        if same_str(child_id, launcher) {
            return false;
        }
        let launcher_exists: bool = self.position(launcher).is_some();
        match self.take(child_id) {
            Some(n) => {
                let mut node = n;
                if launcher_exists {
                    node.parent = Some(launcher.to_owned());
                }
                node.last_event = now.at;
                let kind = node.agent_type.take();
                node.agent_type = or_kept(str_field(resp, "agentType"), kind);
                let model = node.model.take();
                node.model = or_kept(str_field(resp, "resolvedModel"), model);
                let completed: bool = match str_field(resp, "status") {
                    Some(s) => same_str(s, "completed"),
                    None => false,
                };
                if completed {
                    node.status = Status::Done;
                    node.tokens = or_number(u64_field(resp, "totalTokens"), node.tokens);
                    node.duration_ms = or_number(
                        u64_field(resp, "totalDurationMs"),
                        node.duration_ms,
                    );
                    node.tool_calls = or_number(
                        u64_field(resp, "totalToolUseCount"),
                        node.tool_calls,
                    );
                }
                proof {
                    let t = old(self)@;
                    assert(node@ =~= launched(t, t[child_id@], launcher@, resp@, *now));
                    assert(self@.insert(child_id@, node@) =~= t.insert(child_id@, node@));
                }
                self.put(node);
                true
            },
            None => false,
        }
    }

    /// Takes in the numbers of a background agent from the prompt that reports its end.
    pub fn enrich_from_task_notification(&mut self, prompt: &str, now: &Reading)
        requires
            old(self).valid(),
        ensures
            final(self).valid(),
            final(self).timer() == old(self).timer(),
            final(self)@ == enriched(old(self)@, prompt@, *now),
            final(self)@.dom() == old(self)@.dom(),
            forall|id: Seq<char>|
                notified_task(prompt@) != Some(id) ==> #[trigger] final(self)@[id] == old(self)@[id],
            forall|id: Seq<char>| #[trigger]
                old(self)@.contains_key(id) ==> final(self)@[id].status == old(self)@[id].status
                    && final(self)@[id].parent == old(self)@[id].parent,
    {
        if !contains_str(prompt, "<task-notification>") {
            return;
        }
        match extract_tag(prompt, "task-id") {
            Some(task_id) => match self.take(task_id) {
                Some(n) => {
                    let mut node = n;
                    node.last_event = now.at;
                    node.tokens = or_number(read_tag(prompt, "subagent_tokens"), node.tokens);
                    node.tool_calls = or_number(read_tag(prompt, "tool_uses"), node.tool_calls);
                    node.duration_ms = or_number(read_tag(prompt, "duration_ms"), node.duration_ms);
                    self.put(node);
                    assert(self@ =~= enriched(old(self)@, prompt@, *now));
                },
                None => {},
            },
            None => {},
        }
    }
}

impl Store {
    /// Takes in one payload, with what the clocks said when it came.
    pub fn apply_at(&mut self, event: &Json, now: &Reading) -> (r: bool)
        requires
            old(self).valid(),
        ensures
            final(self).valid(),
            final(self).timer() == old(self).timer(),
            (final(self)@, r) == step(old(self)@, event@, *now),
    {
        let name = match str_field(event, "hook_event_name") {
            Some(n) => n,
            None => {
                return false;
            },
        };
        let session_id = match str_field(event, "session_id") {
            Some(s) => s,
            None => {
                return false;
            },
        };
        let agent_id = str_field(event, "agent_id");
        let agent_type = str_field(event, "agent_type");
        let cwd = str_field(event, "cwd");
        let subject = match agent_id {
            Some(a) => a,
            None => session_id,
        };
        match Hook::named(name) {
            Hook::SessionStart => {
                self.upsert_root(session_id, cwd, Status::Idle, now);
                if let Some(model) = str_field(event, "model") {
                    if let Some(n) = self.take(session_id) {
                        let mut node = n;
                        node.model = Some(model.to_owned());
                        self.put(node);
                    }
                }
                assert(self@ =~= after_session_start(old(self)@, event@, *now));
                true
            },
            Hook::UserPromptSubmit => match agent_id {
                Some(aid) => self.touch(aid, Some(Status::Working), now),
                None => {
                    self.upsert_root(session_id, cwd, Status::Working, now);
                    if let Some(prompt) = str_field(event, "prompt") {
                        self.enrich_from_task_notification(prompt, now);
                    }
                    true
                },
            },
            Hook::SubagentStart => match agent_id {
                Some(aid) => {
                    self.upsert_root(session_id, cwd, Status::Working, now);
                    let mut node = match self.take(aid) {
                        Some(n) => n,
                        None => Node::new(aid, Some(session_id), Status::Working, now),
                    };
                    node.status = Status::Working;
                    node.last_event = now.at;
                    let kind = node.agent_type.take();
                    node.agent_type = or_kept(agent_type, kind);
                    let dir = node.cwd.take();
                    node.cwd = or_kept(cwd, dir);
                    self.put(node);
                    assert(self@ =~= after_subagent_start(old(self)@, event@, *now).0);
                    true
                },
                None => false,
            },
            Hook::SubagentStop => match agent_id {
                Some(aid) => {
                    if self.touch(aid, Some(Status::Done), now) {
                        return true;
                    }
                    match agent_type {
                        Some(kind) => {
                            let mut node = Node::new(aid, Some(session_id), Status::Done, now);
                            node.agent_type = Some(kind.to_owned());
                            node.cwd = owned(cwd);
                            self.put(node);
                            true
                        },
                        None => false,
                    }
                },
                None => false,
            },
            Hook::Stop => match agent_id {
                Some(aid) => self.touch(aid, Some(Status::Done), now),
                None => {
                    self.upsert_root(session_id, cwd, Status::Done, now);
                    true
                },
            },
            Hook::StopFailure => match agent_id {
                Some(aid) => self.touch(aid, Some(Status::Error), now),
                None => {
                    self.upsert_root(session_id, cwd, Status::Error, now);
                    true
                },
            },
            Hook::Notification => {
                let status = status_of_notification(str_field(event, "notification_type"));
                match agent_id {
                    Some(aid) => self.touch(aid, status, now),
                    None => match status {
                        Some(s) => {
                            self.upsert_root(session_id, cwd, s, now);
                            true
                        },
                        None => match self.position(session_id) {
                            Some(i) => {
                                let kept: Status = self.nodes[i].status;
                                self.upsert_root(session_id, cwd, kept, now);
                                true
                            },
                            None => false,
                        },
                    },
                }
            },
            Hook::PreToolUse => if is_agent_tool(event) {
                self.touch(subject, Some(Status::Working), now)
            } else {
                false
            },
            Hook::PostToolUse => if is_agent_tool(event) {
                let known: bool = self.touch(subject, Some(Status::Working), now);
                match event.get("tool_response") {
                    Some(resp) => {
                        let enriched: bool = self.apply_agent_response(subject, resp, now);
                        known || enriched
                    },
                    None => known,
                }
            } else {
                false
            },
            Hook::SessionEnd => self.remove_tree(session_id),
            Hook::Other => false,
        }
    }

    /// What the clocks say: the store's own, from which its times count, and the system's.
    pub fn now(&self) -> (r: Reading)
        ensures
            self.timer().reads(r),
    {
        self.clock.read()
    }

    /// Takes in one payload. Returns whether the tree changed.
    pub fn apply(&mut self, event: &Json) -> (r: bool)
        requires
            old(self).valid(),
        ensures
            final(self).valid(),
            final(self).timer() == old(self).timer(),
            exists|now: Reading|
                old(self).timer().reads(now) && (final(self)@, r) == #[trigger] step(
                    old(self)@,
                    event@,
                    now,
                ),
    {
        let now = self.now();
        self.apply_at(event, &now)
    }

    /// The number of nodes.
    pub fn len(&self) -> (r: usize)
        requires
            self.valid(),
        ensures
            self@.dom().finite(),
            r == self@.len(),
    {
        proof {
            lemma_tree_len(self.nodes@);
        }
        self.nodes.len()
    }

    /// Whether there are no nodes.
    pub fn is_empty(&self) -> (r: bool)
        requires
            self.valid(),
        ensures
            r == (self@ == Tree::empty()),
    {
        proof {
            if self.nodes@.len() > 0 {
                lemma_tree_at(self.nodes@, 0);
            } else {
                assert(self@ =~= Tree::empty());
            }
        }
        self.nodes.len() == 0
    }
}

proof fn lemma_tree_len(nodes: Seq<Node>)
    requires
        distinct(nodes),
    ensures
        tree_of(nodes).dom().finite(),
        tree_of(nodes).dom().len() == nodes.len(),
    decreases nodes.len(),
{
    if nodes.len() == 0 {
        assert(tree_of(nodes).dom() =~= Set::empty());
    } else {
        let less = nodes.drop_last();
        assert(distinct(less));
        lemma_tree_len(less);
        let id = nodes.last().id@;
        if tree_of(less).contains_key(id) {
            let i = lemma_tree_has(less, id);
            assert(nodes[i].id@ != nodes[nodes.len() - 1].id@);
        }
        lemma_tree_push(less, nodes.last());
        assert(less.push(nodes.last()) == nodes);
    }
}

impl Default for Store {
    /// The empty store.
    fn default() -> (r: Store)
        ensures
            r.valid(),
            r@ == Tree::empty(),
    {
        let r = Store { nodes: Vec::new(), clock: Clock::start() };
        assert(r@ =~= Tree::empty());
        r
    }
}

} // verus!
