//! Fastest routes between nodes of the graph.
use vstd::prelude::*;
use crate::store::{outgoing, GraphStore, GraphView};
use crate::strmap::StrMap;
use crate::text::str_eq;

verus! {

/// The travel time of one relation, in minutes. Relations carry no travel time of their
/// own, so each counts this default.
pub const DEFAULT_TRAVEL_MINUTES: u32 = 60;

/// Whether `g` has a relation from `a` to `b`.
pub open spec fn step(g: GraphView, a: Seq<char>, b: Seq<char>) -> bool {
    exists|i: int| 0 <= i < outgoing(g.edges, a).len() && #[trigger] outgoing(g.edges, a)[i].target_id == b
}

/// Whether a relation leads from the `i`-th node of `p` to the next one.
pub open spec fn linked(g: GraphView, p: Seq<Seq<char>>, i: int) -> bool {
    step(g, p[i], p[i + 1])
}

/// Whether `p` is a route from `s` to `t` in `g`: node ids from `s` to `t`, each joined to the
/// next by a relation.
pub open spec fn is_route(g: GraphView, p: Seq<Seq<char>>, s: Seq<char>, t: Seq<char>) -> bool {
    &&& p.len() >= 1
    &&& p[0] == s
    &&& p.last() == t
    &&& forall|i: int| 0 <= i < p.len() - 1 ==> #[trigger] linked(g, p, i)
}

/// Whether some route from `s` to `t` in `g` takes at most `u32::MAX` minutes.
pub open spec fn route_fits(g: GraphView, s: Seq<char>, t: Seq<char>) -> bool {
    exists|p: Seq<Seq<char>>| #[trigger] is_route(g, p, s, t) && 60 * (p.len() - 1) <= u32::MAX
}

/// Whether some route leads from `s` to `t` in `g`.
pub open spec fn reachable(g: GraphView, s: Seq<char>, t: Seq<char>) -> bool {
    exists|p: Seq<Seq<char>>| #[trigger] is_route(g, p, s, t)
}

/// Whether `b` is one relation away from a node of `nodes`.
spec fn one_step_from(g: GraphView, nodes: Set<Seq<char>>, b: Seq<char>) -> bool {
    exists|a: Seq<char>| #![trigger nodes.contains(a), step(g, a, b)] nodes.contains(a) && step(g, a, b)
}

/// The nodes that routes of at most `n` relations reach from `s`.
spec fn within(g: GraphView, s: Seq<char>, n: nat) -> Set<Seq<char>>
    decreases n,
{
    if n == 0 {
        set![s]
    } else {
        let prev = within(g, s, (n - 1) as nat);
        prev.union(Set::new(|b: Seq<char>| one_step_from(g, prev, b)))
    }
}

proof fn lemma_within_step(g: GraphView, s: Seq<char>, n: nat, a: Seq<char>, b: Seq<char>)
    requires
        within(g, s, n).contains(a),
        step(g, a, b),
    ensures
        within(g, s, n + 1).contains(b),
{
    assert(one_step_from(g, within(g, s, n), b));
}

proof fn lemma_within_grows(g: GraphView, s: Seq<char>, n: nat, m: nat)
    requires
        n <= m,
    ensures
        within(g, s, n).subset_of(within(g, s, m)),
    decreases m - n,
{
    if n < m {
        lemma_within_grows(g, s, n, (m - 1) as nat);
    }
}

/// The last node of a route of `p.len() - 1` relations from `s` is reached within that many.
proof fn lemma_route_within(g: GraphView, p: Seq<Seq<char>>, s: Seq<char>, t: Seq<char>)
    requires
        is_route(g, p, s, t),
    ensures
        within(g, s, (p.len() - 1) as nat).contains(t),
    decreases p.len(),
{
    if p.len() > 1 {
        let q = p.drop_last();
        assert forall|i: int| 0 <= i < q.len() - 1 implies #[trigger] linked(g, q, i) by {
            assert(linked(g, p, i));
        }
        lemma_route_within(g, q, s, q.last());
        assert(linked(g, p, p.len() - 2));
        lemma_within_step(g, s, (p.len() - 2) as nat, q.last(), t);
    }
}

/// Every node reached within `n` relations is reachable.
proof fn lemma_within_reaches(g: GraphView, s: Seq<char>, n: nat, x: Seq<char>)
    requires
        within(g, s, n).contains(x),
    ensures
        reachable(g, s, x),
    decreases n,
{
    if n == 0 {
        let p = seq![s];
        assert(is_route(g, p, s, x));
    } else {
        let prev = within(g, s, (n - 1) as nat);
        if prev.contains(x) {
            lemma_within_reaches(g, s, (n - 1) as nat, x);
        } else {
            assert(one_step_from(g, prev, x));
            let a = choose|a: Seq<char>| #![trigger prev.contains(a), step(g, a, x)] prev.contains(a) && step(g, a, x);
            lemma_within_reaches(g, s, (n - 1) as nat, a);
            let p = choose|p: Seq<Seq<char>>| #[trigger] is_route(g, p, s, a);
            let q = p.push(x);
            assert forall|i: int| 0 <= i < q.len() - 1 implies #[trigger] linked(g, q, i) by {
                if i < p.len() - 1 {
                    assert(linked(g, p, i));
                } else {
                    assert(q[i] == a && q[i + 1] == x);
                }
            }
            assert(is_route(g, q, s, x));
        }
    }
}

/// Once a round reaches no new node, no later round does.
proof fn lemma_within_settles(g: GraphView, s: Seq<char>, k: nat, n: nat)
    requires
        within(g, s, k + 1).subset_of(within(g, s, k)),
        k <= n,
    ensures
        within(g, s, n).subset_of(within(g, s, k)),
    decreases n - k,
{
    if n > k {
        lemma_within_settles(g, s, k, (n - 1) as nat);
        let prev = within(g, s, (n - 1) as nat);
        assert forall|b: Seq<char>| within(g, s, n).contains(b) implies within(g, s, k).contains(b) by {
            if !prev.contains(b) {
                assert(one_step_from(g, prev, b));
                let a = choose|a: Seq<char>| #![trigger prev.contains(a), step(g, a, b)] prev.contains(a) && step(g, a, b);
                lemma_within_step(g, s, k, a, b);
            }
        }
    }
}

/// The search tree: node ids in order of discovery, each with its parent and its depth.
spec fn tree_ok(g: GraphView, s: Seq<char>, names: Seq<Seq<char>>, par: Seq<usize>, lv: Seq<usize>) -> bool {
    &&& names.len() >= 1
    &&& par.len() == names.len()
    &&& lv.len() == names.len()
    &&& names[0] == s
    &&& lv[0] == 0
    &&& forall|m: int| 0 < m < names.len() ==> #[trigger] par[m] < m && lv[par[m] as int] + 1 == lv[m]
        && step(g, names[par[m] as int], names[m])
    &&& forall|i: int, j: int| 0 <= i < j < names.len() ==> #[trigger] names[i] != #[trigger] names[j]
}

/// The ancestor of node `m` at depth `j`.
spec fn ancestor(par: Seq<usize>, lv: Seq<usize>, m: int, j: int) -> int
    decreases m,
{
    if m <= 0 || lv[m] <= j || par[m] >= m {
        m
    } else {
        ancestor(par, lv, par[m] as int, j)
    }
}

proof fn lemma_ancestor(g: GraphView, s: Seq<char>, names: Seq<Seq<char>>, par: Seq<usize>, lv: Seq<usize>, m: int, j: int)
    requires
        tree_ok(g, s, names, par, lv),
        0 <= m < names.len(),
        0 <= j <= lv[m],
    ensures
        0 <= ancestor(par, lv, m, j) <= m,
        lv[ancestor(par, lv, m, j)] == j,
        j < lv[m] ==> g.edges.contains_key(names[ancestor(par, lv, m, j)]),
    decreases m,
{
    if lv[m] > j {
        assert(m > 0);
        assert(par[m] < m);
        let p = par[m] as int;
        lemma_ancestor(g, s, names, par, lv, p, j);
        if j == lv[p] {
            assert(step(g, names[p], names[m]));
        }
    }
}

/// A node's depth is at most the number of nodes with relations: its ancestors are
/// distinct and each has a relation.
proof fn lemma_depth_bound(g: GraphView, s: Seq<char>, names: Seq<Seq<char>>, par: Seq<usize>, lv: Seq<usize>, m: int)
    requires
        tree_ok(g, s, names, par, lv),
        0 <= m < names.len(),
        g.edges.dom().finite(),
    ensures
        lv[m] <= g.edges.dom().len(),
        g.edges.contains_key(names[m]) ==> lv[m] + 1 <= g.edges.dom().len(),
{
    let d = if g.edges.contains_key(names[m]) { lv[m] + 1 } else { lv[m] as int };
    let chain = Seq::new(d as nat, |j: int| names[ancestor(par, lv, m, j)]);
    assert forall|j: int| 0 <= j < d implies #[trigger] g.edges.dom().contains(chain[j]) by {
        lemma_ancestor(g, s, names, par, lv, m, j);
    }
    assert forall|a: int, b: int| 0 <= a < chain.len() && 0 <= b < chain.len() && a != b implies chain[a] != chain[b] by {
        lemma_ancestor(g, s, names, par, lv, m, a);
        lemma_ancestor(g, s, names, par, lv, m, b);
        let x = ancestor(par, lv, m, a);
        let y = ancestor(par, lv, m, b);
        assert(x != y);
        if x < y {
            assert(names[x] != names[y]);
        } else {
            assert(names[y] != names[x]);
        }
    }
    assert(chain.no_duplicates());
    chain.unique_seq_to_set();
    assert forall|x: Seq<char>| chain.to_set().contains(x) implies g.edges.dom().contains(x) by {
        assert(chain.contains(x));
        let j = choose|j: int| 0 <= j < chain.len() && chain[j] == x;
        assert(g.edges.dom().contains(chain[j]));
    }
    vstd::set_lib::lemma_len_subset(chain.to_set(), g.edges.dom());
}

/// Each discovered node is first reached at its depth.
spec fn depths_exact(g: GraphView, s: Seq<char>, names: Seq<Seq<char>>, lv: Seq<usize>) -> bool {
    forall|m: int| 0 <= m < names.len() ==> #[trigger] within(g, s, lv[m] as nat).contains(names[m])
        && (lv[m] > 0 ==> !within(g, s, (lv[m] - 1) as nat).contains(names[m]))
}

/// `idx` maps each discovered node id to its position.
spec fn indexed(names: Seq<Seq<char>>, idx: Map<Seq<char>, usize>) -> bool {
    &&& forall|m: int| 0 <= m < names.len() ==> #[trigger] idx.contains_key(names[m]) && idx[names[m]] == m
    &&& forall|x: Seq<char>| #[trigger] idx.contains_key(x) ==> idx[x] < names.len() && names[idx[x] as int] == x
}

/// Depths by position: below `lo` they are less than `k`, from `lo` to `hi` they are `k`, and
/// from `hi` on they are `k + 1`.
spec fn layered(lv: Seq<usize>, lo: int, hi: int, k: int) -> bool {
    &&& 0 <= lo < hi <= lv.len()
    &&& forall|m: int| 0 <= m < lo ==> #[trigger] lv[m] < k
    &&& forall|m: int| lo <= m < hi ==> #[trigger] lv[m] == k
    &&& forall|m: int| hi <= m < lv.len() ==> #[trigger] lv[m] == k + 1
}

/// Every node reached within `k` relations was discovered before position `hi`.
spec fn covers(g: GraphView, s: Seq<char>, idx: Map<Seq<char>, usize>, hi: int, k: nat) -> bool {
    forall|x: Seq<char>| #[trigger] within(g, s, k).contains(x) ==> idx.contains_key(x) && idx[x] < hi
}

/// Every node one relation away from `a` was discovered.
spec fn expanded(g: GraphView, idx: Map<Seq<char>, usize>, a: Seq<char>) -> bool {
    forall|b: Seq<char>| #[trigger] step(g, a, b) ==> idx.contains_key(b)
}

/// The state of the search while it expands the nodes at depth `k`, from `lo` to `hi`.
spec fn search_ok(
    g: GraphView,
    s: Seq<char>,
    t: Seq<char>,
    names: Seq<Seq<char>>,
    par: Seq<usize>,
    lv: Seq<usize>,
    idx: Map<Seq<char>, usize>,
    lo: int,
    hi: int,
    k: nat,
) -> bool {
    &&& tree_ok(g, s, names, par, lv)
    &&& depths_exact(g, s, names, lv)
    &&& indexed(names, idx)
    &&& layered(lv, lo, hi, k as int)
    &&& covers(g, s, idx, hi, k)
    &&& !idx.contains_key(t)
}

/// Discovering `bv`, one relation away from the node at position `i` at depth `k`, keeps
/// the search tree sound, with `bv` at depth `k + 1`.
proof fn lemma_discover(
    g: GraphView,
    s: Seq<char>,
    t: Seq<char>,
    names: Seq<Seq<char>>,
    par: Seq<usize>,
    lv: Seq<usize>,
    idx: Map<Seq<char>, usize>,
    lo: int,
    hi: int,
    k: nat,
    i: int,
    bv: Seq<char>,
)
    requires
        search_ok(g, s, t, names, par, lv, idx, lo, hi, k),
        lo <= i < hi,
        step(g, names[i], bv),
        !idx.contains_key(bv),
        k + 1 <= usize::MAX,
        names.len() <= usize::MAX,
    ensures
        !within(g, s, k).contains(bv),
        within(g, s, k + 1).contains(bv),
        tree_ok(g, s, names.push(bv), par.push(i as usize), lv.push((k + 1) as usize)),
        bv != t ==> search_ok(
            g,
            s,
            t,
            names.push(bv),
            par.push(i as usize),
            lv.push((k + 1) as usize),
            idx.insert(bv, names.len() as usize),
            lo,
            hi,
            k,
        ),
{
    let n = names.len() as int;
    let names1 = names.push(bv);
    let par1 = par.push(i as usize);
    let lv1 = lv.push((k + 1) as usize);
    let idx1 = idx.insert(bv, n as usize);
    assert(lv[i] == k);
    assert(within(g, s, lv[i] as nat).contains(names[i]));
    lemma_within_step(g, s, k, names[i], bv);
    assert forall|x: int, y: int| 0 <= x < y < names1.len() implies #[trigger] names1[x] != #[trigger] names1[y] by {
        if y == n {
            assert(idx.contains_key(names[x]));
        } else {
            assert(names[x] != names[y]);
        }
    }
    assert forall|m: int| 0 < m < names1.len() implies #[trigger] par1[m] < m && lv1[par1[m] as int] + 1 == lv1[m]
        && step(g, names1[par1[m] as int], names1[m]) by {
        if m < n {
            assert(par[m] < m && lv[par[m] as int] + 1 == lv[m]);
            assert(step(g, names[par[m] as int], names[m]));
        }
    }
    assert(tree_ok(g, s, names1, par1, lv1));
    assert forall|m: int| 0 <= m < names1.len() implies #[trigger] within(g, s, lv1[m] as nat).contains(names1[m])
        && (lv1[m] > 0 ==> !within(g, s, (lv1[m] - 1) as nat).contains(names1[m])) by {
        if m < n {
            assert(within(g, s, lv[m] as nat).contains(names[m]));
        }
    }
    assert(depths_exact(g, s, names1, lv1));
    assert forall|m: int| 0 <= m < names1.len() implies #[trigger] idx1.contains_key(names1[m]) && idx1[names1[m]] == m by {
        if m < n {
            assert(idx.contains_key(names[m]) && idx[names[m]] == m);
        }
    }
    assert forall|x: Seq<char>| #[trigger] idx1.contains_key(x) implies idx1[x] < names1.len() && names1[idx1[x] as int] == x by {
        if x != bv {
            assert(idx.contains_key(x));
        }
    }
    assert(indexed(names1, idx1));
    assert(layered(lv1, lo, hi, k as int));
    assert forall|x: Seq<char>| #[trigger] within(g, s, k).contains(x) implies idx1.contains_key(x) && idx1[x] < hi by {
        assert(idx.contains_key(x) && idx[x] < hi);
    }
    assert(covers(g, s, idx1, hi, k));
}

/// After every node at depth `k` has been expanded, the nodes reached within `k + 1`
/// relations are the discovered ones.
proof fn lemma_round_complete(
    g: GraphView,
    s: Seq<char>,
    t: Seq<char>,
    names: Seq<Seq<char>>,
    par: Seq<usize>,
    lv: Seq<usize>,
    idx: Map<Seq<char>, usize>,
    lo: int,
    hi: int,
    k: nat,
)
    requires
        search_ok(g, s, t, names, par, lv, idx, lo, hi, k),
        forall|m: int| lo <= m < hi ==> #[trigger] expanded(g, idx, names[m]),
    ensures
        forall|x: Seq<char>| #[trigger] within(g, s, k + 1).contains(x) ==> idx.contains_key(x),
        forall|x: Seq<char>| idx.contains_key(x) ==> #[trigger] within(g, s, k + 1).contains(x),
{
    let prev = within(g, s, k);
    assert forall|x: Seq<char>| #[trigger] within(g, s, k + 1).contains(x) implies idx.contains_key(x) by {
        if !prev.contains(x) {
            assert(one_step_from(g, prev, x));
            let a = choose|a: Seq<char>| #![trigger prev.contains(a), step(g, a, x)] prev.contains(a) && step(g, a, x);
            let m = idx[a] as int;
            assert(names[m] == a);
            if m >= lo {
                assert(expanded(g, idx, names[m]));
            } else {
                assert(within(g, s, lv[m] as nat).contains(names[m]));
                lemma_within_step(g, s, lv[m] as nat, a, x);
                lemma_within_grows(g, s, (lv[m] + 1) as nat, k);
            }
        }
    }
    assert forall|x: Seq<char>| idx.contains_key(x) implies #[trigger] within(g, s, k + 1).contains(x) by {
        let m = idx[x] as int;
        assert(within(g, s, lv[m] as nat).contains(names[m]));
        lemma_within_grows(g, s, lv[m] as nat, k + 1);
    }
}

/// The route that the search tree gives from the start to the node at position `t`.
fn route_to(
    found: &Vec<String>,
    parent: &Vec<usize>,
    level: &Vec<usize>,
    t: usize,
    Ghost(g): Ghost<GraphView>,
    Ghost(s): Ghost<Seq<char>>,
) -> (p: Vec<String>)
    requires
        tree_ok(g, s, found.deep_view(), parent@, level@),
        t < found@.len(),
        level@[t as int] < usize::MAX,
    ensures
        is_route(g, p.deep_view(), s, found.deep_view()[t as int]),
        p@.len() == level@[t as int] + 1,
{
    let ghost names = found.deep_view();
    let len = level[t] + 1;
    let mut path: Vec<String> = Vec::new();
    while path.len() < len
        invariant
            path@.len() <= len,
        decreases len - path@.len(),
    {
        path.push(String::new());
    }
    let mut cur = t;
    loop
        invariant
            tree_ok(g, s, names, parent@, level@),
            names == found.deep_view(),
            t < found@.len(),
            len == level@[t as int] + 1,
            cur < found@.len(),
            level@[cur as int] <= level@[t as int],
            path@.len() == len,
            cur == t <==> level@[cur as int] == level@[t as int],
            level@[cur as int] < level@[t as int] ==> path.deep_view().last() == names[t as int],
            level@[cur as int] < level@[t as int] ==> step(g, names[cur as int], path.deep_view()[level@[cur as int] + 1]),
            forall|q: int| level@[cur as int] < q < len - 1 ==> #[trigger] linked(g, path.deep_view(), q),
        ensures
            is_route(g, path.deep_view(), s, names[t as int]),
        decreases level@[cur as int],
    {
        let ghost before = path.deep_view();
        let d = level[cur];
        let name = found[cur].clone();
        path.set(d, name);
        proof {
            assert(path.deep_view() =~= before.update(d as int, names[cur as int]));
            assert forall|q: int| d <= q < len - 1 implies #[trigger] linked(g, path.deep_view(), q) by {
                if q > d {
                    assert(linked(g, before, q));
                }
            }
        }
        proof {
            if d == level@[t as int] {
                assert(path.deep_view().last() == names[t as int]);
            } else {
                assert(path.deep_view().last() == before.last());
            }
        }
        if d == 0 {
            proof {
                assert(cur == 0) by {
                    if cur > 0 {
                        assert(parent@[cur as int] < cur);
                    }
                }
                if d < level@[t as int] {
                    assert(linked(g, path.deep_view(), 0));
                }
                assert(is_route(g, path.deep_view(), s, names[t as int]));
            }
            break;
        }
        proof {
            assert(cur > 0);
            assert(parent@[cur as int] < cur);
        }
        cur = parent[cur];
    }
    path
}

impl GraphStore {
    /// The fastest route from the node `start` to `target`, each relation taking
    /// [`DEFAULT_TRAVEL_MINUTES`], with its travel time in minutes; `None` when `start` is not
    /// a node or no route leads to `target`. A route's travel time must fit in a `u32`.
    pub fn chemin_le_plus_court(&self, start: &str, target: &str) -> (r: Option<(Vec<String>, u32)>)
        requires
            reachable(self@, start@, target@) ==> route_fits(self@, start@, target@),
        ensures
            !self@.nodes.contains_key(start@) ==> r is None,
            self@.nodes.contains_key(start@) ==> (r is Some <==> reachable(self@, start@, target@)),
            r matches Some((path, minutes)) ==> {
                &&& is_route(self@, path.deep_view(), start@, target@)
                &&& minutes == 60 * (path@.len() - 1)
                &&& forall|q: Seq<Seq<char>>| #[trigger] is_route(self@, q, start@, target@) ==> path@.len() <= q.len()
            },
    {
        let ghost g = self@;
        let ghost s = start@;
        let ghost t = target@;
        if !self.nodes.contains_key(start) {
            return None;
        }
        let dom_len = self.edges.len();
        if str_eq(start, target) {
            let mut path: Vec<String> = Vec::new();
            path.push(start.to_owned());
            proof {
                assert(path.deep_view() =~= seq![s]);
                assert(is_route(g, path.deep_view(), s, t));
            }
            return Some((path, 0));
        }
        let mut found: Vec<String> = Vec::new();
        found.push(start.to_owned());
        let mut parent: Vec<usize> = Vec::new();
        parent.push(0);
        let mut level: Vec<usize> = Vec::new();
        level.push(0);
        let mut index: StrMap<usize> = StrMap::new();
        index.insert(start.to_owned(), 0);
        let mut lo: usize = 0;
        let mut hi: usize = 1;
        let mut k: usize = 0;
        proof {
            assert(found.deep_view() =~= seq![s]);
            assert(within(g, s, 0) =~= set![s]);
            assert(index@ =~= map![s => 0usize]);
        }
        loop
            invariant
                g == self@,
                s == start@,
                t == target@,
                s != t,
                g.nodes.contains_key(s),
                g.edges.dom().finite(),
                dom_len == g.edges.dom().len(),
                reachable(g, s, t) ==> route_fits(g, s, t),
                k <= dom_len,
                search_ok(g, s, t, found.deep_view(), parent@, level@, index@, lo as int, hi as int, k as nat),
                hi == found@.len(),
            decreases dom_len - k,
        {
            let mut i: usize = lo;
            while i < hi
                invariant
                    g == self@,
                    s == start@,
                    t == target@,
                    s != t,
                    g.nodes.contains_key(s),
                    g.edges.dom().finite(),
                    dom_len == g.edges.dom().len(),
                    reachable(g, s, t) ==> route_fits(g, s, t),
                    k <= dom_len,
                    lo <= i <= hi,
                    search_ok(g, s, t, found.deep_view(), parent@, level@, index@, lo as int, hi as int, k as nat),
                    forall|m: int| lo <= m < i ==> #[trigger] expanded(g, index@, found.deep_view()[m]),
                decreases hi - i,
            {
                let ghost a = found.deep_view()[i as int];
                match self.edges.get(found[i].as_str()) {
                    Some(es) => {
                        let mut j: usize = 0;
                        while j < es.len()
                            invariant
                                g == self@,
                                s == start@,
                                t == target@,
                                s != t,
                                g.nodes.contains_key(s),
                                g.edges.dom().finite(),
                                dom_len == g.edges.dom().len(),
                                reachable(g, s, t) ==> route_fits(g, s, t),
                                k <= dom_len,
                                lo <= i < hi,
                                a == found.deep_view()[i as int],
                                g.edges.contains_key(a),
                                es.deep_view() == g.edges[a],
                                j <= es@.len(),
                                search_ok(g, s, t, found.deep_view(), parent@, level@, index@, lo as int, hi as int, k as nat),
                                forall|m: int| lo <= m < i ==> #[trigger] expanded(g, index@, found.deep_view()[m]),
                                forall|e: int| 0 <= e < j ==> index@.contains_key(#[trigger] es.deep_view()[e].target_id),
                            decreases es@.len() - j,
                        {
                            let b = &es[j].target_id;
                            let ghost names = found.deep_view();
                            let ghost bv = b@;
                            proof {
                                assert(es.deep_view()[j as int].target_id == bv);
                                assert(outgoing(g.edges, a)[j as int].target_id == bv);
                                assert(step(g, a, bv));
                            }
                            if !index.contains_key(b.as_str()) {
                                proof {
                                    lemma_depth_bound(g, s, names, parent@, level@, i as int);
                                }
                                let ghost idx0 = index@;
                                let ghost par0 = parent@;
                                let ghost lv0 = level@;
                                let n = found.len();
                                found.push(b.clone());
                                parent.push(i);
                                level.push(k + 1);
                                index.insert(b.clone(), n);
                                proof {
                                    assert(found.deep_view() =~= names.push(bv));
                                    assert(parent@ =~= par0.push(i));
                                    assert(level@ =~= lv0.push((k + 1) as usize));
                                    lemma_discover(g, s, t, names, par0, lv0, idx0, lo as int, hi as int, k as nat, i as int, bv);
                                    assert forall|m: int| lo <= m < i implies #[trigger] expanded(g, index@, found.deep_view()[m]) by {
                                        assert(expanded(g, idx0, names[m]));
                                        assert forall|y: Seq<char>| #[trigger] step(g, names[m], y) implies index@.contains_key(y) by {
                                            assert(idx0.contains_key(y));
                                        }
                                    }
                                    assert forall|e: int| 0 <= e <= j implies index@.contains_key(#[trigger] es.deep_view()[e].target_id) by {
                                        if e < j {
                                            assert(idx0.contains_key(es.deep_view()[e].target_id));
                                        }
                                    }
                                }
                                if str_eq(b.as_str(), target) {
                                    proof {
                                        // A route whose time fits is at least `k + 1` relations long.
                                        assert(bv == t);
                                        assert(within(g, s, (k + 1) as nat).contains(t));
                                        assert(reachable(g, s, t)) by {
                                            lemma_within_reaches(g, s, (k + 1) as nat, t);
                                        }
                                        let q = choose|q: Seq<Seq<char>>| #[trigger] is_route(g, q, s, t) && 60 * (q.len() - 1) <= u32::MAX;
                                        lemma_route_within(g, q, s, t);
                                        if q.len() - 1 <= k {
                                            lemma_within_grows(g, s, (q.len() - 1) as nat, k as nat);
                                        }
                                    }
                                    let path = route_to(&found, &parent, &level, n, Ghost(g), Ghost(s));
                                    proof {
                                        assert forall|q: Seq<Seq<char>>| #[trigger] is_route(g, q, s, t) implies path@.len() <= q.len() by {
                                            lemma_route_within(g, q, s, t);
                                            if q.len() - 1 <= k {
                                                lemma_within_grows(g, s, (q.len() - 1) as nat, k as nat);
                                            }
                                        }
                                        // The route found is no longer than one whose travel time fits.
                                        assert(reachable(g, s, t));
                                        let q = choose|q: Seq<Seq<char>>| #[trigger] is_route(g, q, s, t) && 60 * (q.len() - 1) <= u32::MAX;
                                        assert(path@.len() <= q.len());
                                    }
                                    let minutes: u32 = 60 * ((k + 1) as u32);
                                    return Some((path, minutes));
                                }
                                proof {
                                    assert(bv != t);
                                }
                            } else {
                                proof {
                                    assert forall|e: int| 0 <= e <= j implies index@.contains_key(#[trigger] es.deep_view()[e].target_id) by {
                                    }
                                }
                            }
                            j += 1;
                        }
                        proof {
                            let names = found.deep_view();
                            assert forall|y: Seq<char>| #[trigger] step(g, names[i as int], y) implies index@.contains_key(y) by {
                                let e = choose|e: int| 0 <= e < outgoing(g.edges, a).len() && #[trigger] outgoing(g.edges, a)[e].target_id == y;
                                assert(es.deep_view()[e].target_id == y);
                            }
                        }
                    },
                    None => {
                        proof {
                            let names = found.deep_view();
                            assert forall|y: Seq<char>| #[trigger] step(g, names[i as int], y) implies index@.contains_key(y) by {
                                assert(outgoing(g.edges, a).len() == 0);
                            }
                        }
                    },
                }
                proof {
                    assert(expanded(g, index@, found.deep_view()[i as int]));
                }
                i += 1;
            }
            let ghost names = found.deep_view();
            proof {
                lemma_round_complete(g, s, t, names, parent@, level@, index@, lo as int, hi as int, k as nat);
            }
            if found.len() == hi {
                proof {
                    assert(within(g, s, (k + 1) as nat).subset_of(within(g, s, k as nat))) by {
                        assert forall|x: Seq<char>| #[trigger] within(g, s, (k + 1) as nat).contains(x) implies within(g, s, k as nat).contains(x) by {
                            let m = index@[x] as int;
                            assert(names[m] == x);
                            assert(within(g, s, level@[m] as nat).contains(names[m]));
                            lemma_within_grows(g, s, level@[m] as nat, k as nat);
                        }
                    }
                    assert forall|q: Seq<Seq<char>>| is_route(g, q, s, t) implies false by {
                        lemma_route_within(g, q, s, t);
                        if q.len() - 1 >= k {
                            lemma_within_settles(g, s, k as nat, (q.len() - 1) as nat);
                        } else {
                            lemma_within_grows(g, s, (q.len() - 1) as nat, k as nat);
                        }
                    }
                }
                return None;
            }
            proof {
                lemma_depth_bound(g, s, names, parent@, level@, hi as int);
                assert forall|x: Seq<char>| #[trigger] within(g, s, (k + 1) as nat).contains(x) implies index@.contains_key(x) && index@[x] < names.len() by {
                }
                assert(covers(g, s, index@, names.len() as int, (k + 1) as nat));
                assert forall|m: int| 0 <= m < hi implies #[trigger] level@[m] < k + 1 by {
                    if m >= lo {
                        assert(level@[m] == k);
                    } else {
                        assert(level@[m] < k);
                    }
                }
                assert forall|m: int| hi <= m < level@.len() implies #[trigger] level@[m] == k + 1 by {
                }
                assert(layered(level@, hi as int, names.len() as int, (k + 1) as int));
            }
            lo = hi;
            hi = found.len();
            k = k + 1;
        }
    }
}

} // verus!
