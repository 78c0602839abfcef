//! The virtual machine that runs bytecode against a [`GraphStore`].
use vstd::prelude::*;
use crate::ast::{CommandView, EdgeExprView, ExecutionMode, Modifier, NodeExprView, PropertyFilter, PropertyFilterView};
use crate::codegen::{command_ops, load_op, path_ops, program_ops};
use crate::bytecode::{clone_opt_string, OpCode, OpCodeView};
use crate::store::{EdgeData, EdgeView, GraphStore, GraphView, NodeData, NodeView};
use crate::strmap::StrMap;

verus! {

/// Something the machine reports while it runs, for the user to see.
#[derive(Debug)]
pub enum VmEvent {
    /// A node was stored.
    NodeCreated { alias: String },
    /// A node passed its filters and became active (`label` as stored).
    NodeFound { alias: String, label: Option<String> },
    /// A node failed its filters; no node is active any more.
    NodeRejected { alias: String },
    /// No node has the alias; a sentinel node stands in for it.
    SentinelActivated { alias: String },
    /// A strict traversal moved along `relation` to the node `target`.
    StrictHop { relation: String, target: String },
    /// A strict traversal found no required `relation`; no node is active any more.
    StrictMissing { relation: String },
    /// A semantic traversal found a candidate `target` carrying a vector along `relation`.
    SemanticCandidate { relation: String, target: String },
    /// A traversal of `relation` was asked for while no node is active.
    NoActiveNode { relation: String },
    /// A relation was stored.
    EdgeCreated { source: String, name: String, target: String },
    /// The semantic filter `op threshold` is to be run.
    VectorFilterRequested { op: String, threshold: String },
    /// Sentinel fallback routes are on.
    SentinelRoutes,
    /// The node `alias` was assigned to the output register.
    ResultAssigned { alias: String },
}

/// The mathematical model of a [`VmEvent`].
pub enum EventView {
    NodeCreated { alias: Seq<char> },
    NodeFound { alias: Seq<char>, label: Option<Seq<char>> },
    NodeRejected { alias: Seq<char> },
    SentinelActivated { alias: Seq<char> },
    StrictHop { relation: Seq<char>, target: Seq<char> },
    StrictMissing { relation: Seq<char> },
    SemanticCandidate { relation: Seq<char>, target: Seq<char> },
    NoActiveNode { relation: Seq<char> },
    EdgeCreated { source: Seq<char>, name: Seq<char>, target: Seq<char> },
    VectorFilterRequested { op: Seq<char>, threshold: Seq<char> },
    SentinelRoutes,
    ResultAssigned { alias: Seq<char> },
}

impl View for VmEvent {
    type V = EventView;

    open spec fn view(&self) -> EventView {
        match self {
            VmEvent::NodeCreated { alias } => EventView::NodeCreated { alias: alias@ },
            VmEvent::NodeFound { alias, label } => EventView::NodeFound { alias: alias@, label: label.deep_view() },
            VmEvent::NodeRejected { alias } => EventView::NodeRejected { alias: alias@ },
            VmEvent::SentinelActivated { alias } => EventView::SentinelActivated { alias: alias@ },
            VmEvent::StrictHop { relation, target } => EventView::StrictHop { relation: relation@, target: target@ },
            VmEvent::StrictMissing { relation } => EventView::StrictMissing { relation: relation@ },
            VmEvent::SemanticCandidate { relation, target } => EventView::SemanticCandidate {
                relation: relation@,
                target: target@,
            },
            VmEvent::NoActiveNode { relation } => EventView::NoActiveNode { relation: relation@ },
            VmEvent::EdgeCreated { source, name, target } => EventView::EdgeCreated {
                source: source@,
                name: name@,
                target: target@,
            },
            VmEvent::VectorFilterRequested { op, threshold } => EventView::VectorFilterRequested {
                op: op@,
                threshold: threshold@,
            },
            VmEvent::SentinelRoutes => EventView::SentinelRoutes,
            VmEvent::ResultAssigned { alias } => EventView::ResultAssigned { alias: alias@ },
        }
    }
}

impl DeepView for VmEvent {
    type V = EventView;

    open spec fn deep_view(&self) -> EventView {
        self@
    }
}

/// The machine's state: the graph, the active node, and the traversal mode.
pub struct VmState {
    pub store: GraphView,
    pub active: Option<NodeView>,
    pub mode: ExecutionMode,
}

// ---------------------------------------------------------------------------
// Semantics
// ---------------------------------------------------------------------------

/// Whether a node with properties `props` passes filter `f`:
/// `key*` needs the key; `!key: v` refuses the value `v`; `key?: v` refuses any other
/// value than `v` when the key is present; a filter without modifier always passes.
pub open spec fn filter_passes(props: Map<Seq<char>, Seq<char>>, f: PropertyFilterView) -> bool {
    match f.modifier {
        Modifier::Required => props.contains_key(f.key_id),
        Modifier::Opposed => !(props.contains_key(f.key_id) && props[f.key_id] == f.target_value_id),
        Modifier::Optional => !(props.contains_key(f.key_id) && props[f.key_id] != f.target_value_id),
        Modifier::Neutral => true,
    }
}

/// Whether a node with properties `props` passes every filter.
pub open spec fn passes_all(props: Map<Seq<char>, Seq<char>>, fs: Seq<PropertyFilterView>) -> bool {
    forall|i: int| 0 <= i < fs.len() ==> filter_passes(props, #[trigger] fs[i])
}

/// The label given to a sentinel node.
pub open spec fn sentinel_label() -> Seq<char> {
    seq!['S', 'e', 'n', 't', 'i', 'n', 'e', 'l']
}

/// The property that marks a node as carrying a semantic vector.
pub open spec fn vector_key() -> Seq<char> {
    seq!['v', 'e', 'c', 't', 'o', 'r']
}

/// The position of the first relation named `name` in `list`, if any.
pub open spec fn first_relation(list: Seq<EdgeView>, name: Seq<char>) -> Option<int> {
    if exists|j: int| 0 <= j < list.len() && (#[trigger] list[j]).relation_name == name {
        Some(choose|j: int| 0 <= j < list.len() && (#[trigger] list[j]).relation_name == name
            && forall|k: int| 0 <= k < j ==> (#[trigger] list[k]).relation_name != name)
    } else {
        None
    }
}

/// The candidates that a semantic traversal reports for relations `list`: each relation whose
/// target node exists and carries a vector, in order.
pub open spec fn semantic_events(g: GraphView, list: Seq<EdgeView>) -> Seq<EventView>
    decreases list.len(),
{
    if list.len() == 0 {
        Seq::empty()
    } else {
        let e = list.last();
        let rest = semantic_events(g, list.drop_last());
        if g.nodes.contains_key(e.target_id) && g.nodes[e.target_id].properties.contains_key(vector_key()) {
            rest.push(EventView::SemanticCandidate { relation: e.relation_name, target: g.nodes[e.target_id].id })
        } else {
            rest
        }
    }
}

/// The effect of a traversal of `name` from the active node `cur`.
pub open spec fn traverse(st: VmState, cur: NodeView, name: Seq<char>, required: bool) -> (VmState, Seq<EventView>) {
    let g = st.store;
    match st.mode {
        ExecutionMode::Strict => if g.edges.contains_key(cur.id) {
            let list = g.edges[cur.id];
            match first_relation(list, name) {
                Some(j) => if g.nodes.contains_key(list[j].target_id) {
                    let t = g.nodes[list[j].target_id];
                    (VmState { active: Some(t), ..st }, seq![EventView::StrictHop { relation: name, target: t.id }])
                } else {
                    (st, Seq::empty())
                },
                None => if required {
                    (VmState { active: None, ..st }, seq![EventView::StrictMissing { relation: name }])
                } else {
                    (st, Seq::empty())
                },
            }
        } else if required {
            (VmState { active: None, ..st }, Seq::empty())
        } else {
            (st, Seq::empty())
        },
        _ => if g.edges.contains_key(cur.id) {
            (st, semantic_events(g, g.edges[cur.id]))
        } else {
            (st, Seq::empty())
        },
    }
}

/// The effect of one instruction: the next state and what is reported.
pub open spec fn step(st: VmState, op: OpCodeView) -> (VmState, Seq<EventView>) {
    match op {
        OpCodeView::SetExecutionMode(m) => (VmState { mode: m, ..st }, Seq::empty()),
        OpCodeView::CreateNode { alias, label, properties } => (
            VmState {
                store: GraphView {
                    nodes: st.store.nodes.insert(alias, NodeView { id: alias, label, properties }),
                    edges: st.store.edges,
                },
                ..st
            },
            seq![EventView::NodeCreated { alias }],
        ),
        OpCodeView::LoadNode { alias, label, properties_filters } => if st.store.nodes.contains_key(alias) {
            let n = st.store.nodes[alias];
            if passes_all(n.properties, properties_filters) {
                (VmState { active: Some(n), ..st }, seq![EventView::NodeFound { alias, label: n.label }])
            } else {
                (VmState { active: None, ..st }, seq![EventView::NodeRejected { alias }])
            }
        } else {
            (
                VmState {
                    active: Some(NodeView { id: alias, label: Some(sentinel_label()), properties: Map::empty() }),
                    ..st
                },
                seq![EventView::SentinelActivated { alias }],
            )
        },
        OpCodeView::TraverseEdge { name, required } => match st.active {
            None => (st, seq![EventView::NoActiveNode { relation: name }]),
            Some(cur) => traverse(st, cur, name, required),
        },
        OpCodeView::CreateEdge { source, target, name, properties } => (
            VmState {
                store: GraphView {
                    nodes: st.store.nodes,
                    edges: st.store.edges.insert(
                        source,
                        crate::store::outgoing(st.store.edges, source).push(
                            EdgeView { target_id: target, relation_name: name },
                        ),
                    ),
                },
                ..st
            },
            seq![EventView::EdgeCreated { source, name, target }],
        ),
        OpCodeView::GpuVectorFilter { target, op, threshold } => (
            st,
            seq![EventView::VectorFilterRequested { op, threshold }],
        ),
        OpCodeView::SetSentinelNode => (st, seq![EventView::SentinelRoutes]),
        OpCodeView::StoreResult { target_alias } => (st, seq![EventView::ResultAssigned { alias: target_alias }]),
    }
}

/// The effect of running `ops` in order from `st`: the final state and everything reported.
pub open spec fn run_ops(st: VmState, ops: Seq<OpCodeView>) -> (VmState, Seq<EventView>)
    decreases ops.len(),
{
    if ops.len() == 0 {
        (st, Seq::empty())
    } else {
        let (mid, ev) = run_ops(st, ops.drop_last());
        let (last, ev2) = step(mid, ops.last());
        (last, ev + ev2)
    }
}

/// A node created by the program and then loaded with filters it passes becomes the active
/// node, as it was written; the load reports it found.
pub proof fn law_created_node_is_loaded(
    st: VmState,
    alias: Seq<char>,
    label: Option<Seq<char>>,
    properties: Map<Seq<char>, Seq<char>>,
    load_label: Option<Seq<char>>,
    filters: Seq<PropertyFilterView>,
)
    requires
        passes_all(properties, filters),
    ensures
        ({
            let ops = seq![
                OpCodeView::CreateNode { alias, label, properties },
                OpCodeView::LoadNode { alias, label: load_label, properties_filters: filters },
            ];
            let (end, events) = run_ops(st, ops);
            &&& end.active == Some(NodeView { id: alias, label, properties })
            &&& end.store.nodes.contains_key(alias)
            &&& events == seq![EventView::NodeCreated { alias }, EventView::NodeFound { alias, label }]
        }),
{
    let ops = seq![
        OpCodeView::CreateNode { alias, label, properties },
        OpCodeView::LoadNode { alias, label: load_label, properties_filters: filters },
    ];
    let create = OpCodeView::CreateNode { alias, label, properties };
    let one = ops.drop_last();
    assert(one =~= seq![create]);
    assert(one.drop_last() =~= Seq::<OpCodeView>::empty());
    let (s0, e0) = run_ops(st, one.drop_last());
    assert(s0 == st && e0 == Seq::<EventView>::empty());
    let (s1, e1) = step(st, create);
    assert(run_ops(st, one) == (s1, e0 + e1));
    assert(s1.store.nodes.contains_key(alias));
    assert(s1.store.nodes[alias] == NodeView { id: alias, label, properties });
    let (end, events) = run_ops(st, ops);
    assert(ops.last() == OpCodeView::LoadNode { alias, label: load_label, properties_filters: filters });
    assert(events =~= seq![EventView::NodeCreated { alias }, EventView::NodeFound { alias, label }]);
}

/// Loading an alias that no node has activates a sentinel node with that id, the label
/// `Sentinel` and no properties, whatever the filters.
pub proof fn law_missing_node_is_sentinel(st: VmState, alias: Seq<char>, label: Option<Seq<char>>, filters: Seq<PropertyFilterView>)
    requires
        !st.store.nodes.contains_key(alias),
    ensures
        step(st, OpCodeView::LoadNode { alias, label, properties_filters: filters }).0.active
            == Some(NodeView { id: alias, label: Some(sentinel_label()), properties: Map::empty() }),
{
}

/// A `*`-filter on a key that a node lacks rejects the node: no node is active afterwards.
pub proof fn law_required_key_rejects(st: VmState, alias: Seq<char>, label: Option<Seq<char>>, filters: Seq<PropertyFilterView>, i: int)
    requires
        st.store.nodes.contains_key(alias),
        0 <= i < filters.len(),
        filters[i].modifier == Modifier::Required,
        !st.store.nodes[alias].properties.contains_key(filters[i].key_id),
    ensures
        step(st, OpCodeView::LoadNode { alias, label, properties_filters: filters }).0.active is None,
{
    assert(!filter_passes(st.store.nodes[alias].properties, filters[i]));
}

/// An optional edge (`?` or `*`) that a strict traversal does not find leaves the active node
/// where it was.
pub proof fn law_optional_edge_keeps_position(st: VmState, name: Seq<char>)
    requires
        st.mode == ExecutionMode::Strict,
        st.active matches Some(cur) && (st.store.edges.contains_key(cur.id) ==> first_relation(
            st.store.edges[cur.id],
            name,
        ) is None),
    ensures
        step(st, OpCodeView::TraverseEdge { name, required: false }).0 == st,
{
}

/// Each filter kind on a node's properties: `key*` passes exactly when the node has `key`;
/// `!key: v` rejects exactly when the node has `key` holding `v` (a different value, or no
/// value, passes); `key?: v` rejects exactly when the node has `key` holding another value
/// than `v`; a filter without modifier always passes.
pub proof fn law_filter_kinds(props: Map<Seq<char>, Seq<char>>, key: Seq<char>, v: Seq<char>)
    ensures
        filter_passes(props, PropertyFilterView { key_id: key, target_value_id: v, modifier: Modifier::Required })
            <==> props.contains_key(key),
        !filter_passes(props, PropertyFilterView { key_id: key, target_value_id: v, modifier: Modifier::Opposed })
            <==> (props.contains_key(key) && props[key] == v),
        !filter_passes(props, PropertyFilterView { key_id: key, target_value_id: v, modifier: Modifier::Optional })
            <==> (props.contains_key(key) && props[key] != v),
        filter_passes(props, PropertyFilterView { key_id: key, target_value_id: v, modifier: Modifier::Neutral }),
{
}

/// Loading an existing node with one `!key: v` filter: the node is rejected (no node active,
/// `NodeRejected` reported) exactly when it has `key` holding `v`; otherwise it becomes the
/// active node and is reported found.
pub proof fn law_opposed_filter_load(st: VmState, alias: Seq<char>, label: Option<Seq<char>>, key: Seq<char>, v: Seq<char>)
    requires
        st.store.nodes.contains_key(alias),
    ensures
        ({
            let n = st.store.nodes[alias];
            let f = PropertyFilterView { key_id: key, target_value_id: v, modifier: Modifier::Opposed };
            let (next, ev) = step(st, OpCodeView::LoadNode { alias, label, properties_filters: seq![f] });
            if n.properties.contains_key(key) && n.properties[key] == v {
                next.active is None && ev == seq![EventView::NodeRejected { alias }]
            } else {
                next.active == Some(n) && ev == seq![EventView::NodeFound { alias, label: n.label }]
            }
        }),
{
    let n = st.store.nodes[alias];
    let f = PropertyFilterView { key_id: key, target_value_id: v, modifier: Modifier::Opposed };
    let fs = seq![f];
    law_filter_kinds(n.properties, key, v);
    assert(fs[0] == f);
    if n.properties.contains_key(key) && n.properties[key] == v {
        assert(!filter_passes(n.properties, fs[0]));
        assert(!passes_all(n.properties, fs));
    } else {
        assert forall|i: int| 0 <= i < fs.len() implies filter_passes(n.properties, #[trigger] fs[i]) by {
            assert(i == 0);
        }
    }
}

/// A semantic traversal reports, for one relation, one candidate when its target node exists
/// and carries a vector, and nothing otherwise.
pub proof fn law_semantic_single(g: GraphView, e: EdgeView)
    ensures
        semantic_events(g, seq![e]) == (if g.nodes.contains_key(e.target_id) && g.nodes[e.target_id].properties.contains_key(vector_key()) {
            seq![EventView::SemanticCandidate { relation: e.relation_name, target: g.nodes[e.target_id].id }]
        } else {
            Seq::<EventView>::empty()
        }),
{
    assert(seq![e].drop_last() =~= Seq::<EdgeView>::empty());
    assert(seq![e].last() == e);
    assert(semantic_events(g, Seq::<EdgeView>::empty()) == Seq::<EventView>::empty());
    if g.nodes.contains_key(e.target_id) && g.nodes[e.target_id].properties.contains_key(vector_key()) {
        assert(Seq::<EventView>::empty().push(EventView::SemanticCandidate { relation: e.relation_name, target: g.nodes[e.target_id].id })
            =~= seq![EventView::SemanticCandidate { relation: e.relation_name, target: g.nodes[e.target_id].id }]);
    }
}

/// The candidates a semantic traversal reports for two runs of relations, one after the other,
/// are those of the first run followed by those of the second: every relation is judged on its
/// own, whatever came before it.
pub proof fn law_semantic_concat(g: GraphView, a: Seq<EdgeView>, b: Seq<EdgeView>)
    ensures
        semantic_events(g, a + b) == semantic_events(g, a) + semantic_events(g, b),
    decreases b.len(),
{
    if b.len() == 0 {
        assert(a + b =~= a);
        assert(semantic_events(g, a) + Seq::<EventView>::empty() =~= semantic_events(g, a));
    } else {
        let ab = a + b;
        assert(ab.drop_last() =~= a + b.drop_last());
        assert(ab.last() == b.last());
        law_semantic_concat(g, a, b.drop_last());
        let x = semantic_events(g, a);
        let y = semantic_events(g, b.drop_last());
        let e = b.last();
        if g.nodes.contains_key(e.target_id) && g.nodes[e.target_id].properties.contains_key(vector_key()) {
            let c = EventView::SemanticCandidate { relation: e.relation_name, target: g.nodes[e.target_id].id };
            assert((x + y).push(c) =~= x + y.push(c));
        }
    }
}

/// A semantic traversal reports as many candidates as the relations whose target node exists
/// and carries a vector.
pub proof fn law_semantic_count(g: GraphView, list: Seq<EdgeView>)
    ensures
        semantic_events(g, list).len() == list.filter(|e: EdgeView| g.nodes.contains_key(e.target_id)
            && g.nodes[e.target_id].properties.contains_key(vector_key())).len(),
    decreases list.len(),
{
    reveal(Seq::filter);
    if list.len() > 0 {
        law_semantic_count(g, list.drop_last());
    }
}

/// A strict traversal follows the first relation with the asked name: the position found holds
/// that name and no earlier relation does; no position is found exactly when no relation has
/// the name.
pub proof fn law_first_relation(list: Seq<EdgeView>, name: Seq<char>)
    ensures
        first_relation(list, name) is None <==> forall|j: int| 0 <= j < list.len() ==> (#[trigger] list[j]).relation_name != name,
        first_relation(list, name) matches Some(j) ==> 0 <= j < list.len() && list[j].relation_name == name
            && forall|k: int| 0 <= k < j ==> (#[trigger] list[k]).relation_name != name,
{
    if exists|j: int| 0 <= j < list.len() && (#[trigger] list[j]).relation_name == name {
        let j0 = choose|j: int| 0 <= j < list.len() && (#[trigger] list[j]).relation_name == name;
        lemma_first_named(list, name, j0);
    }
}

proof fn lemma_first_named(list: Seq<EdgeView>, name: Seq<char>, j0: int)
    requires
        0 <= j0 < list.len(),
        list[j0].relation_name == name,
    ensures
        exists|j: int| 0 <= j < list.len() && (#[trigger] list[j]).relation_name == name
            && forall|k: int| 0 <= k < j ==> (#[trigger] list[k]).relation_name != name,
    decreases j0,
{
    if exists|k: int| 0 <= k < j0 && (#[trigger] list[k]).relation_name == name {
        let k = choose|k: int| 0 <= k < j0 && (#[trigger] list[k]).relation_name == name;
        lemma_first_named(list, name, k);
    } else {
        assert(list[j0].relation_name == name);
    }
}

/// Whether none of `ops` creates a node or a relation.
pub open spec fn read_only(ops: Seq<OpCodeView>) -> bool {
    forall|i: int| 0 <= i < ops.len() ==> !(#[trigger] ops[i] is CreateNode) && !(ops[i] is CreateEdge)
}

proof fn lemma_read_only_run(st: VmState, ops: Seq<OpCodeView>)
    requires
        read_only(ops),
    ensures
        run_ops(st, ops).0.store == st.store,
    decreases ops.len(),
{
    if ops.len() > 0 {
        let rest = ops.drop_last();
        assert forall|i: int| 0 <= i < rest.len() implies !(#[trigger] rest[i] is CreateNode) && !(rest[i] is CreateEdge) by {
            assert(rest[i] == ops[i]);
        }
        lemma_read_only_run(st, rest);
        assert(ops[ops.len() - 1] == ops.last());
    }
}

proof fn lemma_path_read_only(path: Seq<(EdgeExprView, NodeExprView)>)
    ensures
        read_only(path_ops(path)),
    decreases path.len(),
{
    if path.len() > 0 {
        lemma_path_read_only(path.drop_last());
        let (e, n) = path.last();
        let tail = seq![OpCodeView::TraverseEdge { name: e.name, required: e.modifier is None }, load_op(n)];
        let ops = path_ops(path.drop_last()) + tail;
        assert forall|i: int| 0 <= i < ops.len() implies !(#[trigger] ops[i] is CreateNode) && !(ops[i] is CreateEdge) by {
            if i >= path_ops(path.drop_last()).len() {
                assert(ops[i] == tail[i - path_ops(path.drop_last()).len()]);
            } else {
                assert(ops[i] == path_ops(path.drop_last())[i]);
            }
        }
    }
}

proof fn lemma_queries_read_only(cs: Seq<CommandView>)
    requires
        forall|i: int| 0 <= i < cs.len() ==> !(#[trigger] cs[i] is Add),
    ensures
        read_only(program_ops(cs)),
    decreases cs.len(),
{
    if cs.len() > 0 {
        let rest = cs.drop_last();
        assert forall|i: int| 0 <= i < rest.len() implies !(#[trigger] rest[i] is Add) by {
            assert(rest[i] == cs[i]);
        }
        lemma_queries_read_only(rest);
        let c = cs.last();
        assert(!(cs[cs.len() - 1] is Add));
        let last_ops = command_ops(c);
        assert(read_only(last_ops)) by {
            if let CommandView::Get { start, path } = c {
                lemma_path_read_only(path);
                assert forall|i: int| 0 <= i < last_ops.len() implies !(#[trigger] last_ops[i] is CreateNode) && !(last_ops[i] is CreateEdge) by {
                    if i > 0 {
                        assert(last_ops[i] == path_ops(path)[i - 1]);
                    }
                }
            }
        }
        let ops = program_ops(rest) + last_ops;
        assert forall|i: int| 0 <= i < ops.len() implies !(#[trigger] ops[i] is CreateNode) && !(ops[i] is CreateEdge) by {
            if i >= program_ops(rest).len() {
                assert(ops[i] == last_ops[i - program_ops(rest).len()]);
            } else {
                assert(ops[i] == program_ops(rest)[i]);
            }
        }
    }
}

/// Queries leave the graph as it was: running what a program without `ADD` commands compiles
/// to (its mode switch, then its commands' instructions) changes no node and no relation,
/// whatever the state the machine starts in.
pub proof fn law_queries_leave_graph(st: VmState, mode: ExecutionMode, cs: Seq<CommandView>)
    requires
        forall|i: int| 0 <= i < cs.len() ==> !(#[trigger] cs[i] is Add),
    ensures
        run_ops(st, seq![OpCodeView::SetExecutionMode(mode)] + program_ops(cs)).0.store == st.store,
{
    lemma_queries_read_only(cs);
    let ops = seq![OpCodeView::SetExecutionMode(mode)] + program_ops(cs);
    assert forall|i: int| 0 <= i < ops.len() implies !(#[trigger] ops[i] is CreateNode) && !(ops[i] is CreateEdge) by {
        if i > 0 {
            assert(ops[i] == program_ops(cs)[i - 1]);
        }
    }
    lemma_read_only_run(st, ops);
}

// ---------------------------------------------------------------------------
// Executable machine
// ---------------------------------------------------------------------------

/// The label given to a sentinel node.
fn sentinel_string() -> (s: String)
    ensures
        s@ == sentinel_label(),
{
    let s = "Sentinel".to_string();
    proof {
        reveal_strlit("Sentinel");
        assert(s@ =~= sentinel_label());
    }
    s
}

/// Whether a node with properties `props` passes every filter; stops at the first failure.
fn passes_filters(props: &StrMap<String>, filters: &Vec<PropertyFilter>) -> (r: bool)
    ensures
        r == passes_all(props@, filters.deep_view()),
{
    let ghost fs = filters.deep_view();
    let mut i: usize = 0;
    while i < filters.len()
        invariant
            i <= filters@.len(),
            fs == filters.deep_view(),
            forall|j: int| 0 <= j < i ==> filter_passes(props@, #[trigger] fs[j]),
        decreases filters@.len() - i,
    {
        let filter = &filters[i];
        proof {
            assert(fs[i as int] == filter@);
        }
        let ok = match filter.modifier {
            Modifier::Required => props.contains_key(filter.key_id.as_str()),
            Modifier::Opposed => match props.get(filter.key_id.as_str()) {
                Some(val) => !(*val == filter.target_value_id),
                None => true,
            },
            Modifier::Optional => match props.get(filter.key_id.as_str()) {
                Some(val) => *val == filter.target_value_id,
                None => true,
            },
            Modifier::Neutral => true,
        };
        if !ok {
            return false;
        }
        i += 1;
    }
    true
}

/// The position of the first relation named `name` in `list`, if any.
fn find_relation(list: &Vec<EdgeData>, name: &String) -> (r: Option<usize>)
    ensures
        match first_relation(list.deep_view(), name@) {
            Some(j) => r matches Some(x) && x as int == j,
            None => r is None,
        },
        r matches Some(j) ==> j < list@.len() && list@[j as int].relation_name@ == name@,
{
    let ghost lv = list.deep_view();
    let mut i: usize = 0;
    while i < list.len()
        invariant
            i <= list@.len(),
            lv == list.deep_view(),
            forall|k: int| 0 <= k < i ==> (#[trigger] lv[k]).relation_name != name@,
        decreases list@.len() - i,
    {
        if list[i].relation_name == *name {
            proof {
                assert(lv[i as int].relation_name == name@);
                let c = choose|j: int| 0 <= j < lv.len() && (#[trigger] lv[j]).relation_name == name@
                    && forall|k: int| 0 <= k < j ==> (#[trigger] lv[k]).relation_name != name@;
                assert(0 <= i < lv.len() && lv[i as int].relation_name == name@
                    && forall|k: int| 0 <= k < i ==> (#[trigger] lv[k]).relation_name != name@);
                if c < i {
                    assert(lv[c].relation_name != name@);
                } else if c > i {
                    assert(lv[i as int].relation_name != name@);
                }
            }
            return Some(i);
        }
        i += 1;
    }
    None
}

/// Reports the semantic candidates among relations `list`.
fn semantic_scan(store: &GraphStore, list: &Vec<EdgeData>, events: &mut Vec<VmEvent>)
    ensures
        final(events).deep_view() == old(events).deep_view() + semantic_events(store@, list.deep_view()),
{
    let ghost lv = list.deep_view();
    let ghost start = events.deep_view();
    let key = "vector";
    proof {
        reveal_strlit("vector");
        assert(key@ =~= vector_key());
    }
    let mut i: usize = 0;
    proof {
        assert(lv.take(0) =~= Seq::<EdgeView>::empty());
        assert(start + Seq::<EventView>::empty() =~= start);
    }
    while i < list.len()
        invariant
            i <= list@.len(),
            lv == list.deep_view(),
            key@ == vector_key(),
            events.deep_view() == start + semantic_events(store@, lv.take(i as int)),
        decreases list@.len() - i,
    {
        let edge = &list[i];
        let ghost before = events.deep_view();
        proof {
            assert(lv.take(i + 1).drop_last() =~= lv.take(i as int));
            assert(lv.take(i + 1).last() == edge@);
        }
        let ghost rest = semantic_events(store@, lv.take(i as int));
        match store.get_node(edge.target_id.as_str()) {
            Some(target) => {
                if target.properties.contains_key(key) {
                    let ev = VmEvent::SemanticCandidate {
                        relation: edge.relation_name.clone(),
                        target: target.id.clone(),
                    };
                    let ghost evv = ev@;
                    events.push(ev);
                    proof {
                        assert(semantic_events(store@, lv.take(i + 1)) == rest.push(evv));
                        assert(events.deep_view() =~= before.push(evv));
                        assert(start + rest.push(evv) =~= (start + rest).push(evv));
                    }
                } else {
                    proof {
                        assert(semantic_events(store@, lv.take(i + 1)) == rest);
                    }
                }
            },
            None => {
                proof {
                    assert(semantic_events(store@, lv.take(i + 1)) == rest);
                }
            },
        }
        i += 1;
    }
    proof {
        assert(lv.take(lv.len() as int) =~= lv);
    }
}

/// Executes `LoadNode`.
fn load_node(
    alias: &String,
    properties_filters: &Vec<PropertyFilter>,
    store: &GraphStore,
    active: &mut Option<NodeData>,
    events: &mut Vec<VmEvent>,
)
    ensures
        ({
            let op = OpCodeView::LoadNode { alias: alias@, label: None, properties_filters: properties_filters.deep_view() };
            let (next, ev) = step(state_of(store@, old(active).deep_view(), ExecutionMode::Strict), op);
            &&& final(active).deep_view() == next.active
            &&& final(events).deep_view() == old(events).deep_view() + ev
        }),
{
    let ghost ev0 = events.deep_view();
    match store.get_node(alias.as_str()) {
        Some(node) => {
            if passes_filters(&node.properties, properties_filters) {
                let found = node.clone();
                events.push(VmEvent::NodeFound { alias: alias.clone(), label: clone_opt_string(&node.label) });
                *active = Some(found);
                proof {
                    assert(events.deep_view() =~= ev0 + seq![
                        EventView::NodeFound { alias: alias@, label: node@.label },
                    ]);
                }
            } else {
                events.push(VmEvent::NodeRejected { alias: alias.clone() });
                *active = None;
                proof {
                    assert(events.deep_view() =~= ev0 + seq![EventView::NodeRejected { alias: alias@ }]);
                }
            }
        },
        None => {
            events.push(VmEvent::SentinelActivated { alias: alias.clone() });
            let sentinel = NodeData { id: alias.clone(), label: Some(sentinel_string()), properties: StrMap::new() };
            *active = Some(sentinel);
            proof {
                assert(events.deep_view() =~= ev0 + seq![EventView::SentinelActivated { alias: alias@ }]);
            }
        },
    }
}

/// Executes `TraverseEdge` in mode `mode`.
#[verifier::spinoff_prover]
#[verifier::rlimit(40)]
fn traverse_edge(
    name: &String,
    required: bool,
    store: &GraphStore,
    active: &mut Option<NodeData>,
    mode: ExecutionMode,
    events: &mut Vec<VmEvent>,
)
    ensures
        ({
            let op = OpCodeView::TraverseEdge { name: name@, required };
            let (next, ev) = step(state_of(store@, old(active).deep_view(), mode), op);
            &&& final(active).deep_view() == next.active
            &&& final(events).deep_view() == old(events).deep_view() + ev
        }),
{
    let ghost ev0 = events.deep_view();
    let ghost res = step(state_of(store@, active.deep_view(), mode), OpCodeView::TraverseEdge { name: name@, required });
    let cur_id: Option<String> = match &*active {
        Some(cur) => Some(cur.id.clone()),
        None => None,
    };
    match cur_id {
        None => {
            events.push(VmEvent::NoActiveNode { relation: name.clone() });
            proof {
                assert(old(active).is_none());
                assert(events.deep_view() =~= ev0 + seq![EventView::NoActiveNode { relation: name@ }]);
                assert(active.deep_view() == res.0.active);
                assert(events.deep_view() == ev0 + res.1);
            }
        },
        Some(cur_id) => {
            proof {
                assert(old(active).deep_view() matches Some(c) && c.id == cur_id@);
            }
            match mode {
                ExecutionMode::Strict => {
                    match store.get_connections(cur_id.as_str()) {
                        Some(edges) => {
                            match find_relation(edges, name) {
                                Some(j) => {
                                    match store.get_node(edges[j].target_id.as_str()) {
                                        Some(target) => {
                                            let t = target.clone();
                                            events.push(VmEvent::StrictHop {
                                                relation: name.clone(),
                                                target: target.id.clone(),
                                            });
                                            *active = Some(t);
                                            proof {
                                                let g = store@;
                                                let cur = old(active).deep_view()->0;
                                                assert(g.edges.contains_key(cur.id));
                                                let list = g.edges[cur.id];
                                                assert(list == edges.deep_view());
                                                assert(first_relation(list, name@) == Some(j as int));
                                                assert(list[j as int].target_id == edges@[j as int].target_id@);
                                                assert(g.nodes.contains_key(list[j as int].target_id));
                                                assert(events.deep_view() =~= ev0 + seq![
                                                    EventView::StrictHop { relation: name@, target: target@.id },
                                                ]);
                                                assert(active.deep_view() == res.0.active);
                                                assert(events.deep_view() == ev0 + res.1);
                                            }
                                        },
                                        None => {
                                            proof {
                                                assert(events.deep_view() =~= ev0 + Seq::<EventView>::empty());
                                                assert(active.deep_view() == res.0.active);
                                                assert(events.deep_view() == ev0 + res.1);
                                            }
                                        },
                                    }
                                },
                                None => {
                                    if required {
                                        *active = None;
                                        events.push(VmEvent::StrictMissing { relation: name.clone() });
                                        proof {
                                            assert(events.deep_view() =~= ev0 + seq![
                                                EventView::StrictMissing { relation: name@ },
                                            ]);
                                            assert(active.deep_view() == res.0.active);
                                            assert(events.deep_view() == ev0 + res.1);
                                        }
                                    } else {
                                        proof {
                                            assert(events.deep_view() =~= ev0 + Seq::<EventView>::empty());
                                            assert(active.deep_view() == res.0.active);
                                            assert(events.deep_view() == ev0 + res.1);
                                        }
                                    }
                                },
                            }
                        },
                        None => {
                            if required {
                                *active = None;
                            }
                            proof {
                                assert(events.deep_view() =~= ev0 + Seq::<EventView>::empty());
                                assert(active.deep_view() == res.0.active);
                                assert(events.deep_view() == ev0 + res.1);
                            }
                        },
                    }
                },
                _ => {
                    match store.get_connections(cur_id.as_str()) {
                        Some(edges) => {
                            semantic_scan(store, edges, events);
                        },
                        None => {
                            proof {
                                assert(events.deep_view() =~= ev0 + Seq::<EventView>::empty());
                                assert(active.deep_view() == res.0.active);
                                assert(events.deep_view() == ev0 + res.1);
                            }
                        },
                    }
                },
            }
        },
    }
}

/// The model of the machine's registers.
pub open spec fn state_of(store: GraphView, active: Option<NodeView>, mode: ExecutionMode) -> VmState {
    VmState { store, active, mode }
}

/// Executes one instruction.
fn execute(
    op: &OpCode,
    store: &mut GraphStore,
    active: &mut Option<NodeData>,
    mode: &mut ExecutionMode,
    events: &mut Vec<VmEvent>,
)
    ensures
        ({
            let (next, ev) = step(state_of(old(store)@, old(active).deep_view(), *old(mode)), op@);
            &&& state_of(final(store)@, final(active).deep_view(), *final(mode)) == next
            &&& final(events).deep_view() == old(events).deep_view() + ev
        }),
{
    let ghost ev0 = events.deep_view();
    match op {
        OpCode::SetExecutionMode(m) => {
            *mode = *m;
            proof {
                assert(events.deep_view() =~= ev0 + Seq::<EventView>::empty());
            }
        },
        OpCode::CreateNode { alias, label, properties } => {
            store.add_node(alias.clone(), clone_opt_string(label), properties.clone());
            events.push(VmEvent::NodeCreated { alias: alias.clone() });
            proof {
                assert(events.deep_view() =~= ev0 + seq![EventView::NodeCreated { alias: alias@ }]);
            }
        },
        OpCode::LoadNode { alias, label: _, properties_filters } => {
            load_node(alias, properties_filters, store, active, events);
        },
        OpCode::TraverseEdge { name, required } => {
            traverse_edge(name, *required, store, active, *mode, events);
        },
        OpCode::CreateEdge { source, target, name, properties: _ } => {
            store.add_edge(source.clone(), target.clone(), name.clone());
            events.push(VmEvent::EdgeCreated { source: source.clone(), name: name.clone(), target: target.clone() });
            proof {
                assert(events.deep_view() =~= ev0 + seq![
                    EventView::EdgeCreated { source: source@, name: name@, target: target@ },
                ]);
            }
        },
        OpCode::GpuVectorFilter { target: _, op, threshold } => {
            events.push(VmEvent::VectorFilterRequested { op: op.clone(), threshold: threshold.clone() });
            proof {
                assert(events.deep_view() =~= ev0 + seq![
                    EventView::VectorFilterRequested { op: op@, threshold: threshold@ },
                ]);
            }
        },
        OpCode::SetSentinelNode => {
            events.push(VmEvent::SentinelRoutes);
            proof {
                assert(events.deep_view() =~= ev0 + seq![EventView::SentinelRoutes]);
            }
        },
        OpCode::StoreResult { target_alias } => {
            events.push(VmEvent::ResultAssigned { alias: target_alias.clone() });
            proof {
                assert(events.deep_view() =~= ev0 + seq![EventView::ResultAssigned { alias: target_alias@ }]);
            }
        },
    }
}

/// A machine loaded with a program and a graph.
pub struct VirtualMachine {
    store: GraphStore,
    instructions: Vec<OpCode>,
    active_node: Option<NodeData>,
    current_mode: ExecutionMode,
}

impl VirtualMachine {
    /// The machine's registers.
    pub closed spec fn state(&self) -> VmState {
        state_of(self.store@, self.active_node.deep_view(), self.current_mode)
    }

    /// The loaded program.
    pub closed spec fn program(&self) -> Seq<OpCodeView> {
        self.instructions.deep_view()
    }

    /// A machine with no active node, in `Hybrid` mode.
    pub fn new(instructions: Vec<OpCode>, store: GraphStore) -> (vm: Self)
        ensures
            vm.program() == instructions.deep_view(),
            vm.state() == state_of(store@, None, ExecutionMode::Hybrid),
    {
        VirtualMachine { instructions, store, active_node: None, current_mode: ExecutionMode::Hybrid }
    }

    /// The graph, as the machine left it.
    pub fn into_store(self) -> (g: GraphStore)
        ensures
            g@ == self.state().store,
    {
        self.store
    }

    /// Runs the whole program, in order, and returns what it reported.
    pub fn run(&mut self) -> (events: Vec<VmEvent>)
        ensures
            final(self).program() == old(self).program(),
            (final(self).state(), events.deep_view()) == run_ops(old(self).state(), old(self).program()),
    {
        let ghost ops = self.instructions.deep_view();
        let ghost st0 = self.state();
        let mut events: Vec<VmEvent> = Vec::new();
        let mut i: usize = 0;
        proof {
            assert(ops.take(0) =~= Seq::<OpCodeView>::empty());
            assert(events.deep_view() =~= Seq::<EventView>::empty());
        }
        while i < self.instructions.len()
            invariant
                i <= self.instructions@.len(),
                ops == self.instructions.deep_view(),
                (self.state(), events.deep_view()) == run_ops(st0, ops.take(i as int)),
            decreases self.instructions@.len() - i,
        {
            proof {
                assert(ops.take(i + 1).drop_last() =~= ops.take(i as int));
                assert(ops.take(i + 1).last() == self.instructions@[i as int]@);
            }
            execute(
                &self.instructions[i],
                &mut self.store,
                &mut self.active_node,
                &mut self.current_mode,
                &mut events,
            );
            i += 1;
        }
        proof {
            assert(ops.take(ops.len() as int) =~= ops);
        }
        events
    }
}

} // verus!
