//! Instructions of the Ji virtual machine.
use vstd::prelude::*;
use crate::ast::{ExecutionMode, PropertyFilter, PropertyFilterView};
use crate::strmap::StrMap;

verus! {

/// One instruction of the virtual machine.
pub enum OpCode {
    /// Switches how later traversals are resolved.
    SetExecutionMode(ExecutionMode),
    /// Moves the active node along the relation `name`.
    TraverseEdge { name: String, required: bool },
    /// Stores a node.
    CreateNode { alias: String, label: Option<String>, properties: StrMap<String> },
    /// Makes the node `alias` active if it passes the filters.
    LoadNode { alias: String, label: Option<String>, properties_filters: Vec<PropertyFilter> },
    /// Stores a relation.
    CreateEdge { source: String, target: String, name: String, properties: StrMap<String> },
    /// Runs the semantic similarity filter; `threshold` is the numeric literal's text.
    GpuVectorFilter { target: String, op: String, threshold: String },
    /// Announces the sentinel fallback routes.
    SetSentinelNode,
    /// Assigns the node `target_alias` to the output register.
    StoreResult { target_alias: String },
}

/// The mathematical model of an [`OpCode`].
pub enum OpCodeView {
    SetExecutionMode(ExecutionMode),
    TraverseEdge { name: Seq<char>, required: bool },
    CreateNode { alias: Seq<char>, label: Option<Seq<char>>, properties: Map<Seq<char>, Seq<char>> },
    LoadNode { alias: Seq<char>, label: Option<Seq<char>>, properties_filters: Seq<PropertyFilterView> },
    CreateEdge { source: Seq<char>, target: Seq<char>, name: Seq<char>, properties: Map<Seq<char>, Seq<char>> },
    GpuVectorFilter { target: Seq<char>, op: Seq<char>, threshold: Seq<char> },
    SetSentinelNode,
    StoreResult { target_alias: Seq<char> },
}

impl View for OpCode {
    type V = OpCodeView;

    open spec fn view(&self) -> OpCodeView {
        match self {
            OpCode::SetExecutionMode(m) => OpCodeView::SetExecutionMode(*m),
            OpCode::TraverseEdge { name, required } => OpCodeView::TraverseEdge { name: name@, required: *required },
            OpCode::CreateNode { alias, label, properties } => OpCodeView::CreateNode {
                alias: alias@,
                label: label.deep_view(),
                properties: properties@,
            },
            OpCode::LoadNode { alias, label, properties_filters } => OpCodeView::LoadNode {
                alias: alias@,
                label: label.deep_view(),
                properties_filters: properties_filters.deep_view(),
            },
            OpCode::CreateEdge { source, target, name, properties } => OpCodeView::CreateEdge {
                source: source@,
                target: target@,
                name: name@,
                properties: properties@,
            },
            OpCode::GpuVectorFilter { target, op, threshold } => OpCodeView::GpuVectorFilter {
                target: target@,
                op: op@,
                threshold: threshold@,
            },
            OpCode::SetSentinelNode => OpCodeView::SetSentinelNode,
            OpCode::StoreResult { target_alias } => OpCodeView::StoreResult { target_alias: target_alias@ },
        }
    }
}

impl DeepView for OpCode {
    type V = OpCodeView;

    open spec fn deep_view(&self) -> OpCodeView {
        self@
    }
}

/// A copy of an optional string.
pub fn clone_opt_string(s: &Option<String>) -> (r: Option<String>)
    ensures
        r.deep_view() == s.deep_view(),
{
    match s {
        Some(x) => Some(x.clone()),
        None => None,
    }
}

impl Clone for PropertyFilter {
    fn clone(&self) -> (r: Self)
        ensures
            r@ == self@,
    {
        PropertyFilter {
            key_id: self.key_id.clone(),
            target_value_id: self.target_value_id.clone(),
            modifier: self.modifier,
        }
    }
}

/// A copy of a list of property filters.
pub fn clone_filters(v: &Vec<PropertyFilter>) -> (r: Vec<PropertyFilter>)
    ensures
        r.deep_view() == v.deep_view(),
{
    let mut r: Vec<PropertyFilter> = Vec::new();
    let mut i: usize = 0;
    while i < v.len()
        invariant
            i <= v@.len(),
            r.deep_view() == v.deep_view().take(i as int),
        decreases v@.len() - i,
    {
        let ghost prev = r.deep_view();
        let x = v[i].clone();
        let ghost xv = x.deep_view();
        r.push(x);
        i += 1;
        proof {
            assert(r.deep_view() =~= prev.push(xv));
            assert(v.deep_view().take(i as int) =~= v.deep_view().take(i - 1).push(xv));
        }
    }
    proof {
        assert(r.deep_view() =~= v.deep_view());
    }
    r
}

impl Clone for OpCode {
    fn clone(&self) -> (r: Self)
        ensures
            r@ == self@,
    {
        match self {
            OpCode::SetExecutionMode(m) => OpCode::SetExecutionMode(*m),
            OpCode::TraverseEdge { name, required } => OpCode::TraverseEdge { name: name.clone(), required: *required },
            OpCode::CreateNode { alias, label, properties } => OpCode::CreateNode {
                alias: alias.clone(),
                label: clone_opt_string(label),
                properties: properties.clone(),
            },
            OpCode::LoadNode { alias, label, properties_filters } => OpCode::LoadNode {
                alias: alias.clone(),
                label: clone_opt_string(label),
                properties_filters: clone_filters(properties_filters),
            },
            OpCode::CreateEdge { source, target, name, properties } => OpCode::CreateEdge {
                source: source.clone(),
                target: target.clone(),
                name: name.clone(),
                properties: properties.clone(),
            },
            OpCode::GpuVectorFilter { target, op, threshold } => OpCode::GpuVectorFilter {
                target: target.clone(),
                op: op.clone(),
                threshold: threshold.clone(),
            },
            OpCode::SetSentinelNode => OpCode::SetSentinelNode,
            OpCode::StoreResult { target_alias } => OpCode::StoreResult { target_alias: target_alias.clone() },
        }
    }
}

/// A copy of a list of instructions.
pub fn clone_ops(v: &Vec<OpCode>) -> (r: Vec<OpCode>)
    ensures
        r.deep_view() == v.deep_view(),
{
    let mut r: Vec<OpCode> = Vec::new();
    let mut i: usize = 0;
    while i < v.len()
        invariant
            i <= v@.len(),
            r.deep_view() == v.deep_view().take(i as int),
        decreases v@.len() - i,
    {
        let ghost prev = r.deep_view();
        let x = v[i].clone();
        let ghost xv = x.deep_view();
        r.push(x);
        i += 1;
        proof {
            assert(r.deep_view() =~= prev.push(xv));
            assert(v.deep_view().take(i as int) =~= v.deep_view().take(i - 1).push(xv));
        }
    }
    proof {
        assert(r.deep_view() =~= v.deep_view());
    }
    r
}

} // verus!
