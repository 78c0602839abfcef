//! Syntax tree of Ji programs.
use vstd::prelude::*;

verus! {

/// How the engine resolves graph traversals.
#[derive(Debug, Clone, Copy, PartialEq, Eq, Structural)]
pub enum ExecutionMode {
    /// Exact topological search.
    Strict,
    /// Semantic similarity computed on the GPU.
    Semantic,
    /// Topology first, then semantic filtering of the sub-graph.
    Hybrid,
}

/// Modifier attached to a property filter.
#[derive(Debug, Clone, Copy, PartialEq, Eq, Structural)]
pub enum Modifier {
    /// `key*`: the property must be present.
    Required,
    /// `key?`: when present, the property must have the given value.
    Optional,
    /// `!key`: the property must not have the given value.
    Opposed,
    /// No modifier.
    Neutral,
}

/// A property filter `key: "value"` with its modifier.
#[derive(Debug)]
pub struct PropertyFilter {
    pub key_id: String,
    pub target_value_id: String,
    pub modifier: Modifier,
}

/// A node pattern `(alias:Label {filters})`.
#[derive(Debug)]
pub struct NodeExpr {
    pub alias: String,
    pub label: Option<String>,
    pub properties_filters: Vec<PropertyFilter>,
}

/// An edge pattern `-[*name | target > value]->`.
#[derive(Debug)]
pub struct EdgeExpr {
    pub name: String,
    /// `Some('*')` for a short-circuit edge, `Some('?')` for a fallback edge, `None` when strict.
    pub modifier: Option<char>,
    pub vec_filter: Option<VectorFilter>,
}

/// A semantic filter `| target op value` on an edge; `value` is the numeric literal's text.
#[derive(Debug)]
pub struct VectorFilter {
    pub target: String,
    pub operator: String,
    pub value: String,
}

/// One command of a program.
#[derive(Debug)]
pub enum Command {
    Add(AddExpression),
    Get { start: NodeExpr, path: Vec<(EdgeExpr, NodeExpr)> },
    Configure { mode: ExecutionMode },
}

/// A whole script: its commands in source order.
#[derive(Debug)]
pub struct Program {
    pub commands: Vec<Command>,
}

/// What an `ADD` command creates.
#[derive(Debug)]
pub enum AddExpression {
    /// `ADD (alias:Label {props})`
    Node(NodeExpr),
    /// `ADD (source)-[relation {props}]->(target)`
    Edge { source: String, target: String, name: String, properties: Vec<PropertyFilter> },
}

// ---------------------------------------------------------------------------
// Mathematical models
// ---------------------------------------------------------------------------

pub struct PropertyFilterView {
    pub key_id: Seq<char>,
    pub target_value_id: Seq<char>,
    pub modifier: Modifier,
}

pub struct NodeExprView {
    pub alias: Seq<char>,
    pub label: Option<Seq<char>>,
    pub properties_filters: Seq<PropertyFilterView>,
}

pub struct VectorFilterView {
    pub target: Seq<char>,
    pub operator: Seq<char>,
    pub value: Seq<char>,
}

pub struct EdgeExprView {
    pub name: Seq<char>,
    pub modifier: Option<char>,
    pub vec_filter: Option<VectorFilterView>,
}

pub enum AddExpressionView {
    Node(NodeExprView),
    Edge { source: Seq<char>, target: Seq<char>, name: Seq<char>, properties: Seq<PropertyFilterView> },
}

pub enum CommandView {
    Add(AddExpressionView),
    Get { start: NodeExprView, path: Seq<(EdgeExprView, NodeExprView)> },
    Configure { mode: ExecutionMode },
}

pub struct ProgramView {
    pub commands: Seq<CommandView>,
}

impl View for PropertyFilter {
    type V = PropertyFilterView;

    open spec fn view(&self) -> PropertyFilterView {
        PropertyFilterView {
            key_id: self.key_id@,
            target_value_id: self.target_value_id@,
            modifier: self.modifier,
        }
    }
}

impl DeepView for PropertyFilter {
    type V = PropertyFilterView;

    open spec fn deep_view(&self) -> PropertyFilterView {
        self@
    }
}

impl View for NodeExpr {
    type V = NodeExprView;

    open spec fn view(&self) -> NodeExprView {
        NodeExprView {
            alias: self.alias@,
            label: self.label.deep_view(),
            properties_filters: self.properties_filters.deep_view(),
        }
    }
}

impl DeepView for NodeExpr {
    type V = NodeExprView;

    open spec fn deep_view(&self) -> NodeExprView {
        self@
    }
}

impl View for VectorFilter {
    type V = VectorFilterView;

    open spec fn view(&self) -> VectorFilterView {
        VectorFilterView { target: self.target@, operator: self.operator@, value: self.value@ }
    }
}

impl DeepView for VectorFilter {
    type V = VectorFilterView;

    open spec fn deep_view(&self) -> VectorFilterView {
        self@
    }
}

impl View for EdgeExpr {
    type V = EdgeExprView;

    open spec fn view(&self) -> EdgeExprView {
        EdgeExprView {
            name: self.name@,
            modifier: self.modifier,
            vec_filter: self.vec_filter.deep_view(),
        }
    }
}

impl DeepView for EdgeExpr {
    type V = EdgeExprView;

    open spec fn deep_view(&self) -> EdgeExprView {
        self@
    }
}

impl View for AddExpression {
    type V = AddExpressionView;

    open spec fn view(&self) -> AddExpressionView {
        match self {
            AddExpression::Node(n) => AddExpressionView::Node(n@),
            AddExpression::Edge { source, target, name, properties } => AddExpressionView::Edge {
                source: source@,
                target: target@,
                name: name@,
                properties: properties.deep_view(),
            },
        }
    }
}

impl DeepView for AddExpression {
    type V = AddExpressionView;

    open spec fn deep_view(&self) -> AddExpressionView {
        self@
    }
}

impl View for Command {
    type V = CommandView;

    open spec fn view(&self) -> CommandView {
        match self {
            Command::Add(a) => CommandView::Add(a@),
            Command::Get { start, path } => CommandView::Get {
                start: start@,
                path: path.deep_view(),
            },
            Command::Configure { mode } => CommandView::Configure { mode: *mode },
        }
    }
}

impl DeepView for Command {
    type V = CommandView;

    open spec fn deep_view(&self) -> CommandView {
        self@
    }
}

impl View for Program {
    type V = ProgramView;

    open spec fn view(&self) -> ProgramView {
        ProgramView { commands: self.commands.deep_view() }
    }
}

} // verus!
