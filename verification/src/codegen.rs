//! Code generation: a [`Program`] to virtual-machine instructions.
use vstd::prelude::*;
use crate::ast::{
    AddExpression, AddExpressionView, Command, CommandView, EdgeExpr, EdgeExprView, ExecutionMode,
    NodeExpr, NodeExprView, Program, PropertyFilter, PropertyFilterView,
};
use crate::bytecode::{clone_filters, clone_ops, clone_opt_string, OpCode, OpCodeView};
use crate::strmap::StrMap;

verus! {

/// The properties that a list of filters stores: each key with its value; a later filter
/// with the same key overrides an earlier one. Modifiers play no part.
pub open spec fn filters_to_map(fs: Seq<PropertyFilterView>) -> Map<Seq<char>, Seq<char>>
    decreases fs.len(),
{
    if fs.len() == 0 {
        Map::empty()
    } else {
        filters_to_map(fs.drop_last()).insert(fs.last().key_id, fs.last().target_value_id)
    }
}

/// The instruction that loads node pattern `n`.
pub open spec fn load_op(n: NodeExprView) -> OpCodeView {
    OpCodeView::LoadNode { alias: n.alias, label: n.label, properties_filters: n.properties_filters }
}

/// The instructions for the steps of a path: for each step, a traversal (required unless the
/// edge carries a modifier) and the loading of the step's node.
pub open spec fn path_ops(path: Seq<(EdgeExprView, NodeExprView)>) -> Seq<OpCodeView>
    decreases path.len(),
{
    if path.len() == 0 {
        Seq::empty()
    } else {
        let (e, n) = path.last();
        path_ops(path.drop_last()) + seq![
            OpCodeView::TraverseEdge { name: e.name, required: e.modifier is None },
            load_op(n),
        ]
    }
}

/// The instructions for one command.
pub open spec fn command_ops(c: CommandView) -> Seq<OpCodeView> {
    match c {
        CommandView::Add(AddExpressionView::Node(n)) => seq![
            OpCodeView::CreateNode {
                alias: n.alias,
                label: n.label,
                properties: filters_to_map(n.properties_filters),
            },
        ],
        CommandView::Add(AddExpressionView::Edge { source, target, name, properties }) => seq![
            OpCodeView::CreateEdge { source, target, name, properties: filters_to_map(properties) },
        ],
        CommandView::Get { start, path } => seq![load_op(start)] + path_ops(path),
        CommandView::Configure { mode } => seq![OpCodeView::SetExecutionMode(mode)],
    }
}

/// The instructions for a list of commands, in order.
pub open spec fn program_ops(cs: Seq<CommandView>) -> Seq<OpCodeView>
    decreases cs.len(),
{
    if cs.len() == 0 {
        Seq::empty()
    } else {
        program_ops(cs.drop_last()) + command_ops(cs.last())
    }
}

/// How many instructions a command compiles to: a `GET` loads its start node and then
/// traverses and loads once per step; every other command is one instruction.
pub open spec fn command_size(c: CommandView) -> int {
    match c {
        CommandView::Get { path, .. } => 1 + 2 * path.len() as int,
        _ => 1,
    }
}

/// The total [`command_size`] of a list of commands.
pub open spec fn program_size(cs: Seq<CommandView>) -> int
    decreases cs.len(),
{
    if cs.len() == 0 {
        0
    } else {
        program_size(cs.drop_last()) + command_size(cs.last())
    }
}

proof fn lemma_path_ops_len(path: Seq<(EdgeExprView, NodeExprView)>)
    ensures
        path_ops(path).len() == 2 * path.len(),
    decreases path.len(),
{
    if path.len() > 0 {
        lemma_path_ops_len(path.drop_last());
    }
}

/// The instructions of a program are one per command, plus two per step of each `GET` path.
pub proof fn law_instruction_count(cs: Seq<CommandView>)
    ensures
        program_ops(cs).len() == program_size(cs),
    decreases cs.len(),
{
    if cs.len() > 0 {
        law_instruction_count(cs.drop_last());
        if let CommandView::Get { path, .. } = cs.last() {
            lemma_path_ops_len(path);
        }
    }
}

/// The `GET` command from `start` along `path`.
pub open spec fn get_command(start: NodeExprView, path: Seq<(EdgeExprView, NodeExprView)>) -> CommandView {
    CommandView::Get { start, path }
}

/// A traversal of relation `name`.
pub open spec fn traversal(name: Seq<char>, required: bool) -> OpCodeView {
    OpCodeView::TraverseEdge { name, required }
}

proof fn lemma_path_ops_at(path: Seq<(EdgeExprView, NodeExprView)>, i: int)
    requires
        0 <= i < path.len(),
    ensures
        path_ops(path).len() == 2 * path.len(),
        path_ops(path)[2 * i] == (OpCodeView::TraverseEdge { name: path[i].0.name, required: (path[i].0.modifier is None) }),
        path_ops(path)[2 * i + 1] == load_op(path[i].1),
    decreases path.len(),
{
    lemma_path_ops_len(path);
    let init = path.drop_last();
    lemma_path_ops_len(init);
    if i < init.len() {
        lemma_path_ops_at(init, i);
        assert(init[i] == path[i]);
    }
}

/// A `GET` compiles to the loading of its start node, then, for each step of its path in
/// order, a traversal of the step's relation and the loading of the step's node. A traversal is
/// required exactly when its edge carries no modifier: an edge marked `*` or `?` may be missing.
pub proof fn law_get_compiles_step_by_step(start: NodeExprView, path: Seq<(EdgeExprView, NodeExprView)>, i: int)
    requires
        0 <= i < path.len(),
    ensures
        command_ops(get_command(start, path)).len() == 1 + 2 * path.len(),
        command_ops(get_command(start, path))[0] == load_op(start),
        command_ops(get_command(start, path))[1 + 2 * i] == traversal(path[i].0.name, (path[i].0.modifier is None)),
        path[i].0.modifier is Some ==> command_ops(get_command(start, path))[1 + 2 * i] == traversal(path[i].0.name, false),
        path[i].0.modifier is None ==> command_ops(get_command(start, path))[1 + 2 * i] == traversal(path[i].0.name, true),
        command_ops(get_command(start, path))[2 + 2 * i] == load_op(path[i].1),
{
    lemma_path_ops_at(path, i);
    let ops = command_ops(get_command(start, path));
    assert(ops == seq![load_op(start)] + path_ops(path));
    assert(ops[1 + 2 * i] == path_ops(path)[2 * i]);
    assert(ops[2 + 2 * i] == path_ops(path)[2 * i + 1]);
}

/// The properties map stored by a list of filters.
fn filters_into_map(filters: Vec<PropertyFilter>) -> (m: StrMap<String>)
    ensures
        m@ == filters_to_map(filters.deep_view()),
{
    let ghost fs = filters.deep_view();
    let ghost raw = filters@;
    let mut m: StrMap<String> = StrMap::new();
    proof {
        assert(fs.take(0) =~= Seq::<PropertyFilterView>::empty());
    }
    for f in it: filters.into_iter()
        invariant
            it.seq() == raw,
            fs.len() == raw.len(),
            forall|i: int| 0 <= i < raw.len() ==> #[trigger] fs[i] == raw[i]@,
            m@ == filters_to_map(fs.take(it.index() as int)),
    {
        let ghost k = it.index() as int;
        proof {
            assert(fs.take(k + 1).drop_last() =~= fs.take(k));
        }
        m.insert(f.key_id, f.target_value_id);
    }
    proof {
        assert(fs.take(fs.len() as int) =~= fs);
    }
    m
}

/// Translates programs into instructions, accumulating everything it has emitted.
pub struct CodeGenerator {
    pub bytecode: Vec<OpCode>,
}

impl CodeGenerator {
    /// A generator that has emitted nothing.
    pub fn new() -> (g: Self)
        ensures
            g.bytecode@.len() == 0,
    {
        CodeGenerator { bytecode: Vec::new() }
    }

    /// Emits the mode switch to `mode` followed by the instructions of each command, in order,
    /// and returns everything emitted so far.
    pub fn generate(&mut self, program: Program, mode: ExecutionMode) -> (r: Vec<OpCode>)
        ensures
            final(self).bytecode.deep_view() == old(self).bytecode.deep_view() + seq![
                OpCodeView::SetExecutionMode(mode),
            ] + program_ops(program@.commands),
            r.deep_view() == final(self).bytecode.deep_view(),
    {
        let ghost cv = program@.commands;
        let ghost raw = program.commands@;
        let ghost base = self.bytecode.deep_view().push(OpCodeView::SetExecutionMode(mode));
        self.bytecode.push(OpCode::SetExecutionMode(mode));
        proof {
            assert(self.bytecode.deep_view() =~= base);
            assert(cv.take(0) =~= Seq::<CommandView>::empty());
            assert(base + Seq::<OpCodeView>::empty() =~= base);
        }
        for command in it: program.commands.into_iter()
            invariant
                it.seq() == raw,
                cv.len() == raw.len(),
                forall|i: int| 0 <= i < raw.len() ==> #[trigger] cv[i] == raw[i]@,
                self.bytecode.deep_view() == base + program_ops(cv.take(it.index() as int)),
        {
            let ghost k = it.index() as int;
            let ghost before = self.bytecode.deep_view();
            proof {
                assert(cv.take(k + 1).drop_last() =~= cv.take(k));
            }
            self.emit_command(command);
            proof {
                assert(base + program_ops(cv.take(k + 1)) =~= before + command_ops(cv[k]));
            }
        }
        proof {
            assert(cv.take(cv.len() as int) =~= cv);
        }
        clone_ops(&self.bytecode)
    }

    /// Emits the instructions of one command.
    fn emit_command(&mut self, command: Command)
        ensures
            final(self).bytecode.deep_view() == old(self).bytecode.deep_view() + command_ops(command@),
    {
        let ghost before = self.bytecode.deep_view();
        let ghost c = command@;
        match command {
            Command::Add(AddExpression::Node(n)) => {
                let props_map = filters_into_map(n.properties_filters);
                let op = OpCode::CreateNode { alias: n.alias, label: n.label, properties: props_map };
                self.bytecode.push(op);
            },
            Command::Add(AddExpression::Edge { source, target, name, properties }) => {
                let edge_props = filters_into_map(properties);
                let op = OpCode::CreateEdge { source, target, name, properties: edge_props };
                self.bytecode.push(op);
            },
            Command::Get { start, path } => {
                self.bytecode.push(OpCode::LoadNode {
                    alias: start.alias,
                    label: start.label,
                    properties_filters: start.properties_filters,
                });
                let ghost after_start = self.bytecode.deep_view();
                let ghost pv = path.deep_view();
                let mut i: usize = 0;
                proof {
                    assert(pv.take(0) =~= Seq::<(EdgeExprView, NodeExprView)>::empty());
                    assert(after_start + Seq::<OpCodeView>::empty() =~= after_start);
                }
                while i < path.len()
                    invariant
                        i <= path@.len(),
                        pv == path.deep_view(),
                        self.bytecode.deep_view() == after_start + path_ops(pv.take(i as int)),
                    decreases path@.len() - i,
                {
                    let edge = &path[i].0;
                    let node = &path[i].1;
                    let ghost mid = self.bytecode.deep_view();
                    self.bytecode.push(OpCode::TraverseEdge {
                        name: edge.name.clone(),
                        required: edge.modifier.is_none(),
                    });
                    self.bytecode.push(OpCode::LoadNode {
                        alias: node.alias.clone(),
                        label: clone_opt_string(&node.label),
                        properties_filters: clone_filters(&node.properties_filters),
                    });
                    proof {
                        assert(pv.take(i + 1).drop_last() =~= pv.take(i as int));
                        assert(pv[i as int] == (edge@, node@));
                        assert(after_start + path_ops(pv.take(i + 1)) =~= mid + seq![
                            OpCodeView::TraverseEdge { name: edge@.name, required: edge@.modifier is None },
                            load_op(node@),
                        ]);
                    }
                    i += 1;
                }
                proof {
                    assert(pv.take(pv.len() as int) =~= pv);
                }
            },
            Command::Configure { mode } => {
                self.bytecode.push(OpCode::SetExecutionMode(mode));
            },
        }
        proof {
            assert(self.bytecode.deep_view() =~= before + command_ops(c));
        }
    }
}

} // verus!
