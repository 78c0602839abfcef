//! Query planning: choosing the execution mode a program needs.
use vstd::prelude::*;
use crate::ast::{Command, CommandView, EdgeExpr, EdgeExprView, ExecutionMode, NodeExpr, NodeExprView, Program};

verus! {

/// Whether a command is a `GET` with a semantic filter on one of its edges.
pub open spec fn needs_vector_search(c: CommandView) -> bool {
    match c {
        CommandView::Get { path, .. } => exists|i: int| 0 <= i < path.len() && (#[trigger] path[i]).0.vec_filter is Some,
        _ => false,
    }
}

/// The mode after the planner has seen commands `cs`, starting from `mode`: a `GET` with a
/// semantic filter switches to `Hybrid`, a configuration switches to its mode, and any other
/// command keeps the current one.
pub open spec fn planned_mode(mode: ExecutionMode, cs: Seq<CommandView>) -> ExecutionMode
    decreases cs.len(),
{
    if cs.len() == 0 {
        mode
    } else {
        let m = planned_mode(mode, cs.drop_last());
        match cs.last() {
            CommandView::Configure { mode: cm } => cm,
            c => if needs_vector_search(c) {
                ExecutionMode::Hybrid
            } else {
                m
            },
        }
    }
}

/// A `GET` needs vector search exactly when some edge of its path, at any position, carries a
/// semantic filter; a program ending with such a `GET` is planned in `Hybrid` mode.
pub proof fn law_vector_filter_anywhere(
    mode: ExecutionMode,
    before: Seq<CommandView>,
    start: NodeExprView,
    path: Seq<(EdgeExprView, NodeExprView)>,
    i: int,
)
    requires
        0 <= i < path.len(),
        path[i].0.vec_filter is Some,
    ensures
        needs_vector_search(CommandView::Get { start, path }),
        planned_mode(mode, before.push(CommandView::Get { start, path })) == ExecutionMode::Hybrid,
{
    let cs = before.push(CommandView::Get { start, path });
    assert(cs.drop_last() =~= before);
    assert(needs_vector_search(CommandView::Get { start, path }));
}

/// A `GET` none of whose edges carries a semantic filter needs no vector search.
pub proof fn law_no_vector_filter(start: NodeExprView, path: Seq<(EdgeExprView, NodeExprView)>)
    requires
        forall|i: int| 0 <= i < path.len() ==> (#[trigger] path[i]).0.vec_filter is None,
    ensures
        !needs_vector_search(CommandView::Get { start, path }),
{
}

/// Whether `command` is a `GET` with a semantic filter on one of its edges (such a command
/// makes the planner switch to `Hybrid`).
pub fn uses_vector_filter(command: &Command) -> (r: bool)
    ensures
        r == needs_vector_search(command@),
{
    match command {
        Command::Get { path, .. } => {
            let ghost pv = path.deep_view();
            let mut i: usize = 0;
            while i < path.len()
                invariant
                    i <= path@.len(),
                    pv == path.deep_view(),
                    command@ matches CommandView::Get { path: p, .. } && p == pv,
                    forall|j: int| 0 <= j < i ==> (#[trigger] pv[j]).0.vec_filter is None,
                decreases path@.len() - i,
            {
                if path[i].0.vec_filter.is_some() {
                    proof {
                        assert(pv[i as int].0.vec_filter is Some);
                    }
                    return true;
                }
                i += 1;
            }
            false
        },
        _ => false,
    }
}

/// Chooses the execution mode for a program, starting from its default mode.
pub struct QueryOptimizer {
    pub default_mode: ExecutionMode,
}

impl QueryOptimizer {
    /// A planner whose default mode is `Strict`.
    pub fn new() -> (o: Self)
        ensures
            o.default_mode == ExecutionMode::Strict,
    {
        QueryOptimizer { default_mode: ExecutionMode::Strict }
    }

    /// Returns the program unchanged, with the mode it needs.
    pub fn optimize(&self, program: Program) -> (r: (Program, ExecutionMode))
        ensures
            r.0@.commands == program@.commands,
            r.1 == planned_mode(self.default_mode, program@.commands),
    {
        let mut detected_mode = self.default_mode;
        let ghost cv = program@.commands;
        let mut i: usize = 0;
        while i < program.commands.len()
            invariant
                i <= program.commands@.len(),
                cv == program@.commands,
                detected_mode == planned_mode(self.default_mode, cv.take(i as int)),
            decreases program.commands@.len() - i,
        {
            let command = &program.commands[i];
            proof {
                assert(cv.take(i + 1).drop_last() =~= cv.take(i as int));
                assert(cv[i as int] == command@);
            }
            match command {
                Command::Configure { mode } => {
                    detected_mode = *mode;
                },
                _ => {
                    if uses_vector_filter(command) {
                        detected_mode = ExecutionMode::Hybrid;
                    }
                },
            }
            i += 1;
        }
        proof {
            assert(cv.take(cv.len() as int) =~= cv);
        }
        (program, detected_mode)
    }
}

} // verus!
