//! What generated expressions do when they run.
//!
//! The generated code works on locals. Everything else, a call, a construction or a field, is asked
//! of the world around it, which sees all that it was asked before. A lambda and a `try` are not
//! looked into.

use vstd::prelude::*;

use crate::ir::expr::{IrBinOp, IrConstView, IrLabel};
use crate::ir::tree::{
    binary_tree, block_tree, if_else_tree, if_tree, set_tree, variable_tree, IrTree,
};
use crate::types::TyView;

verus! {

/// A value that running code works with.
pub enum Datum {
    Unit,
    Null,
    Boolean(bool),
    Int(i32),
    Constant(IrConstView),
    Object(int),
}

/// The value of a constant.
pub open spec fn datum(value: IrConstView) -> Datum {
    match value {
        IrConstView::Null => Datum::Null,
        IrConstView::Boolean(value) => Datum::Boolean(value),
        IrConstView::Int(value) => Datum::Int(value),
        other => Datum::Constant(other),
    }
}

/// Something that the world was asked: an operation on values.
pub struct Event {
    pub label: IrLabel,
    pub operands: Seq<Datum>,
}

/// The world around running code: what it answers, given what it was asked before.
pub struct World {
    pub answers: spec_fn(Seq<Event>, Event) -> Datum,
}

/// The state of running code: its locals, and what the world was asked.
pub struct Machine {
    pub locals: Map<u32, Datum>,
    pub log: Seq<Event>,
}

/// How running an expression ends.
pub enum Outcome {
    Value(Datum),
    Returned(Datum),
    Thrown(Datum),
    /// A loop was not done after the rounds it was given.
    Endless,
}

/// The state after an expression, and how it ended.
pub struct Run {
    pub machine: Machine,
    pub outcome: Outcome,
}

/// The state after some expressions with their values, or how one of them ended.
pub struct Runs {
    pub machine: Machine,
    pub outcome: Result<Seq<Datum>, Outcome>,
}

/// What an operation gives. `==` compares values; the bitwise operations are those on the bits of
/// 32-bit numbers and on truth values.
pub open spec fn operate(op: IrBinOp, left: Datum, right: Datum) -> Datum {
    match (op, left, right) {
        (IrBinOp::Eq, _, _) => Datum::Boolean(left == right),
        (IrBinOp::Ne, _, _) => Datum::Boolean(left != right),
        (IrBinOp::Or, Datum::Boolean(a), Datum::Boolean(b)) => Datum::Boolean(a || b),
        (IrBinOp::And, Datum::Boolean(a), Datum::Boolean(b)) => Datum::Boolean(a && b),
        (IrBinOp::BitOr, Datum::Boolean(a), Datum::Boolean(b)) => Datum::Boolean(a || b),
        (IrBinOp::BitAnd, Datum::Boolean(a), Datum::Boolean(b)) => Datum::Boolean(a && b),
        (IrBinOp::BitOr, Datum::Int(a), Datum::Int(b)) => Datum::Int(a | b),
        (IrBinOp::BitAnd, Datum::Int(a), Datum::Int(b)) => Datum::Int(a & b),
        _ => Datum::Unit,
    }
}

impl Machine {
    /// The state with a local set.
    pub open spec fn with(self, local: u32, value: Datum) -> Machine {
        Machine { locals: self.locals.insert(local, value), log: self.log }
    }

    /// The state after the world was asked something.
    pub open spec fn asking(self, event: Event) -> Machine {
        Machine { locals: self.locals, log: self.log.push(event) }
    }
}

/// Ask the world.
pub open spec fn ask(world: World, label: IrLabel, operands: Seq<Datum>, machine: Machine) -> Run {
    let event = Event { label, operands };
    Run {
        machine: machine.asking(event),
        outcome: Outcome::Value((world.answers)(machine.log, event)),
    }
}

/// Whether the loop has a condition in front of it and nothing else.
pub open spec fn is_plain_loop(label: IrLabel) -> bool {
    label matches IrLabel::While { has_update, post_test, .. } && !has_update && !post_test
}

/// Run an expression. A loop is given `rounds` rounds.
pub open spec fn run(world: World, rounds: nat, tree: IrTree, machine: Machine) -> Run
    decreases rounds, tree, 3nat, 0nat,
{
    match tree.label {
        IrLabel::Const(value) => Run { machine, outcome: Outcome::Value(datum(value)) },
        IrLabel::GetValue(local) => Run { machine, outcome: Outcome::Value(machine.locals[local]) },
        IrLabel::SetValue { var } => if tree.operands.len() == 1 {
            let value = run(world, rounds, tree.operands[0], machine);
            match value.outcome {
                Outcome::Value(found) => Run {
                    machine: value.machine.with(var, found),
                    outcome: Outcome::Value(Datum::Unit),
                },
                _ => value,
            }
        } else {
            Run { machine, outcome: Outcome::Value(Datum::Unit) }
        },
        IrLabel::Variable { index, .. } => if tree.operands.len() == 1 {
            let value = run(world, rounds, tree.operands[0], machine);
            match value.outcome {
                Outcome::Value(found) => Run {
                    machine: value.machine.with(index, found),
                    outcome: Outcome::Value(Datum::Unit),
                },
                _ => value,
            }
        } else {
            Run { machine, outcome: Outcome::Value(Datum::Unit) }
        },
        IrLabel::PrimitiveBinOp(op) => if tree.operands.len() == 2 {
            let left = run(world, rounds, tree.operands[0], machine);
            match left.outcome {
                Outcome::Value(a) => if op == IrBinOp::Or && a == Datum::Boolean(true) {
                    left
                } else if op == IrBinOp::And && a == Datum::Boolean(false) {
                    left
                } else {
                    let right = run(world, rounds, tree.operands[1], left.machine);
                    match right.outcome {
                        Outcome::Value(b) => Run {
                            machine: right.machine,
                            outcome: Outcome::Value(operate(op, a, b)),
                        },
                        _ => right,
                    }
                },
                _ => left,
            }
        } else {
            Run { machine, outcome: Outcome::Value(Datum::Unit) }
        },
        IrLabel::Block { .. } => run_from(world, rounds, tree, 0, machine),
        IrLabel::When { guarded } => run_branch(world, rounds, tree, guarded, 0, 0, machine),
        IrLabel::While { .. } => if is_plain_loop(tree.label) && tree.operands.len() == 2 {
            if rounds == 0 {
                Run { machine, outcome: Outcome::Endless }
            } else {
                let condition = run(world, rounds, tree.operands[0], machine);
                match condition.outcome {
                    Outcome::Value(holds) => if holds == Datum::Boolean(true) {
                        let body = run(world, rounds, tree.operands[1], condition.machine);
                        match body.outcome {
                            Outcome::Value(_) => run(
                                world,
                                (rounds - 1) as nat,
                                tree,
                                body.machine,
                            ),
                            _ => body,
                        }
                    } else {
                        Run {
                            machine: condition.machine,
                            outcome: Outcome::Value(Datum::Unit),
                        }
                    },
                    _ => condition,
                }
            }
        } else {
            ask(world, tree.label, seq![], machine)
        },
        IrLabel::Return { .. } => if tree.operands.len() == 1 {
            let value = run(world, rounds, tree.operands[0], machine);
            match value.outcome {
                Outcome::Value(found) => Run {
                    machine: value.machine,
                    outcome: Outcome::Returned(found),
                },
                _ => value,
            }
        } else {
            Run { machine, outcome: Outcome::Returned(Datum::Unit) }
        },
        IrLabel::Throw => if tree.operands.len() == 1 {
            let value = run(world, rounds, tree.operands[0], machine);
            match value.outcome {
                Outcome::Value(found) => Run {
                    machine: value.machine,
                    outcome: Outcome::Thrown(found),
                },
                _ => value,
            }
        } else {
            Run { machine, outcome: Outcome::Thrown(Datum::Unit) }
        },
        IrLabel::Lambda { .. } => ask(world, tree.label, seq![], machine),
        IrLabel::Try { .. } => ask(world, tree.label, seq![], machine),
        _ => {
            let operands = run_operands(world, rounds, tree, tree.operands.len(), machine);
            match operands.outcome {
                Ok(values) => ask(world, tree.label, values, operands.machine),
                Err(outcome) => Run { machine: operands.machine, outcome },
            }
        },
    }
}

/// Run the first `count` operands of an expression, one after the other.
pub open spec fn run_operands(
    world: World,
    rounds: nat,
    tree: IrTree,
    count: nat,
    machine: Machine,
) -> Runs
    decreases rounds, tree, 2nat, count,
{
    if count == 0 || count > tree.operands.len() {
        Runs { machine, outcome: Ok(seq![]) }
    } else {
        let before = run_operands(world, rounds, tree, (count - 1) as nat, machine);
        match before.outcome {
            Ok(values) => {
                let last = run(world, rounds, tree.operands[count - 1], before.machine);
                Runs {
                    machine: last.machine,
                    outcome: match last.outcome {
                        Outcome::Value(value) => Ok(values.push(value)),
                        other => Err(other),
                    },
                }
            },
            Err(_) => before,
        }
    }
}

/// Run the statements of a block from the one at `from` on.
pub open spec fn run_from(
    world: World,
    rounds: nat,
    tree: IrTree,
    from: nat,
    machine: Machine,
) -> Run
    decreases rounds, tree, 2nat, tree.operands.len() - from,
{
    if from >= tree.operands.len() {
        Run { machine, outcome: Outcome::Value(Datum::Unit) }
    } else {
        let first = run(world, rounds, tree.operands[from as int], machine);
        match first.outcome {
            Outcome::Value(_) => if from + 1 == tree.operands.len() && tree.label
                == (IrLabel::Block { has_value: true }) {
                first
            } else {
                run_from(world, rounds, tree, from + 1, first.machine)
            },
            _ => first,
        }
    }
}

/// Run the first branch, from the one at `branch` on, whose condition holds. Its operands begin at
/// `at`.
pub open spec fn run_branch(
    world: World,
    rounds: nat,
    tree: IrTree,
    guarded: Seq<bool>,
    branch: nat,
    at: nat,
    machine: Machine,
) -> Run
    decreases rounds, tree, 2nat, guarded.len() - branch,
{
    if branch >= guarded.len() {
        Run { machine, outcome: Outcome::Value(Datum::Unit) }
    } else if !guarded[branch as int] {
        if at < tree.operands.len() {
            run(world, rounds, tree.operands[at as int], machine)
        } else {
            Run { machine, outcome: Outcome::Value(Datum::Unit) }
        }
    } else if at + 1 < tree.operands.len() {
        let condition = run(world, rounds, tree.operands[at as int], machine);
        match condition.outcome {
            Outcome::Value(holds) => if holds == Datum::Boolean(true) {
                run(world, rounds, tree.operands[at as int + 1], condition.machine)
            } else {
                run_branch(world, rounds, tree, guarded, branch + 1, at + 2, condition.machine)
            },
            _ => condition,
        }
    } else {
        Run { machine, outcome: Outcome::Value(Datum::Unit) }
    }
}

/// Run statements one after the other.
pub open spec fn run_all(
    world: World,
    rounds: nat,
    statements: Seq<IrTree>,
    machine: Machine,
) -> Run {
    run(world, rounds, block_tree(statements), machine)
}

/// Whether an expression only asks the world and reads locals: it sets none, and neither returns
/// nor throws.
pub open spec fn is_plain(tree: IrTree) -> bool
    decreases tree,
{
    match tree.label {
        IrLabel::SetValue { .. }
        | IrLabel::Variable { .. }
        | IrLabel::PrimitiveBinOp(_)
        | IrLabel::Block { .. }
        | IrLabel::When { .. }
        | IrLabel::While { .. }
        | IrLabel::Return { .. }
        | IrLabel::Throw => false,
        IrLabel::Lambda { .. } | IrLabel::Try { .. } => true,
        _ => forall|k: int| 0 <= k < tree.operands.len() ==> is_plain(#[trigger] tree.operands[k]),
    }
}

/// A plain expression has a value, and leaves the locals as they were.
pub proof fn lemma_plain(world: World, rounds: nat, tree: IrTree, machine: Machine)
    requires
        is_plain(tree),
    ensures
        ({
            let after = run(world, rounds, tree, machine);
            &&& after.outcome is Value
            &&& after.machine.locals == machine.locals
            &&& machine.log.len() <= after.machine.log.len()
            &&& after.machine.log.take(machine.log.len() as int) == machine.log
        }),
    decreases tree, 1nat, 0nat,
{
    assert(machine.log.take(machine.log.len() as int) =~= machine.log);
    match tree.label {
        IrLabel::Const(_) | IrLabel::GetValue(_) => {},
        IrLabel::Lambda { .. } | IrLabel::Try { .. } => {
            let event = Event { label: tree.label, operands: seq![] };
            assert(machine.log.push(event).take(machine.log.len() as int) =~= machine.log);
        },
        _ => {
            lemma_plain_operands(world, rounds, tree, tree.operands.len(), machine);
            let operands = run_operands(world, rounds, tree, tree.operands.len(), machine);
            let event = Event { label: tree.label, operands: operands.outcome->Ok_0 };
            assert(operands.machine.log.push(event).take(machine.log.len() as int)
                =~= operands.machine.log.take(machine.log.len() as int));
        },
    }
}

proof fn lemma_plain_operands(
    world: World,
    rounds: nat,
    tree: IrTree,
    count: nat,
    machine: Machine,
)
    requires
        count <= tree.operands.len(),
        forall|k: int| 0 <= k < tree.operands.len() ==> is_plain(#[trigger] tree.operands[k]),
    ensures
        ({
            let after = run_operands(world, rounds, tree, count, machine);
            &&& after.outcome is Ok
            &&& after.machine.locals == machine.locals
            &&& machine.log.len() <= after.machine.log.len()
            &&& after.machine.log.take(machine.log.len() as int) == machine.log
        }),
    decreases tree, 0nat, count,
{
    assert(machine.log.take(machine.log.len() as int) =~= machine.log);
    if count > 0 {
        lemma_plain_operands(world, rounds, tree, (count - 1) as nat, machine);
        let before = run_operands(world, rounds, tree, (count - 1) as nat, machine);
        lemma_plain(world, rounds, tree.operands[count - 1], before.machine);
        let last = run(world, rounds, tree.operands[count - 1], before.machine);
        assert(last.machine.log.take(machine.log.len() as int) =~= last.machine.log.take(
            before.machine.log.len() as int,
        ).take(machine.log.len() as int));
    }
}

/// What running the statements of one list after those of another does.
pub open spec fn continued(world: World, rounds: nat, first: Run, statements: Seq<IrTree>) -> Run {
    match first.outcome {
        Outcome::Value(_) => run_all(world, rounds, statements, first.machine),
        _ => first,
    }
}

proof fn lemma_run_rest(
    world: World,
    rounds: nat,
    first: Seq<IrTree>,
    second: Seq<IrTree>,
    from: nat,
    machine: Machine,
)
    requires
        from <= second.len(),
    ensures
        run_from(world, rounds, block_tree(first + second), first.len() + from, machine)
            == run_from(world, rounds, block_tree(second), from, machine),
    decreases second.len() - from,
{
    let both = block_tree(first + second);
    if from < second.len() {
        assert(both.operands[first.len() as int + from] == second[from as int]);
        let after = run(world, rounds, second[from as int], machine);
        lemma_run_rest(world, rounds, first, second, from + 1, after.machine);
    }
}

proof fn lemma_run_joined(
    world: World,
    rounds: nat,
    first: Seq<IrTree>,
    second: Seq<IrTree>,
    from: nat,
    machine: Machine,
)
    requires
        from <= first.len(),
    ensures
        run_from(world, rounds, block_tree(first + second), from, machine) == continued(
            world,
            rounds,
            run_from(world, rounds, block_tree(first), from, machine),
            second,
        ),
    decreases first.len() - from,
{
    let both = block_tree(first + second);
    if from == first.len() {
        lemma_run_rest(world, rounds, first, second, 0, machine);
    } else {
        assert(both.operands[from as int] == first[from as int]);
        let after = run(world, rounds, first[from as int], machine);
        lemma_run_joined(world, rounds, first, second, from + 1, after.machine);
    }
}

/// Running two lists of statements as one is running them one after the other.
pub proof fn lemma_run_both(
    world: World,
    rounds: nat,
    first: Seq<IrTree>,
    second: Seq<IrTree>,
    machine: Machine,
)
    ensures
        run_all(world, rounds, first + second, machine) == continued(
            world,
            rounds,
            run_all(world, rounds, first, machine),
            second,
        ),
{
    lemma_run_joined(world, rounds, first, second, 0, machine);
}

/// Running no statements.
pub proof fn lemma_run_none(world: World, rounds: nat, machine: Machine)
    ensures
        run_all(world, rounds, seq![], machine) == (Run {
            machine,
            outcome: Outcome::Value(Datum::Unit),
        }),
{
    reveal_with_fuel(run, 2);
    reveal_with_fuel(run_from, 2);
}

/// Running one statement.
pub proof fn lemma_run_one(world: World, rounds: nat, statement: IrTree, machine: Machine)
    ensures
        ({
            let after = run(world, rounds, statement, machine);
            run_all(world, rounds, seq![statement], machine) == match after.outcome {
                Outcome::Value(_) => Run {
                    machine: after.machine,
                    outcome: Outcome::Value(Datum::Unit),
                },
                _ => after,
            }
        }),
{
    reveal_with_fuel(run, 2);
    reveal_with_fuel(run_from, 4);
    let block = block_tree(seq![statement]);
    assert(block.operands[0] == statement);
    let after = run(world, rounds, statement, machine);
    assert(run_from(world, rounds, block, 1, after.machine).outcome == Outcome::Value(Datum::Unit));
    assert(run(world, rounds, block, machine) == run_from(world, rounds, block, 0, machine));
}

/// Running one more statement.
pub proof fn lemma_run_more(
    world: World,
    rounds: nat,
    statements: Seq<IrTree>,
    statement: IrTree,
    machine: Machine,
)
    ensures
        run_all(world, rounds, statements.push(statement), machine) == continued(
            world,
            rounds,
            run_all(world, rounds, statements, machine),
            seq![statement],
        ),
{
    assert(statements.push(statement) =~= statements + seq![statement]);
    lemma_run_both(world, rounds, statements, seq![statement], machine);
}

/// Setting a local to the value of an expression.
pub proof fn lemma_run_set(world: World, rounds: nat, local: u32, value: IrTree, machine: Machine)
    ensures
        ({
            let found = run(world, rounds, value, machine);
            &&& found.outcome matches Outcome::Value(held) ==> run(
                world,
                rounds,
                set_tree(local, value),
                machine,
            ) == (Run {
                machine: found.machine.with(local, held),
                outcome: Outcome::Value(Datum::Unit),
            })
            &&& found.outcome matches Outcome::Value(held) ==> forall|ty: TyView|
                run(world, rounds, #[trigger] variable_tree(local, ty, value), machine) == (Run {
                    machine: found.machine.with(local, held),
                    outcome: Outcome::Value(Datum::Unit),
                })
        }),
{
}

/// An operation on the values of two expressions, where the first does not decide it.
pub proof fn lemma_run_binary(
    world: World,
    rounds: nat,
    op: IrBinOp,
    left: IrTree,
    right: IrTree,
    machine: Machine,
)
    requires
        op != IrBinOp::Or,
        op != IrBinOp::And,
        run(world, rounds, left, machine).outcome is Value,
        run(world, rounds, right, run(world, rounds, left, machine).machine).outcome is Value,
    ensures
        ({
            let first = run(world, rounds, left, machine);
            let second = run(world, rounds, right, first.machine);
            run(world, rounds, binary_tree(op, left, right), machine) == (Run {
                machine: second.machine,
                outcome: Outcome::Value(
                    operate(op, first.outcome->Value_0, second.outcome->Value_0),
                ),
            })
        }),
{
}

/// The branch that is run: the first where the condition holds.
pub proof fn lemma_run_if(
    world: World,
    rounds: nat,
    condition: IrTree,
    result: IrTree,
    otherwise: IrTree,
    machine: Machine,
)
    requires
        run(world, rounds, condition, machine).outcome is Value,
    ensures
        ({
            let asked = run(world, rounds, condition, machine);
            let holds = asked.outcome == Outcome::Value(Datum::Boolean(true));
            &&& run(world, rounds, if_tree(condition, result), machine) == if holds {
                run(world, rounds, result, asked.machine)
            } else {
                Run { machine: asked.machine, outcome: Outcome::Value(Datum::Unit) }
            }
            &&& run(world, rounds, if_else_tree(condition, result, otherwise), machine) == if holds {
                run(world, rounds, result, asked.machine)
            } else {
                run(world, rounds, otherwise, asked.machine)
            }
        }),
{
    reveal_with_fuel(run_branch, 4);
    let short = if_tree(condition, result);
    let long = if_else_tree(condition, result, otherwise);
    let asked = run(world, rounds, condition, machine);
    assert(short.operands[0] == condition && short.operands[1] == result);
    assert(long.operands[0] == condition && long.operands[1] == result && long.operands[2]
        == otherwise);
    assert(run(world, rounds, short, machine) == run_branch(
        world,
        rounds,
        short,
        seq![true],
        0,
        0,
        machine,
    ));
    assert(run(world, rounds, long, machine) == run_branch(
        world,
        rounds,
        long,
        seq![true, false],
        0,
        0,
        machine,
    ));
    assert(run_branch(world, rounds, short, seq![true], 1, 2, asked.machine).machine
        == asked.machine);
    assert(run_branch(world, rounds, long, seq![true, false], 1, 2, asked.machine) == run(
        world,
        rounds,
        otherwise,
        asked.machine,
    ));
}

/// The values of plain operands: a constant is itself, and a local what it holds.
pub proof fn lemma_operand_values(
    world: World,
    rounds: nat,
    tree: IrTree,
    count: nat,
    machine: Machine,
)
    requires
        count <= tree.operands.len(),
        forall|k: int| 0 <= k < count ==> is_plain(#[trigger] tree.operands[k]),
    ensures
        ({
            let after = run_operands(world, rounds, tree, count, machine);
            &&& after.outcome matches Ok(values) && values.len() == count && forall|k: int|
                #![trigger values[k]]
                0 <= k < count ==> (tree.operands[k].label matches IrLabel::Const(value)
                    ==> values[k] == datum(value)) && (
                tree.operands[k].label matches IrLabel::GetValue(local) ==> values[k]
                    == machine.locals[local])
            &&& after.machine.locals == machine.locals
            &&& machine.log.len() <= after.machine.log.len()
            &&& after.machine.log.take(machine.log.len() as int) == machine.log
        }),
    decreases count,
{
    assert(machine.log.take(machine.log.len() as int) =~= machine.log);
    if count > 0 {
        lemma_operand_values(world, rounds, tree, (count - 1) as nat, machine);
        let before = run_operands(world, rounds, tree, (count - 1) as nat, machine);
        assert(is_plain(tree.operands[count - 1]));
        lemma_plain(world, rounds, tree.operands[count - 1], before.machine);
        let last = run(world, rounds, tree.operands[count - 1], before.machine);
        assert(last.machine.log.take(machine.log.len() as int) =~= last.machine.log.take(
            before.machine.log.len() as int,
        ).take(machine.log.len() as int));
    }
}

} // verus!
