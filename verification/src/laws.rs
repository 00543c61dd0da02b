//! The guarantees the engine's pieces give together, stated over the same
//! models the execution contracts use.

use vstd::prelude::*;
use crate::data::{Command, LangError};
use crate::digits::decimal_of;
use crate::grid::{cell_at, char_result, command_effect, dead_model, decode_at, shifted, GridModel};
use crate::snake::{decrease_model, increase_model, set_length_model, shift_model, SnakeModel};

verus! {

/// Setting the body length to `amount` and letting the following movement
/// materialize any deferred growth leaves exactly `amount` segments,
/// whatever the body held before.
pub proof fn lemma_set_length_then_shift(s: SnakeModel, amount: nat)
    requires
        s.needs_add == 0,
    ensures
        shift_model(set_length_model(s, amount)).tails.len() == amount,
{
    let s1 = set_length_model(s, amount);
    if s.tails.len() >= amount {
        assert(s1.tails.len() == amount);
    } else if s.tails.len() >= 1 {
        assert(s1.tails.len() == amount);
    } else {
        assert(s1.needs_add == amount);
    }
}

/// A length-setting command followed by a body-length query reports exactly
/// the amount set, regardless of the prior length: the query's output is the
/// amount's decimal digits.
pub proof fn lemma_set_length_then_print_len(g: GridModel, amount: usize)
    requires
        g.snake.needs_add == 0,
    ensures
        ({
            let after_set = command_effect(g, Command::SetLength(amount)).0;
            let after_move = shifted(after_set);
            command_effect(after_move, Command::PrintLen).1 == decimal_of(amount as nat)
        }),
{
    lemma_set_length_then_shift(g.snake, amount as nat);
}

/// Shrinking by `b` removes exactly `b` segments, flooring at an empty body:
/// the length never goes negative.
pub proof fn lemma_decrease_floors(s: SnakeModel, b: nat)
    ensures
        decrease_model(s, b).tails.len() == (if b <= s.tails.len() {
            (s.tails.len() - b) as nat
        } else {
            0
        }),
{
}

/// Growing by `a` and then — after the movement that materializes any
/// deferred growth — shrinking by `b ≤ a` leaves the prior length plus
/// `a − b`.
pub proof fn lemma_increase_then_decrease(s: SnakeModel, a: nat, b: nat)
    requires
        s.needs_add == 0,
        b <= a,
    ensures
        decrease_model(shift_model(increase_model(s, a)), b).tails.len() == s.tails.len() + a - b,
{
    let grown = shift_model(increase_model(s, a));
    assert(grown.tails.len() == s.tails.len() + a);
    lemma_decrease_floors(grown, b);
}

/// Writing a variable and reading it back restores the body length recorded
/// at write time — after the movement that materializes deferred growth —
/// however the agent's state changed in between.
pub proof fn lemma_write_then_read_variable(g: GridModel, name: char, later: SnakeModel)
    requires
        later.needs_add == 0,
    ensures
        ({
            let recorded = g.snake.tails.len();
            let after_write = command_effect(g, Command::WriteVariable(name)).0;
            let meanwhile = GridModel { snake: later, ..after_write };
            let after_read = command_effect(meanwhile, Command::ReadVariable(name)).0;
            shift_model(after_read.snake).tails.len() == recorded
        }),
{
    lemma_set_length_then_shift(later, g.snake.tails.len());
}

/// Reading a never-written variable sets the body length to zero: the body
/// empties at once and stays empty through the following movement.
pub proof fn lemma_read_unwritten_variable(g: GridModel, name: char)
    requires
        !g.variables.contains_key(name),
        g.snake.needs_add == 0,
    ensures
        command_effect(g, Command::ReadVariable(name)).0.snake.tails.len() == 0,
        shift_model(command_effect(g, Command::ReadVariable(name)).0.snake).tails.len() == 0,
{
    lemma_set_length_then_shift(g.snake, 0);
}

/// A conditional whose variable is absent or zero decodes to no instruction;
/// one whose variable is at least one decodes exactly as the cell two to its
/// right would on its own.
pub proof fn lemma_conditional(
    rows: Seq<Seq<char>>,
    vars: Map<char, nat>,
    x: int,
    y: int,
    name: char,
)
    requires
        cell_at(rows, x, y) == Some('?'),
        char_result(rows, x + 1, y, false) == Ok::<char, LangError>(name),
    ensures
        !(vars.contains_key(name) && vars[name] >= 1) ==> decode_at(rows, vars, x, y) == Ok::<
            Command,
            LangError,
        >(Command::Nop),
        vars.contains_key(name) && vars[name] >= 1 ==> decode_at(rows, vars, x, y) == decode_at(
            rows,
            vars,
            x + 2,
            y,
        ),
{
}

/// An agent facing up on the top row dies on its next movement: `alive`
/// drops, and the position stays where it was. The same holds facing left on
/// the first column.
pub proof fn lemma_boundary_death(s: SnakeModel)
    requires
        (s.direction is Up && s.position.1 == 0) || (s.direction is Left && s.position.0 == 0),
    ensures
        !shift_model(s).alive,
        shift_model(s).position == s.position,
{
}

/// A body segment on the agent's head position ends the run.
pub proof fn lemma_self_collision_ends_run(g: GridModel, i: int)
    requires
        0 <= i < g.snake.tails.len(),
        g.snake.tails[i] == g.snake.position,
    ensures
        dead_model(g),
{
}

} // verus!
