//! Laws of the interpreter core that relate several operations, stated and
//! proved over the specification models the operations' own contracts use.

use vstd::prelude::*;
use crate::settings::Settings;
use crate::vm::{
    Direction, StepStatus, VmModel, pop1, spec_do_op, spec_step, spec_step_inner, vm_advance,
};

verus! {

/// Stack law: pushing a value and popping returns that value and restores
/// the stack.
pub proof fn lemma_stack_push_pop(s: Seq<i64>, x: i64)
    ensures
        pop1(s.push(x)).0 == x,
        pop1(s.push(x)).1 == s,
{
    assert(s.push(x).drop_last() =~= s);
}

/// Stack law: popping an empty stack yields zero and leaves it empty; it
/// never fails.
pub proof fn lemma_stack_pop_empty()
    ensures
        pop1(Seq::<i64>::empty()).0 == 0,
        pop1(Seq::<i64>::empty()).1 == Seq::<i64>::empty(),
{
}

/// Branch semantics: each branch opcode consumes one value (zero when the
/// stack was empty); the horizontal branch routes east on zero and west on
/// anything else, the vertical branch south on zero and north on anything
/// else.  Both complete normally, and nothing else changes beyond the
/// ordinary advance of the instruction pointer: one move in the new
/// direction, with position telemetry.
pub proof fn lemma_branch_semantics(m: VmModel, s: Settings, now: u64)
    ensures
        spec_do_op(m, 95, s, now).0.direction == (if pop1(m.stack).0 == 0 {
            Direction::East
        } else {
            Direction::West
        }),
        spec_do_op(m, 124, s, now).0.direction == (if pop1(m.stack).0 == 0 {
            Direction::South
        } else {
            Direction::North
        }),
        spec_do_op(m, 95, s, now).0.stack == pop1(m.stack).1,
        spec_do_op(m, 124, s, now).0.stack == pop1(m.stack).1,
        spec_do_op(m, 95, s, now).1 is Normal,
        spec_do_op(m, 124, s, now).1 is Normal,
        spec_do_op(m, 95, s, now).0 == vm_advance(
            VmModel {
                stack: pop1(m.stack).1,
                direction: if pop1(m.stack).0 == 0 {
                    Direction::East
                } else {
                    Direction::West
                },
                ..m
            },
            s,
            now,
        ),
        spec_do_op(m, 124, s, now).0 == vm_advance(
            VmModel {
                stack: pop1(m.stack).1,
                direction: if pop1(m.stack).0 == 0 {
                    Direction::South
                } else {
                    Direction::North
                },
                ..m
            },
            s,
            now,
        ),
{
}

/// Breakpoint law: whenever a dispatch completes normally and the position
/// it advanced to carries a breakpoint, the step reports a breakpoint, never
/// normal completion; and with space skipping off, the pointer rests exactly
/// on that coordinate.  The breakpoint test precedes space skipping, so with
/// skipping on a breakpoint sitting on a space cell is still reported while
/// the pointer moves past it.
pub proof fn lemma_breakpoint_at_new_position(m: VmModel, s: Settings, now: u64)
    requires
        spec_step_inner(m, s, now).1 is Normal,
        spec_step_inner(m, s, now).0.breakpoints.contains(spec_step_inner(m, s, now).0.position),
    ensures
        spec_step(m, s, now).1 is Breakpoint,
        !s.skip_spaces ==> spec_step(m, s, now).0.position == spec_step_inner(m, s, now).0.position,
{
}

} // verus!
