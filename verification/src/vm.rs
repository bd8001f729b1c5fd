//! The interpreter virtual machine: instruction pointer, direction vector,
//! operand stack, string mode, I/O accumulators, breakpoints, and the
//! optional graphics sub-machine.
//!
//! The whole behaviour of one step is given by the specification-level
//! transition function [`spec_step`] over the machine model [`VmModel`]; the
//! executable `step` is proved to implement it exactly.

use vstd::prelude::*;
use crate::space::{FungeSpace, SPACE, grid_cell, grid_cell_wrapped, grid_set};
use crate::errors::BefungeError;
use crate::settings::{InvalidOpBehaviour, Settings};
use crate::graphics::{
    Event, Graphics, GraphicsModel, Rgb, gfx_new, gfx_paint, gfx_paint_all, line_cells,
};
use crate::history::{CoordTimes, debounce};
use crate::text::{char_val, char_vals, is_scalar};
use crate::decimal::{dec_vals, push_decimal};
use vstd::wrapping::i64_specs;

verus! {

/// The direction of the instruction pointer: always one of the four unit
/// vectors, never diagonal.
#[derive(Clone, Copy, Debug, PartialEq, Eq, Structural)]
pub enum Direction {
    North,
    South,
    East,
    West,
}

/// What one step of the machine reports.
#[derive(Clone, Copy, Debug, PartialEq, Eq, Structural)]
pub enum StepStatus {
    /// The step completed and execution can continue.
    Normal,
    /// Automatic running must stop: a breakpoint was reached, or the program
    /// halted on the halt opcode.
    Breakpoint,
    /// A failure per the error taxonomy.
    Error(BefungeError),
}

/// The mathematical content of the whole machine.  Output and input are
/// sequences of code points.
#[verifier::ext_equal]
pub ghost struct VmModel {
    pub grid: Map<(i64, i64), i64>,
    pub position: (i64, i64),
    pub direction: Direction,
    pub string_mode: bool,
    pub stack: Seq<i64>,
    pub output: Seq<i64>,
    pub input: Seq<i64>,
    pub breakpoints: Set<(i64, i64)>,
    pub graphics: Option<GraphicsModel>,
    pub pos_history: Map<(i64, i64), u64>,
    pub get_history: Map<(i64, i64), u64>,
    pub put_history: Map<(i64, i64), u64>,
}

/// A fresh machine over the given grid: origin position, eastward, empty
/// stack and accumulators, no graphics, no breakpoints.
pub open spec fn vm_new(grid: Map<(i64, i64), i64>) -> VmModel {
    VmModel {
        grid,
        position: (0, 0),
        direction: Direction::East,
        string_mode: false,
        stack: Seq::empty(),
        output: Seq::empty(),
        input: Seq::empty(),
        breakpoints: Set::empty(),
        graphics: None,
        pos_history: Map::empty(),
        get_history: Map::empty(),
        put_history: Map::empty(),
    }
}

/// The opposite unit vector.
pub open spec fn dir_reverse(d: Direction) -> Direction {
    match d {
        Direction::North => Direction::South,
        Direction::South => Direction::North,
        Direction::East => Direction::West,
        Direction::West => Direction::East,
    }
}

/// A coordinate component clamped back into the non-negative range: a
/// component that went negative wraps by adding the maximum representable
/// coordinate plus one.
pub open spec fn wrap_neg(x: i64) -> i64 {
    if x < 0 {
        (x + i64::MAX + 1) as i64
    } else {
        x
    }
}

/// One move of the instruction pointer in direction `d`, with coordinate
/// wraparound.
pub open spec fn move_step(p: (i64, i64), d: Direction) -> (i64, i64) {
    let q = match d {
        Direction::North => (p.0, i64_specs::wrapping_sub(p.1, 1)),
        Direction::South => (p.0, i64_specs::wrapping_add(p.1, 1)),
        Direction::East => (i64_specs::wrapping_add(p.0, 1), p.1),
        Direction::West => (i64_specs::wrapping_sub(p.0, 1), p.1),
    };
    (wrap_neg(q.0), wrap_neg(q.1))
}

/// Popping the operand stack: an empty stack yields zero.
pub open spec fn pop1(s: Seq<i64>) -> (i64, Seq<i64>) {
    if s.len() == 0 {
        (0, s)
    } else {
        (s.last(), s.drop_last())
    }
}

/// Two pops: the first popped value is the right-hand operand.
pub open spec fn pop2(s: Seq<i64>) -> (i64, i64, Seq<i64>) {
    let (a, s1) = pop1(s);
    let (b, s2) = pop1(s1);
    (a, b, s2)
}

/// The machine after the pointer moved one cell in its direction.
pub open spec fn vm_moved(m: VmModel) -> VmModel {
    VmModel { position: move_step(m.position, m.direction), ..m }
}

/// The machine after the position history recorded the current position,
/// when that telemetry channel is enabled.
pub open spec fn record_pos(m: VmModel, s: Settings, now: u64) -> VmModel {
    if s.pos_history.0 {
        VmModel { pos_history: debounce(m.pos_history, m.position, now), ..m }
    } else {
        m
    }
}

/// The ordinary advance at the end of a step: one move, then position
/// telemetry.
pub open spec fn vm_advance(m: VmModel, s: Settings, now: u64) -> VmModel {
    record_pos(vm_moved(m), s, now)
}

/// The quotient the division opcode pushes: division by zero yields zero,
/// and the one overflowing quotient wraps.
pub open spec fn div_vals(b: i64, a: i64) -> i64 {
    match b.checked_div(a) {
        Some(q) => q,
        None => if a == 0 {
            0
        } else {
            i64::MIN
        },
    }
}

/// The remainder the modulo opcode pushes: a zero divisor and the one
/// overflowing case yield zero.
pub open spec fn rem_vals(b: i64, a: i64) -> i64 {
    match b.checked_rem(a) {
        Some(r) => r,
        None => 0,
    }
}

/// The low 32 bits of a cell value, as a code point candidate.
pub open spec fn low32_val(v: i64) -> int {
    (v as int) % 0x1_0000_0000
}

/// The low 8 bits of a cell value, as a color component.
pub open spec fn low8_val(v: i64) -> u8 {
    (v % 256) as u8
}

/// The code point the character-output opcode appends: the low 32 bits when
/// they form a Unicode scalar value, the replacement character otherwise.
pub open spec fn out_char_val(v: i64) -> i64 {
    if is_scalar(low32_val(v) as i64) {
        low32_val(v) as i64
    } else {
        0xFFFD
    }
}

/// A popped buffer dimension: clamped into the accepted size range.
pub open spec fn clamp_dim(v: i64) -> usize {
    if v < 0 {
        0
    } else if v > 65535 {
        65535
    } else {
        v as usize
    }
}

/// Whether a cell value fits the rasterizer's coordinate type.
pub open spec fn fits_i32(v: i64) -> bool {
    i32::MIN <= v <= i32::MAX
}

/// Whether a cell value is a recognized opcode.
pub open spec fn recognized_op(v: i64) -> bool {
    ||| 48 <= v <= 57
    ||| v == 32 || v == 33 || v == 34 || v == 35 || v == 36 || v == 37 || v == 38
    ||| v == 42 || v == 43 || v == 44 || v == 45 || v == 46 || v == 47
    ||| v == 58 || v == 60 || v == 62 || v == 64
    ||| v == 92 || v == 94 || v == 95 || v == 96
    ||| v == 99 || v == 102 || v == 103 || v == 108 || v == 112 || v == 115 || v == 117 || v == 118
        || v == 120 || v == 122 || v == 124 || v == 126
}

/// The effect of one recognized opcode `v` on the machine, including the
/// trailing advance of the instruction pointer where the opcode does not
/// halt.
pub open spec fn spec_do_op(m: VmModel, v: i64, s: Settings, now: u64) -> (VmModel, StepStatus) {
    if v == 34 {
        // '"': string mode on
        (vm_advance(VmModel { string_mode: true, ..m }, s, now), StepStatus::Normal)
    } else if 48 <= v <= 57 {
        // digits push their value
        (
            vm_advance(VmModel { stack: m.stack.push((v - 48) as i64), ..m }, s, now),
            StepStatus::Normal,
        )
    } else if v == 43 {
        // '+'
        let (a, b, s2) = pop2(m.stack);
        (
            vm_advance(VmModel { stack: s2.push(i64_specs::wrapping_add(b, a)), ..m }, s, now),
            StepStatus::Normal,
        )
    } else if v == 45 {
        // '-'
        let (a, b, s2) = pop2(m.stack);
        (
            vm_advance(VmModel { stack: s2.push(i64_specs::wrapping_sub(b, a)), ..m }, s, now),
            StepStatus::Normal,
        )
    } else if v == 42 {
        // '*'
        let (a, b, s2) = pop2(m.stack);
        (
            vm_advance(VmModel { stack: s2.push(i64_specs::wrapping_mul(b, a)), ..m }, s, now),
            StepStatus::Normal,
        )
    } else if v == 47 {
        // '/'
        let (a, b, s2) = pop2(m.stack);
        (vm_advance(VmModel { stack: s2.push(div_vals(b, a)), ..m }, s, now), StepStatus::Normal)
    } else if v == 37 {
        // '%'
        let (a, b, s2) = pop2(m.stack);
        (vm_advance(VmModel { stack: s2.push(rem_vals(b, a)), ..m }, s, now), StepStatus::Normal)
    } else if v == 96 {
        // '`': greater-than
        let (a, b, s2) = pop2(m.stack);
        (
            vm_advance(
                VmModel { stack: s2.push(if b > a { 1 } else { 0 }), ..m },
                s,
                now,
            ),
            StepStatus::Normal,
        )
    } else if v == 92 {
        // '\\': swap the top two
        let (a, b, s2) = pop2(m.stack);
        (vm_advance(VmModel { stack: s2.push(a).push(b), ..m }, s, now), StepStatus::Normal)
    } else if v == 33 {
        // '!': logical not
        let (a, s1) = pop1(m.stack);
        (
            vm_advance(
                VmModel { stack: s1.push(if a == 0 { 1 } else { 0 }), ..m },
                s,
                now,
            ),
            StepStatus::Normal,
        )
    } else if v == 58 {
        // ':': duplicate the top
        let (a, s1) = pop1(m.stack);
        (vm_advance(VmModel { stack: s1.push(a).push(a), ..m }, s, now), StepStatus::Normal)
    } else if v == 36 {
        // '$': discard the top
        let (a, s1) = pop1(m.stack);
        (vm_advance(VmModel { stack: s1, ..m }, s, now), StepStatus::Normal)
    } else if v == 62 {
        // '>'
        (vm_advance(VmModel { direction: Direction::East, ..m }, s, now), StepStatus::Normal)
    } else if v == 60 {
        // '<'
        (vm_advance(VmModel { direction: Direction::West, ..m }, s, now), StepStatus::Normal)
    } else if v == 94 {
        // '^'
        (vm_advance(VmModel { direction: Direction::North, ..m }, s, now), StepStatus::Normal)
    } else if v == 118 {
        // 'v'
        (vm_advance(VmModel { direction: Direction::South, ..m }, s, now), StepStatus::Normal)
    } else if v == 35 {
        // '#': skip the very next cell
        (vm_advance(vm_moved(m), s, now), StepStatus::Normal)
    } else if v == 95 {
        // '_': horizontal branch; zero routes east, nonzero west
        let (a, s1) = pop1(m.stack);
        let d = if a == 0 {
            Direction::East
        } else {
            Direction::West
        };
        (vm_advance(VmModel { stack: s1, direction: d, ..m }, s, now), StepStatus::Normal)
    } else if v == 124 {
        // '|': vertical branch; zero routes south, nonzero north
        let (a, s1) = pop1(m.stack);
        let d = if a == 0 {
            Direction::South
        } else {
            Direction::North
        };
        (vm_advance(VmModel { stack: s1, direction: d, ..m }, s, now), StepStatus::Normal)
    } else if v == 112 {
        // 'p': pop y, x, value and write value at (x, y)
        let (py, s1) = pop1(m.stack);
        let (px, s2) = pop1(s1);
        let (value, s3) = pop1(s2);
        let hist = if s.put_history.0 {
            debounce(m.put_history, (px, py), now)
        } else {
            m.put_history
        };
        (
            vm_advance(
                VmModel {
                    stack: s3,
                    put_history: hist,
                    grid: grid_set(m.grid, (px, py), value),
                    ..m
                },
                s,
                now,
            ),
            StepStatus::Normal,
        )
    } else if v == 103 {
        // 'g': pop y, x and push the wrapped cell value there
        let (py, s1) = pop1(m.stack);
        let (px, s2) = pop1(s1);
        let hist = if s.get_history.0 {
            debounce(m.get_history, (px, py), now)
        } else {
            m.get_history
        };
        (
            vm_advance(
                VmModel {
                    stack: s2.push(grid_cell_wrapped(m.grid, (px, py))),
                    get_history: hist,
                    ..m
                },
                s,
                now,
            ),
            StepStatus::Normal,
        )
    } else if v == 38 {
        // '&': numeric input, unimplemented; fails loudly without advancing
        (m, StepStatus::Error(BefungeError::Unimplemented))
    } else if v == 126 {
        // '~': pop one character from the input buffer
        if m.input.len() == 0 {
            (m, StepStatus::Error(BefungeError::InputExhausted))
        } else {
            (
                vm_advance(
                    VmModel { stack: m.stack.push(m.input[0]), input: m.input.drop_first(), ..m },
                    s,
                    now,
                ),
                StepStatus::Normal,
            )
        }
    } else if v == 64 {
        // '@': halt; surfaced like a breakpoint, without advancing
        (m, StepStatus::Breakpoint)
    } else if v == 46 {
        // '.': append the decimal form of the popped value to the output
        let (a, s1) = pop1(m.stack);
        (
            vm_advance(VmModel { stack: s1, output: m.output + dec_vals(a as int), ..m }, s, now),
            StepStatus::Normal,
        )
    } else if v == 44 {
        // ',': append the character decoded from the low 32 bits
        let (a, s1) = pop1(m.stack);
        (
            vm_advance(
                VmModel { stack: s1, output: m.output.push(out_char_val(a)), ..m },
                s,
                now,
            ),
            StepStatus::Normal,
        )
    } else if v == 115 {
        // 's': pop height, then width; allocate a black pixel buffer
        let (py, s1) = pop1(m.stack);
        let (px, s2) = pop1(s1);
        (
            vm_advance(
                VmModel {
                    stack: s2,
                    graphics: Some(gfx_new(clamp_dim(px), clamp_dim(py))),
                    ..m
                },
                s,
                now,
            ),
            StepStatus::Normal,
        )
    } else if v == 102 {
        // 'f': pop blue, green, red and set the current color
        match m.graphics {
            Some(g) => {
                let (cb, s1) = pop1(m.stack);
                let (cg, s2) = pop1(s1);
                let (cr, s3) = pop1(s2);
                let color = Rgb { r: low8_val(cr), g: low8_val(cg), b: low8_val(cb) };
                (
                    vm_advance(
                        VmModel {
                            stack: s3,
                            graphics: Some(GraphicsModel { color, ..g }),
                            ..m
                        },
                        s,
                        now,
                    ),
                    StepStatus::Normal,
                )
            },
            None => (vm_advance(m, s, now), StepStatus::Normal),
        }
    } else if v == 120 {
        // 'x': pop y, then x, and paint the current color there
        match m.graphics {
            Some(g) => {
                let (py, s1) = pop1(m.stack);
                let (px, s2) = pop1(s1);
                (
                    vm_advance(
                        VmModel {
                            stack: s2,
                            graphics: Some(gfx_paint(g, px as int, py as int)),
                            ..m
                        },
                        s,
                        now,
                    ),
                    StepStatus::Normal,
                )
            },
            None => (vm_advance(m, s, now), StepStatus::Normal),
        }
    } else if v == 99 {
        // 'c': fill the whole buffer with the current color
        match m.graphics {
            Some(g) => (
                vm_advance(
                    VmModel {
                        graphics: Some(
                            GraphicsModel {
                                pixels: Seq::new(g.pixels.len(), |i: int| g.color),
                                ..g
                            },
                        ),
                        ..m
                    },
                    s,
                    now,
                ),
                StepStatus::Normal,
            ),
            None => (vm_advance(m, s, now), StepStatus::Normal),
        }
    } else if v == 117 {
        // 'u': present frame, reserved; a no-op
        (vm_advance(m, s, now), StepStatus::Normal)
    } else if v == 108 {
        // 'l': pop y1, x1, y2, x2 and rasterize the line between them; when
        // an endpoint does not fit the rasterizer's i32 coordinate range,
        // nothing is drawn (a flagged choice, like out-of-range pixels)
        match m.graphics {
            Some(g) => {
                let (y1, s1) = pop1(m.stack);
                let (x1, s2) = pop1(s1);
                let (y2, s3) = pop1(s2);
                let (x2, s4) = pop1(s3);
                let g2 = if fits_i32(x1) && fits_i32(y1) && fits_i32(x2) && fits_i32(y2) {
                    gfx_paint_all(
                        g,
                        line_cells(x1 as i32, y1 as i32, x2 as i32, y2 as i32),
                    )
                } else {
                    g
                };
                (
                    vm_advance(VmModel { stack: s4, graphics: Some(g2), ..m }, s, now),
                    StepStatus::Normal,
                )
            },
            None => (vm_advance(m, s, now), StepStatus::Normal),
        }
    } else if v == 122 {
        // 'z': dequeue one pending event, or push zero
        match m.graphics {
            Some(g) => {
                if g.events.len() == 0 {
                    (
                        vm_advance(VmModel { stack: m.stack.push(0), ..m }, s, now),
                        StepStatus::Normal,
                    )
                } else {
                    let g2 = GraphicsModel { events: g.events.drop_first(), ..g };
                    match g.events[0] {
                        Event::Close => (
                            vm_advance(
                                VmModel { stack: m.stack.push(1), graphics: Some(g2), ..m },
                                s,
                                now,
                            ),
                            StepStatus::Normal,
                        ),
                        Event::MouseClick(cx, cy) => (
                            vm_advance(
                                VmModel {
                                    stack: m.stack.push(cy).push(cx).push(4),
                                    graphics: Some(g2),
                                    ..m
                                },
                                s,
                                now,
                            ),
                            StepStatus::Normal,
                        ),
                    }
                }
            },
            None => (vm_advance(m, s, now), StepStatus::Normal),
        }
    } else {
        // ' ': no-op
        (vm_advance(m, s, now), StepStatus::Normal)
    }
}

/// The effect of the configured policy on an unrecognized opcode.
pub open spec fn spec_invalid_op(m: VmModel, s: Settings, now: u64) -> (VmModel, StepStatus) {
    match s.invalid_operation_behaviour {
        InvalidOpBehaviour::Halt => (m, StepStatus::Error(BefungeError::InvalidOperation)),
        InvalidOpBehaviour::Reflect => (
            vm_advance(VmModel { direction: dir_reverse(m.direction), ..m }, s, now),
            StepStatus::Normal,
        ),
        InvalidOpBehaviour::Ignore => (vm_advance(m, s, now), StepStatus::Normal),
    }
}

/// One dispatch of the machine: read the cell under the pointer; in string
/// mode push it or end string mode; otherwise execute it as an opcode, with
/// the configured policy for unrecognized ones.
pub open spec fn spec_step_inner(m: VmModel, s: Settings, now: u64) -> (VmModel, StepStatus) {
    if m.string_mode {
        let v = grid_cell(m.grid, m.position);
        if v == 34 {
            (vm_advance(VmModel { string_mode: false, ..m }, s, now), StepStatus::Normal)
        } else {
            (vm_advance(VmModel { stack: m.stack.push(v), ..m }, s, now), StepStatus::Normal)
        }
    } else {
        if m.grid.contains_key(m.position) {
            let v = m.grid[m.position];
            if recognized_op(v) {
                spec_do_op(m, v, s, now)
            } else {
                spec_invalid_op(m, s, now)
            }
        } else {
            (vm_advance(m, s, now), StepStatus::Normal)
        }
    }
}

/// The space-skipping policy: the pointer advances while the cell under it
/// is space, at most `fuel` times (a runaway guard).
pub open spec fn spec_skip_spaces(m: VmModel, s: Settings, now: u64, fuel: nat) -> VmModel
    decreases fuel,
{
    if fuel == 0 || grid_cell_wrapped(m.grid, m.position) != SPACE {
        m
    } else {
        spec_skip_spaces(vm_advance(m, s, now), s, now, (fuel - 1) as nat)
    }
}

/// The bound of the space-skipping runaway guard.
pub const SKIP_SPACES_FUEL: u64 = 999;

/// One full step of the machine: dispatch, then the breakpoint test at the
/// new position, then the space-skipping policy when it is enabled and
/// string mode is off.  The breakpoint test precedes the skipping, so a
/// breakpoint on a space cell is reported even though the pointer then
/// moves past it.
pub open spec fn spec_step(m: VmModel, s: Settings, now: u64) -> (VmModel, StepStatus) {
    let (m1, st1) = spec_step_inner(m, s, now);
    let st2 = if st1 is Normal && m1.breakpoints.contains(m1.position) {
        StepStatus::Breakpoint
    } else {
        st1
    };
    let m2 = if s.skip_spaces && !m1.string_mode {
        spec_skip_spaces(m1, s, now, SKIP_SPACES_FUEL as nat)
    } else {
        m1
    };
    (m2, st2)
}

/// The interpreter machine.
pub struct State {
    pub map: FungeSpace,
    pub position: (i64, i64),
    pub direction: Direction,
    pub pos_history: CoordTimes,
    pub get_history: CoordTimes,
    pub put_history: CoordTimes,
    pub stack: Vec<i64>,
    pub string_mode: bool,
    pub output: String,
    pub graphics: Option<Graphics>,
    pub(crate) breakpoints: Vec<(i64, i64)>,
    pub input_buffer: String,
}

/// True exactly for recognized opcode values.
fn is_recognized(v: i64) -> (r: bool)
    ensures
        r == recognized_op(v),
{
    (48 <= v && v <= 57) || v == 32 || v == 33 || v == 34 || v == 35 || v == 36 || v == 37 || v
        == 38 || v == 42 || v == 43 || v == 44 || v == 45 || v == 46 || v == 47 || v == 58 || v
        == 60 || v == 62 || v == 64 || v == 92 || v == 94 || v == 95 || v == 96 || v == 99 || v
        == 102 || v == 103 || v == 108 || v == 112 || v == 115 || v == 117 || v == 118 || v == 120
        || v == 122 || v == 124 || v == 126
}

/// The low eight bits of a cell value.
fn low8(v: i64) -> (r: u8)
    ensures
        r == low8_val(v),
{
    let t: i64 = v % 256;
    let u: i64 = if t < 0 {
        t + 256
    } else {
        t
    };
    u as u8
}

impl Default for State {
    /// A fresh machine over an empty grid.
    fn default() -> (r: Self)
        ensures
            r.inv(),
            r@ == vm_new(crate::text::empty_grid()),
    {
        Self::new()
    }
}

impl State {
    /// Structural invariant: every component is well formed and breakpoint
    /// coordinates are unique.
    pub open(crate) spec fn inv(&self) -> bool {
        &&& self.map.inv()
        &&& self.pos_history.inv()
        &&& self.get_history.inv()
        &&& self.put_history.inv()
        &&& match self.graphics {
            Some(g) => g.inv(),
            None => true,
        }
        &&& forall|i: int, j: int|
            0 <= i < j < self.breakpoints@.len() ==> #[trigger] self.breakpoints@[i]
                != #[trigger] self.breakpoints@[j]
    }

    pub open(crate) spec fn view(&self) -> VmModel {
        VmModel {
            grid: self.map@,
            position: self.position,
            direction: self.direction,
            string_mode: self.string_mode,
            stack: self.stack@,
            output: char_vals(self.output@),
            input: char_vals(self.input_buffer@),
            breakpoints: self.breakpoints@.to_set(),
            graphics: match self.graphics {
                Some(g) => Some(g@),
                None => None,
            },
            pos_history: self.pos_history@,
            get_history: self.get_history@,
            put_history: self.put_history@,
        }
    }

    /// A fresh machine over an empty grid.
    pub fn new() -> (r: Self)
        ensures
            r.inv(),
            r@ == vm_new(crate::text::empty_grid()),
    {
        let map = FungeSpace::new();
        proof {
            assert forall|p: (i64, i64)| map@.contains_key(p) implies map@[p] == SPACE by {
                assert(grid_cell(map@, p) == SPACE);
            }
            assert(map@ =~= crate::text::empty_grid());
        }
        Self::new_from_fungespace(map)
    }

    /// A fresh machine over the given grid.
    pub fn new_from_fungespace(fungespace: FungeSpace) -> (r: Self)
        requires
            fungespace.inv(),
        ensures
            r.inv(),
            r@ == vm_new(fungespace@),
    {
        let r = State {
            map: fungespace,
            position: (0, 0),
            direction: Direction::East,
            pos_history: CoordTimes::new(),
            get_history: CoordTimes::new(),
            put_history: CoordTimes::new(),
            stack: Vec::new(),
            string_mode: false,
            output: String::new(),
            graphics: None,
            breakpoints: Vec::new(),
            input_buffer: String::new(),
        };
        proof {
            assert(char_vals(r.output@) =~= Seq::<i64>::empty());
            assert(char_vals(r.input_buffer@) =~= Seq::<i64>::empty());
            assert(r.breakpoints@.to_set() =~= Set::<(i64, i64)>::empty());
            assert(r@ =~= vm_new(r.map@));
        }
        r
    }

    /// Pushes a value onto the operand stack.
    pub fn push(&mut self, v: i64)
        requires
            old(self).inv(),
        ensures
            final(self).inv(),
            final(self)@ == (VmModel { stack: old(self)@.stack.push(v), ..old(self)@ }),
    {
        self.stack.push(v);
        proof {
            assert(final(self)@ =~= (VmModel { stack: old(self)@.stack.push(v), ..old(self)@ }));
        }
    }

    /// Pops the top of the operand stack; an empty stack yields zero.
    pub fn pop(&mut self) -> (r: i64)
        requires
            old(self).inv(),
        ensures
            final(self).inv(),
            r == pop1(old(self)@.stack).0,
            final(self)@ == (VmModel { stack: pop1(old(self)@.stack).1, ..old(self)@ }),
    {
        let r = match self.stack.pop() {
            Some(v) => v,
            None => 0,
        };
        proof {
            assert(final(self)@ =~= (VmModel { stack: pop1(old(self)@.stack).1, ..old(self)@ }));
        }
        r
    }

    /// Whether automatic running must pause at `p`.
    pub fn has_breakpoint(&self, p: (i64, i64)) -> (r: bool)
        requires
            self.inv(),
        ensures
            r == self@.breakpoints.contains(p),
    {
        let n = self.breakpoints.len();
        let mut i: usize = 0;
        while i < n
            invariant
                n == self.breakpoints@.len(),
                i <= n,
                forall|j: int| 0 <= j < i ==> #[trigger] self.breakpoints@[j] != p,
            decreases n - i,
        {
            let q = self.breakpoints[i];
            if q.0 == p.0 && q.1 == p.1 {
                proof {
                    assert(self.breakpoints@.contains(p));
                }
                return true;
            }
            i = i + 1;
        }
        proof {
            assert(!self.breakpoints@.contains(p));
        }
        false
    }

    /// Adds a breakpoint at `p` when none is set there, removes it
    /// otherwise.
    pub fn toggle_breakpoint(&mut self, p: (i64, i64))
        requires
            old(self).inv(),
        ensures
            final(self).inv(),
            final(self)@ == (VmModel {
                breakpoints: if old(self)@.breakpoints.contains(p) {
                    old(self)@.breakpoints.remove(p)
                } else {
                    old(self)@.breakpoints.insert(p)
                },
                ..old(self)@
            }),
    {
        let n = self.breakpoints.len();
        let mut i: usize = 0;
        while i < n
            invariant
                old(self).inv(),
                self == old(self),
                n == self.breakpoints@.len(),
                i <= n,
                forall|j: int| 0 <= j < i ==> #[trigger] self.breakpoints@[j] != p,
            decreases n - i,
        {
            let q = self.breakpoints[i];
            if q.0 == p.0 && q.1 == p.1 {
                self.breakpoints.swap_remove(i);
                proof {
                    let s0 = old(self).breakpoints@;
                    let s1 = self.breakpoints@;
                    assert(s0.contains(p));
                    assert forall|q2: (i64, i64)|
                        s1.to_set().contains(q2) implies #[trigger] s0.to_set().remove(p).contains(
                        q2,
                    ) by {
                        let j = choose|j: int| 0 <= j < s1.len() && s1[j] == q2;
                        if j == i {
                            assert(s1[j] == s0[s0.len() - 1]);
                            assert(s0.contains(q2));
                            assert(q2 != p);
                        } else {
                            assert(s0[j] == q2);
                            assert(s0.contains(q2));
                            assert(q2 != p);
                        }
                    }
                    assert forall|q2: (i64, i64)|
                        s0.to_set().remove(p).contains(q2) implies #[trigger] s1.to_set().contains(
                        q2,
                    ) by {
                        let j = choose|j: int| 0 <= j < s0.len() && s0[j] == q2;
                        assert(j != i);
                        if j == s0.len() - 1 {
                            if i < s0.len() - 1 {
                                assert(s1[i as int] == q2);
                                assert(s1.contains(q2));
                            }
                        } else {
                            assert(s1[j] == q2);
                            assert(s1.contains(q2));
                        }
                    }
                    assert(s1.to_set() =~= s0.to_set().remove(p));
                    assert(final(self)@ =~= (VmModel {
                        breakpoints: old(self)@.breakpoints.remove(p),
                        ..old(self)@
                    }));
                }
                return ;
            }
            i = i + 1;
        }
        self.breakpoints.push(p);
        proof {
            let s0 = old(self).breakpoints@;
            let s1 = self.breakpoints@;
            assert(!s0.contains(p));
            assert forall|q2: (i64, i64)|
                s1.to_set().contains(q2) implies #[trigger] s0.to_set().insert(p).contains(q2) by {
                let j = choose|j: int| 0 <= j < s1.len() && s1[j] == q2;
                if j < s0.len() {
                    assert(s0[j] == q2);
                    assert(s0.contains(q2));
                } else {
                    assert(q2 == p);
                }
            }
            assert forall|q2: (i64, i64)|
                s0.to_set().insert(p).contains(q2) implies #[trigger] s1.to_set().contains(q2) by {
                if q2 == p {
                    assert(s1[s1.len() - 1] == q2);
                    assert(s1.contains(q2));
                } else {
                    let j = choose|j: int| 0 <= j < s0.len() && s0[j] == q2;
                    assert(s1[j] == q2);
                    assert(s1.contains(q2));
                }
            }
            assert(s1.to_set() =~= s0.to_set().insert(p));
            assert(final(self)@ =~= (VmModel {
                breakpoints: old(self)@.breakpoints.insert(p),
                ..old(self)@
            }));
        }
    }

    /// One move of the instruction pointer, with coordinate wraparound and
    /// no telemetry.
    fn step_position_inner(&mut self)
        requires
            old(self).inv(),
        ensures
            final(self).inv(),
            final(self)@ == vm_moved(old(self)@),
    {
        let (x, y) = self.position;
        let (mut nx, mut ny): (i64, i64) = match self.direction {
            Direction::North => (x, y.wrapping_sub(1)),
            Direction::South => (x, y.wrapping_add(1)),
            Direction::East => (x.wrapping_add(1), y),
            Direction::West => (x.wrapping_sub(1), y),
        };
        if nx < 0 {
            nx = nx + i64::MAX;
            nx = nx + 1;
        }
        if ny < 0 {
            ny = ny + i64::MAX;
            ny = ny + 1;
        }
        self.position = (nx, ny);
        proof {
            assert(final(self)@ =~= vm_moved(old(self)@));
        }
    }

    /// The ordinary advance: one move, then position telemetry.
    fn step_position(&mut self, settings: &Settings, now: u64)
        requires
            old(self).inv(),
        ensures
            final(self).inv(),
            final(self)@ == vm_advance(old(self)@, *settings, now),
    {
        self.step_position_inner();
        if settings.pos_history.0 {
            let p = self.position;
            self.pos_history.record(p, now);
            proof {
                assert(final(self)@ =~= vm_advance(old(self)@, *settings, now));
            }
        } else {
            proof {
                assert(final(self)@ =~= vm_advance(old(self)@, *settings, now));
            }
        }
    }

    /// Applies the effect of the recognized opcode `v`, including the
    /// trailing advance where the opcode does not halt.
    fn do_op(&mut self, v: i64, settings: &Settings, now: u64) -> (r: StepStatus)
        requires
            old(self).inv(),
            recognized_op(v),
        ensures
            final(self).inv(),
            final(self)@ == spec_do_op(old(self)@, v, *settings, now).0,
            r == spec_do_op(old(self)@, v, *settings, now).1,
    {
        let ghost m0 = self@;
        let ghost s = *settings;
        if v == 34 {
            self.string_mode = true;
            self.step_position(settings, now);
            proof {
                assert(self@ =~= spec_do_op(m0, v, s, now).0);
            }
            StepStatus::Normal
        } else if 48 <= v && v <= 57 {
            let d: i64 = v - 48;
            self.push(d);
            self.step_position(settings, now);
            proof {
                assert(self@ =~= spec_do_op(m0, v, s, now).0);
            }
            StepStatus::Normal
        } else if v == 43 || v == 45 || v == 42 || v == 47 || v == 37 || v == 96 || v == 92 || v
            == 33 || v == 58 || v == 36 {
            self.op_stack(v, settings, now)
        } else if v == 62 || v == 60 || v == 94 || v == 118 || v == 35 || v == 95 || v == 124 {
            self.op_direction(v, settings, now)
        } else if v == 112 || v == 103 {
            self.op_grid(v, settings, now)
        } else if v == 38 {
            StepStatus::Error(BefungeError::Unimplemented)
        } else if v == 64 {
            StepStatus::Breakpoint
        } else if v == 126 || v == 46 || v == 44 {
            self.op_io(v, settings, now)
        } else if v == 115 || v == 102 || v == 120 || v == 99 || v == 108 || v == 122 {
            self.op_graphics(v, settings, now)
        } else {
            // ' ' and 'u': no effect beyond the advance
            self.step_position(settings, now);
            proof {
                assert(self@ =~= spec_do_op(m0, v, s, now).0);
            }
            StepStatus::Normal
        }
    }

    /// The opcodes that only rearrange the operand stack.
    fn op_stack(&mut self, v: i64, settings: &Settings, now: u64) -> (r: StepStatus)
        requires
            old(self).inv(),
            v == 43 || v == 45 || v == 42 || v == 47 || v == 37 || v == 96 || v == 92 || v == 33
                || v == 58 || v == 36,
        ensures
            final(self).inv(),
            final(self)@ == spec_do_op(old(self)@, v, *settings, now).0,
            r == spec_do_op(old(self)@, v, *settings, now).1,
    {
        let ghost m0 = self@;
        let ghost s = *settings;
        if v == 43 {
            let a = self.pop();
            let b = self.pop();
            self.push(b.wrapping_add(a));
        } else if v == 45 {
            let a = self.pop();
            let b = self.pop();
            self.push(b.wrapping_sub(a));
        } else if v == 42 {
            let a = self.pop();
            let b = self.pop();
            self.push(b.wrapping_mul(a));
        } else if v == 47 {
            let a = self.pop();
            let b = self.pop();
            let q = match b.checked_div(a) {
                Some(q) => q,
                None => if a == 0 {
                    0
                } else {
                    i64::MIN
                },
            };
            self.push(q);
        } else if v == 37 {
            let a = self.pop();
            let b = self.pop();
            let q = match b.checked_rem(a) {
                Some(q) => q,
                None => 0,
            };
            self.push(q);
        } else if v == 96 {
            let a = self.pop();
            let b = self.pop();
            self.push(if b > a {
                1
            } else {
                0
            });
        } else if v == 92 {
            let a = self.pop();
            let b = self.pop();
            self.push(a);
            self.push(b);
        } else if v == 33 {
            let a = self.pop();
            self.push(if a == 0 {
                1
            } else {
                0
            });
        } else if v == 58 {
            let a = self.pop();
            self.push(a);
            self.push(a);
        } else {
            let _ = self.pop();
        }
        self.step_position(settings, now);
        proof {
            assert(self@ =~= spec_do_op(m0, v, s, now).0);
        }
        StepStatus::Normal
    }

    /// The opcodes that set or bend the direction vector.
    fn op_direction(&mut self, v: i64, settings: &Settings, now: u64) -> (r: StepStatus)
        requires
            old(self).inv(),
            v == 62 || v == 60 || v == 94 || v == 118 || v == 35 || v == 95 || v == 124,
        ensures
            final(self).inv(),
            final(self)@ == spec_do_op(old(self)@, v, *settings, now).0,
            r == spec_do_op(old(self)@, v, *settings, now).1,
    {
        let ghost m0 = self@;
        let ghost s = *settings;
        if v == 62 {
            self.direction = Direction::East;
        } else if v == 60 {
            self.direction = Direction::West;
        } else if v == 94 {
            self.direction = Direction::North;
        } else if v == 118 {
            self.direction = Direction::South;
        } else if v == 35 {
            self.step_position_inner();
        } else if v == 95 {
            let a = self.pop();
            self.direction = if a == 0 {
                Direction::East
            } else {
                Direction::West
            };
        } else {
            let a = self.pop();
            self.direction = if a == 0 {
                Direction::South
            } else {
                Direction::North
            };
        }
        self.step_position(settings, now);
        proof {
            assert(self@ =~= spec_do_op(m0, v, s, now).0);
        }
        StepStatus::Normal
    }

    /// The self-modification opcodes: grid write and grid read.
    fn op_grid(&mut self, v: i64, settings: &Settings, now: u64) -> (r: StepStatus)
        requires
            old(self).inv(),
            v == 112 || v == 103,
        ensures
            final(self).inv(),
            final(self)@ == spec_do_op(old(self)@, v, *settings, now).0,
            r == spec_do_op(old(self)@, v, *settings, now).1,
    {
        let ghost m0 = self@;
        let ghost s = *settings;
        if v == 112 {
            let py = self.pop();
            let px = self.pop();
            let value = self.pop();
            if settings.put_history.0 {
                self.put_history.record((px, py), now);
            }
            self.map.set((px, py), value);
        } else {
            let py = self.pop();
            let px = self.pop();
            let val = self.map.get_wrapped((px, py));
            self.push(val);
            if settings.get_history.0 {
                self.get_history.record((px, py), now);
            }
        }
        self.step_position(settings, now);
        proof {
            assert(self@ =~= spec_do_op(m0, v, s, now).0);
        }
        StepStatus::Normal
    }

    /// The input and output opcodes.
    fn op_io(&mut self, v: i64, settings: &Settings, now: u64) -> (r: StepStatus)
        requires
            old(self).inv(),
            v == 126 || v == 46 || v == 44,
        ensures
            final(self).inv(),
            final(self)@ == spec_do_op(old(self)@, v, *settings, now).0,
            r == spec_do_op(old(self)@, v, *settings, now).1,
    {
        let ghost m0 = self@;
        let ghost s = *settings;
        if v == 126 {
            let len = self.input_buffer.unicode_len();
            if len == 0 {
                proof {
                    crate::text::lemma_char_vals_len(self.input_buffer@);
                }
                StepStatus::Error(BefungeError::InputExhausted)
            } else {
                let c = self.input_buffer.as_str().get_char(0);
                let rest = self.input_buffer.as_str().substring_char(1, len).to_owned();
                self.input_buffer = rest;
                self.push((c as u32) as i64);
                self.step_position(settings, now);
                proof {
                    let old_in = m0.input;
                    crate::text::lemma_char_vals_len(old(self).input_buffer@);
                    crate::text::lemma_char_vals_index(old(self).input_buffer@, 0);
                    assert forall|j: int|
                        0 <= j < old_in.len() - 1 implies char_vals(
                        old(self).input_buffer@.subrange(1, old_in.len() as int),
                    )[j] == old_in.drop_first()[j] by {
                        crate::text::lemma_char_vals_index(
                            old(self).input_buffer@.subrange(1, old_in.len() as int),
                            j,
                        );
                        crate::text::lemma_char_vals_index(old(self).input_buffer@, j + 1);
                    }
                    crate::text::lemma_char_vals_len(
                        old(self).input_buffer@.subrange(1, old_in.len() as int),
                    );
                    assert(char_vals(old(self).input_buffer@.subrange(1, old_in.len() as int))
                        =~= old_in.drop_first());
                    assert(self@ =~= spec_do_op(m0, v, s, now).0);
                }
                StepStatus::Normal
            }
        } else if v == 46 {
            let a = self.pop();
            push_decimal(&mut self.output, a);
            self.step_position(settings, now);
            proof {
                assert(self@ =~= spec_do_op(m0, v, s, now).0);
            }
            StepStatus::Normal
        } else {
            let a = self.pop();
            let t: i64 = a % 0x1_0000_0000;
            let u: i64 = if t < 0 {
                t + 0x1_0000_0000
            } else {
                t
            };
            proof {
                assert(u == low32_val(a));
            }
            let ghost before = self.output@;
            match char::from_u32(u as u32) {
                Some(c) => {
                    self.output.push(c);
                    proof {
                        assert(char_val(c) == out_char_val(a));
                        assert(char_vals(self.output@) =~= char_vals(before).push(out_char_val(a)));
                    }
                },
                None => {
                    self.output.push('\u{FFFD}');
                    proof {
                        assert(char_val('\u{FFFD}') == 0xFFFD);
                        assert(char_val('\u{FFFD}') == out_char_val(a));
                        assert(char_vals(self.output@) =~= char_vals(before).push(out_char_val(a)));
                    }
                },
            }
            self.step_position(settings, now);
            proof {
                assert(self@ =~= spec_do_op(m0, v, s, now).0);
            }
            StepStatus::Normal
        }
    }

    /// The graphics opcodes.
    fn op_graphics(&mut self, v: i64, settings: &Settings, now: u64) -> (r: StepStatus)
        requires
            old(self).inv(),
            v == 115 || v == 102 || v == 120 || v == 99 || v == 108 || v == 122,
        ensures
            final(self).inv(),
            final(self)@ == spec_do_op(old(self)@, v, *settings, now).0,
            r == spec_do_op(old(self)@, v, *settings, now).1,
    {
        let ghost m0 = self@;
        let ghost s = *settings;
        if v == 115 {
            let py = self.pop();
            let px = self.pop();
            let w: usize = if px < 0 {
                0
            } else if px > 65535 {
                65535
            } else {
                px as usize
            };
            let h: usize = if py < 0 {
                0
            } else if py > 65535 {
                65535
            } else {
                py as usize
            };
            self.graphics = Some(Graphics::new(w, h));
        } else if v == 102 {
            if self.graphics.is_some() {
                let cb = self.pop();
                let cg = self.pop();
                let cr = self.pop();
                let color = Rgb { r: low8(cr), g: low8(cg), b: low8(cb) };
                match &mut self.graphics {
                    Some(g) => {
                        g.set_color(color);
                    },
                    None => {},
                }
            }
        } else if v == 120 {
            if self.graphics.is_some() {
                let py = self.pop();
                let px = self.pop();
                if px >= 0 && py >= 0 && px <= 65535 && py <= 65535 {
                    match &mut self.graphics {
                        Some(g) => {
                            g.pixel(px as usize, py as usize);
                        },
                        None => {},
                    }
                } else {
                    proof {
                        match self@.graphics {
                            Some(g) => {
                                assert(gfx_paint(g, px as int, py as int) =~= g);
                            },
                            None => {},
                        }
                    }
                }
            }
        } else if v == 99 {
            match &mut self.graphics {
                Some(g) => {
                    g.fill();
                },
                None => {},
            }
        } else if v == 108 {
            if self.graphics.is_some() {
                let y1 = self.pop();
                let x1 = self.pop();
                let y2 = self.pop();
                let x2 = self.pop();
                let in_range = x1 >= i32::MIN as i64 && x1 <= i32::MAX as i64 && y1
                    >= i32::MIN as i64 && y1 <= i32::MAX as i64 && x2 >= i32::MIN as i64 && x2
                    <= i32::MAX as i64 && y2 >= i32::MIN as i64 && y2 <= i32::MAX as i64;
                if in_range {
                    match &mut self.graphics {
                        Some(g) => {
                            g.draw_line(x1 as i32, y1 as i32, x2 as i32, y2 as i32);
                        },
                        None => {},
                    }
                }
            }
        } else {
            if self.graphics.is_some() {
                let ev = match &mut self.graphics {
                    Some(g) => g.pop_event(),
                    None => None,
                };
                match ev {
                    None => {
                        self.push(0);
                    },
                    Some(Event::Close) => {
                        self.push(1);
                    },
                    Some(Event::MouseClick(cx, cy)) => {
                        self.push(cy);
                        self.push(cx);
                        self.push(4);
                    },
                }
            }
        }
        self.step_position(settings, now);
        proof {
            assert(self@ =~= spec_do_op(m0, v, s, now).0);
        }
        StepStatus::Normal
    }

    /// One dispatch: read the cell under the pointer and execute it.
    fn step_inner(&mut self, settings: &Settings, now: u64) -> (r: StepStatus)
        requires
            old(self).inv(),
        ensures
            final(self).inv(),
            final(self)@ == spec_step_inner(old(self)@, *settings, now).0,
            r == spec_step_inner(old(self)@, *settings, now).1,
    {
        let ghost m0 = self@;
        let ghost s = *settings;
        let op = self.map.get(self.position);
        if self.string_mode {
            let opv = match op {
                Some(w) => w,
                None => SPACE,
            };
            if opv == 34 {
                self.string_mode = false;
            } else {
                self.stack.push(opv);
            }
            self.step_position(settings, now);
            proof {
                assert(self@ =~= spec_step_inner(m0, s, now).0);
            }
            StepStatus::Normal
        } else {
            match op {
                None => {
                    self.step_position(settings, now);
                    proof {
                        assert(self@ =~= spec_step_inner(m0, s, now).0);
                    }
                    StepStatus::Normal
                },
                Some(w) => {
                    if is_recognized(w) {
                        self.do_op(w, settings, now)
                    } else {
                        match settings.invalid_operation_behaviour {
                            InvalidOpBehaviour::Halt => StepStatus::Error(
                                BefungeError::InvalidOperation,
                            ),
                            InvalidOpBehaviour::Reflect => {
                                self.direction = match self.direction {
                                    Direction::North => Direction::South,
                                    Direction::South => Direction::North,
                                    Direction::East => Direction::West,
                                    Direction::West => Direction::East,
                                };
                                self.step_position(settings, now);
                                proof {
                                    assert(self@ =~= spec_step_inner(m0, s, now).0);
                                }
                                StepStatus::Normal
                            },
                            InvalidOpBehaviour::Ignore => {
                                self.step_position(settings, now);
                                proof {
                                    assert(self@ =~= spec_step_inner(m0, s, now).0);
                                }
                                StepStatus::Normal
                            },
                        }
                    }
                },
            }
        }
    }

    /// One full step: dispatch, the breakpoint test at the new position, and
    /// the space-skipping policy.
    pub fn step(&mut self, settings: &Settings, now_ms: u64) -> (r: StepStatus)
        requires
            old(self).inv(),
        ensures
            final(self).inv(),
            final(self)@ == spec_step(old(self)@, *settings, now_ms).0,
            r == spec_step(old(self)@, *settings, now_ms).1,
    {
        let ghost s = *settings;
        let mut status = self.step_inner(settings, now_ms);
        let ghost m1 = self@;
        let pos = self.position;
        let normal = match status {
            StepStatus::Normal => true,
            _ => false,
        };
        if normal && self.has_breakpoint(pos) {
            status = StepStatus::Breakpoint;
        }
        if settings.skip_spaces && !self.string_mode {
            let mut count: u64 = 0;
            loop
                invariant
                    self.inv(),
                    s == *settings,
                    count <= SKIP_SPACES_FUEL,
                    spec_skip_spaces(m1, s, now_ms, SKIP_SPACES_FUEL as nat) == spec_skip_spaces(
                        self@,
                        s,
                        now_ms,
                        (SKIP_SPACES_FUEL - count) as nat,
                    ),
                ensures
                    self.inv(),
                    self@ == spec_skip_spaces(m1, s, now_ms, SKIP_SPACES_FUEL as nat),
                decreases SKIP_SPACES_FUEL - count,
            {
                let cell = self.map.get_wrapped(self.position);
                if count < SKIP_SPACES_FUEL && cell == SPACE {
                    let ghost prev = self@;
                    let ghost fuel_left = (SKIP_SPACES_FUEL - count) as nat;
                    self.step_position(settings, now_ms);
                    count = count + 1;
                    proof {
                        assert(spec_skip_spaces(prev, s, now_ms, fuel_left) == spec_skip_spaces(
                            self@,
                            s,
                            now_ms,
                            (fuel_left - 1) as nat,
                        ));
                    }
                } else {
                    proof {
                        assert(spec_skip_spaces(
                            self@,
                            s,
                            now_ms,
                            (SKIP_SPACES_FUEL - count) as nat,
                        ) == self@);
                    }
                    break ;
                }
            }
        }
        status
    }
}

} // verus!
