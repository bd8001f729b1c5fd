//! The two-state editing/running session machine: it owns either a raw grid
//! being authored, or a full interpreter plus a pristine snapshot of the
//! grid taken when the run began.
//!
//! Entering the playing state clones the grid into a fresh machine and a
//! snapshot; leaving it discards every run-time mutation, restores the
//! snapshot, and seeds the edit cursor at the machine's last position.

use vstd::prelude::*;
use crate::errors::BefungeError;
use crate::scheduler::{
    CHUNK_STEPS, RunOutcome, batch_size, budget_ms, run_steps, run_steps_bounded, run_timed,
    step_interval_ms,
};
use crate::settings::Settings;
use crate::space::FungeSpace;
use crate::vm::{Direction, State, StepStatus, VmModel, vm_new};
use crate::history::sat_sub;

verus! {

/// The editing cursor: a location, the direction typing advances it in, and
/// whether a string literal is being typed.
#[derive(Clone, Copy, Debug, PartialEq, Eq)]
pub struct CursorState {
    pub location: (i64, i64),
    pub direction: Direction,
    pub string_mode: bool,
}

/// A cursor component clamped back to zero when a move took it negative.
pub open spec fn cursor_clamp(x: i64) -> i64 {
    if x < 0 {
        0
    } else {
        x
    }
}

/// One cursor move in direction `d`.
pub open spec fn cursor_moved(p: (i64, i64), d: Direction) -> (i64, i64) {
    let q = match d {
        Direction::North => (p.0, vstd::wrapping::i64_specs::wrapping_sub(p.1, 1)),
        Direction::South => (p.0, vstd::wrapping::i64_specs::wrapping_add(p.1, 1)),
        Direction::East => (vstd::wrapping::i64_specs::wrapping_add(p.0, 1), p.1),
        Direction::West => (vstd::wrapping::i64_specs::wrapping_sub(p.0, 1), p.1),
    };
    (cursor_clamp(q.0), cursor_clamp(q.1))
}

impl Default for CursorState {
    /// A cursor at the origin, advancing east, outside a string literal.
    fn default() -> (r: Self)
        ensures
            r == (CursorState {
                location: (0, 0),
                direction: Direction::East,
                string_mode: false,
            }),
    {
        CursorState { location: (0, 0), direction: Direction::East, string_mode: false }
    }
}

impl CursorState {
    /// A cursor at `location`, advancing east, outside a string literal.
    pub fn new(location: (i64, i64)) -> (r: Self)
        ensures
            r == (CursorState { location, direction: Direction::East, string_mode: false }),
    {
        CursorState { location, direction: Direction::East, string_mode: false }
    }

    /// Moves the cursor one cell in its direction, clamping at the axes.
    pub fn step(&mut self)
        ensures
            *final(self) == (CursorState {
                location: cursor_moved(old(self).location, old(self).direction),
                ..*old(self)
            }),
    {
        let (x, y) = self.location;
        let (mut nx, mut ny): (i64, i64) = match self.direction {
            Direction::North => (x, y.wrapping_sub(1)),
            Direction::South => (x, y.wrapping_add(1)),
            Direction::East => (x.wrapping_add(1), y),
            Direction::West => (x.wrapping_sub(1), y),
        };
        if nx < 0 {
            nx = 0;
        }
        if ny < 0 {
            ny = 0;
        }
        self.location = (nx, ny);
    }

    /// Moves the cursor one cell against its direction, clamping at the
    /// axes.
    pub fn step_cursor_back(&mut self)
        ensures
            *final(self) == (CursorState {
                location: cursor_moved(
                    old(self).location,
                    crate::vm::dir_reverse(old(self).direction),
                ),
                ..*old(self)
            }),
    {
        let (x, y) = self.location;
        let (mut nx, mut ny): (i64, i64) = match self.direction {
            Direction::North => (x, y.wrapping_add(1)),
            Direction::South => (x, y.wrapping_sub(1)),
            Direction::East => (x.wrapping_sub(1), y),
            Direction::West => (x.wrapping_add(1), y),
        };
        if nx < 0 {
            nx = 0;
        }
        if ny < 0 {
            ny = 0;
        }
        self.location = (nx, ny);
    }
}

/// The session: authoring a grid, or running a machine built from it.
pub enum Mode {
    Editing { cursor_state: CursorState, fungespace: FungeSpace },
    Playing {
        snapshot: FungeSpace,
        bf_state: Box<State>,
        running: bool,
        follow: bool,
        speed: u8,
        error_state: Option<BefungeError>,
        last_step_ms: u64,
    },
}

/// How a step's status drives the run controls: a breakpoint or exhausted
/// input pauses the run, any other error freezes it until a reset.
pub open spec fn apply_status(running: bool, error: Option<BefungeError>, st: StepStatus) -> (
    bool,
    Option<BefungeError>,
) {
    match st {
        StepStatus::Normal => (running, error),
        StepStatus::Breakpoint => (false, error),
        StepStatus::Error(e) => if e is InputExhausted {
            (false, error)
        } else {
            (running, Some(e))
        },
    }
}

/// What one scheduling tick reports.
#[derive(Clone, Copy, Debug, PartialEq, Eq, Structural)]
pub struct TickReport {
    /// Whether this tick was due and stepped the machine at all.
    pub ran: bool,
    /// How many machine steps ran.
    pub steps: u64,
    /// How the last step ended; normal when none ran.
    pub status: StepStatus,
}

impl Mode {
    /// Structural invariant of the owned components.
    pub open(crate) spec fn inv(&self) -> bool {
        match self {
            Mode::Editing { fungespace, .. } => fungespace.inv(),
            Mode::Playing { snapshot, bf_state, .. } => snapshot.inv() && bf_state.inv(),
        }
    }

    /// A fresh session: editing an empty grid with a default cursor.
    pub fn new() -> (r: Self)
        ensures
            r.inv(),
            r is Editing,
            r->Editing_cursor_state == (CursorState {
                location: (0, 0),
                direction: Direction::East,
                string_mode: false,
            }),
            r->Editing_fungespace@ == crate::text::empty_grid(),
    {
        let fs = FungeSpace::new();
        proof {
            assert forall|p: (i64, i64)| fs@.contains_key(p) implies fs@[p]
                == crate::space::SPACE by {
                assert(crate::space::grid_cell(fs@, p) == crate::space::SPACE);
            }
            assert(fs@ =~= crate::text::empty_grid());
        }
        Mode::Editing { cursor_state: CursorState::default(), fungespace: fs }
    }

    /// The one transition, symmetric: editing becomes playing with a fresh
    /// machine over a snapshot of the grid and reset run controls; playing
    /// becomes editing with the snapshot restored and the cursor seeded at
    /// the machine's last position.
    pub fn swap_mode(&mut self, now_ms: u64)
        requires
            old(self).inv(),
        ensures
            final(self).inv(),
            (*old(self)) is Editing ==> {
                &&& (*final(self)) is Playing
                &&& (*final(self))->Playing_snapshot@ == (*old(self))->Editing_fungespace@
                &&& (*final(self))->Playing_bf_state@ == vm_new((*old(self))->Editing_fungespace@)
                &&& (*final(self))->Playing_running == false
                &&& (*final(self))->Playing_follow == false
                &&& (*final(self))->Playing_speed == 5
                &&& (*final(self))->Playing_error_state is None
                &&& (*final(self))->Playing_last_step_ms == now_ms
            },
            (*old(self)) is Playing ==> {
                &&& (*final(self)) is Editing
                &&& (*final(self))->Editing_fungespace@ == (*old(self))->Playing_snapshot@
                &&& (*final(self))->Editing_cursor_state == (CursorState {
                    location: (*old(self))->Playing_bf_state@.position,
                    direction: Direction::East,
                    string_mode: false,
                })
            },
    {
        let next = match self {
            Mode::Editing { fungespace, .. } => {
                let snapshot = fungespace.duplicate();
                let machine_grid = fungespace.duplicate();
                Mode::Playing {
                    snapshot,
                    bf_state: Box::new(State::new_from_fungespace(machine_grid)),
                    running: false,
                    follow: false,
                    speed: 5,
                    error_state: None,
                    last_step_ms: now_ms,
                }
            },
            Mode::Playing { snapshot, bf_state, .. } => {
                let position = bf_state.position;
                let grid = snapshot.duplicate();
                Mode::Editing { cursor_state: CursorState::new(position), fungespace: grid }
            },
        };
        *self = next;
    }

    /// Restarts the run without leaving the playing state: rebuilds the
    /// machine from the snapshot, keeping the breakpoint set, and clears the
    /// run controls.  In the editing state this does nothing.
    pub fn reset(&mut self)
        requires
            old(self).inv(),
        ensures
            final(self).inv(),
            (*old(self)) is Editing ==> *final(self) == *old(self),
            (*old(self)) is Playing ==> {
                &&& (*final(self)) is Playing
                &&& (*final(self))->Playing_snapshot@ == (*old(self))->Playing_snapshot@
                &&& (*final(self))->Playing_bf_state@ == (VmModel {
                    breakpoints: (*old(self))->Playing_bf_state@.breakpoints,
                    ..vm_new((*old(self))->Playing_snapshot@)
                })
                &&& (*final(self))->Playing_running == false
                &&& (*final(self))->Playing_follow == (*old(self))->Playing_follow
                &&& (*final(self))->Playing_speed == (*old(self))->Playing_speed
                &&& (*final(self))->Playing_error_state is None
                &&& (*final(self))->Playing_last_step_ms == (*old(self))->Playing_last_step_ms
            },
    {
        match self {
            Mode::Editing { .. } => {},
            Mode::Playing { snapshot, bf_state, running, error_state, .. } => {
                let grid = snapshot.duplicate();
                let mut fresh = State::new_from_fungespace(grid);
                core::mem::swap(&mut fresh.breakpoints, &mut bf_state.breakpoints);
                **bf_state = fresh;
                *running = false;
                *error_state = None;
            },
        }
        proof {
            if (*old(self)) is Playing {
                assert((*self)->Playing_bf_state@ =~= (VmModel {
                    breakpoints: (*old(self))->Playing_bf_state@.breakpoints,
                    ..vm_new((*old(self))->Playing_snapshot@)
                }));
            }
        }
    }

    /// One manual step of the machine while playing, honouring the run
    /// controls.  Does nothing while editing or while an error is frozen.
    pub fn step_once(&mut self, settings: &Settings, now_ms: u64) -> (r: TickReport)
        requires
            old(self).inv(),
        ensures
            final(self).inv(),
            (*old(self)) is Editing ==> *final(self) == *old(self) && !r.ran,
            (*old(self)) is Playing && (*old(self))->Playing_error_state is Some ==> *final(self) == *old(self) && !r.ran,
            ((*old(self)) is Playing && (*old(self))->Playing_error_state is None) ==> {
                let vm0 = (*old(self))->Playing_bf_state@;
                let (vm1, st) = crate::vm::spec_step(vm0, *settings, now_ms);
                let (running1, error1) = apply_status((*old(self))->Playing_running, None, st);
                &&& r.ran
                &&& r.steps == 1
                &&& r.status == st
                &&& (*final(self)) is Playing
                &&& (*final(self))->Playing_bf_state@ == vm1
                &&& (*final(self))->Playing_running == running1
                &&& (*final(self))->Playing_error_state == error1
                &&& (*final(self))->Playing_snapshot@ == (*old(self))->Playing_snapshot@
                &&& (*final(self))->Playing_follow == (*old(self))->Playing_follow
                &&& (*final(self))->Playing_speed == (*old(self))->Playing_speed
                &&& (*final(self))->Playing_last_step_ms == (*old(self))->Playing_last_step_ms
            },
    {
        match self {
            Mode::Editing { .. } => TickReport { ran: false, steps: 0, status: StepStatus::Normal },
            Mode::Playing { bf_state, running, error_state, .. } => {
                if error_state.is_some() {
                    TickReport { ran: false, steps: 0, status: StepStatus::Normal }
                } else {
                    let st = bf_state.step(settings, now_ms);
                    match st {
                        StepStatus::Normal => {},
                        StepStatus::Breakpoint => {
                            *running = false;
                        },
                        StepStatus::Error(e) => {
                            if matches!(e, BefungeError::InputExhausted) {
                                *running = false;
                            } else {
                                *error_state = Some(e);
                            }
                        },
                    }
                    TickReport { ran: true, steps: 1, status: st }
                }
            },
        }
    }

    /// One scheduling tick: when playing, running, unfrozen, and due per the
    /// speed level's interval, runs the level's batch of steps — a single
    /// step, a fixed batch, or wall-clock-bounded chunks at the top tier —
    /// stopping early at the first step that does not complete normally.
    pub fn tick(&mut self, settings: &Settings, now_ms: u64) -> (r: TickReport)
        requires
            old(self).inv(),
        ensures
            final(self).inv(),
            !((*old(self)) is Playing && (*old(self))->Playing_running && old(
                self,
            )->Playing_error_state is None && sat_sub(now_ms, (*old(self))->Playing_last_step_ms)
                >= step_interval_ms((*old(self))->Playing_speed)) ==> *final(self) == *old(self)
                && !r.ran,
            ((*old(self)) is Playing && (*old(self))->Playing_running && old(
                self,
            )->Playing_error_state is None && sat_sub(now_ms, (*old(self))->Playing_last_step_ms)
                >= step_interval_ms((*old(self))->Playing_speed)) ==> {
                let vm0 = (*old(self))->Playing_bf_state@;
                let speed = (*old(self))->Playing_speed;
                &&& r.ran
                &&& (*final(self)) is Playing
                &&& (*final(self))->Playing_snapshot@ == (*old(self))->Playing_snapshot@
                &&& (*final(self))->Playing_follow == (*old(self))->Playing_follow
                &&& (*final(self))->Playing_speed == speed
                &&& (*final(self))->Playing_last_step_ms == now_ms
                &&& exists|n: nat|
                    {
                        let (vm1, st, k) = #[trigger] run_steps(vm0, *settings, now_ms, n);
                        let (running1, error1) = apply_status(true, None, st);
                        &&& (*final(self))->Playing_bf_state@ == vm1
                        &&& r.status == st
                        &&& r.steps == k
                        &&& (*final(self))->Playing_running == running1
                        &&& (*final(self))->Playing_error_state == error1
                        &&& (speed <= 15 ==> n == batch_size(speed))
                        &&& (speed > 15 ==> n % (CHUNK_STEPS as nat) == 0 && n >= CHUNK_STEPS)
                    }
                &&& (16 <= speed && r.status is Normal ==> r.steps % CHUNK_STEPS == 0 && r.steps
                    >= CHUNK_STEPS)
            },
    {
        match self {
            Mode::Editing { .. } => TickReport { ran: false, steps: 0, status: StepStatus::Normal },
            Mode::Playing {
                bf_state,
                running,
                error_state,
                speed,
                last_step_ms,
                ..
            } => {
                if !*running || error_state.is_some() {
                    return TickReport { ran: false, steps: 0, status: StepStatus::Normal };
                }
                let elapsed: u64 = if now_ms >= *last_step_ms {
                    now_ms - *last_step_ms
                } else {
                    0
                };
                let spd = *speed;
                let interval: u64 = if spd <= 1 {
                    1000
                } else if spd == 2 {
                    500
                } else if spd == 3 {
                    250
                } else if spd == 4 {
                    125
                } else if spd == 5 {
                    62
                } else {
                    31
                };
                if elapsed < interval {
                    return TickReport { ran: false, steps: 0, status: StepStatus::Normal };
                }
                let outcome: RunOutcome = if spd <= 15 {
                    let batch: u64 = if spd <= 5 {
                        1
                    } else if spd <= 9 {
                        (spd - 5) as u64
                    } else if spd == 10 {
                        4
                    } else if spd == 11 {
                        8
                    } else if spd == 12 {
                        16
                    } else if spd == 13 {
                        32
                    } else if spd == 14 {
                        64
                    } else {
                        128
                    };
                    let out = run_steps_bounded(bf_state, settings, now_ms, batch);
                    proof {
                        assert(batch == batch_size(spd));
                    }
                    out
                } else {
                    let budget: u64 = if spd <= 16 {
                        4
                    } else if spd == 17 {
                        8
                    } else if spd == 18 {
                        16
                    } else {
                        32
                    };
                    proof {
                        assert(budget == budget_ms(spd));
                    }
                    run_timed(bf_state, settings, now_ms, budget)
                };
                match outcome.status {
                    StepStatus::Normal => {},
                    StepStatus::Breakpoint => {
                        *running = false;
                    },
                    StepStatus::Error(e) => {
                        if matches!(e, BefungeError::InputExhausted) {
                            *running = false;
                        } else {
                            *error_state = Some(e);
                        }
                    },
                }
                *last_step_ms = now_ms;
                TickReport { ran: true, steps: outcome.steps, status: outcome.status }
            },
        }
    }
}

} // verus!
