use befunge::errors::BefungeError;
use befunge::scheduler::{run_steps_bounded, run_timed};
use befunge::session::{CursorState, Mode, TickReport};
use befunge::settings::Settings;
use befunge::space::FungeSpace;
use befunge::vm::{Direction, State, StepStatus};
use befunge::history::CoordTimes;

fn machine(src: &str) -> State {
    State::new_from_fungespace(FungeSpace::new_from_string(String::from(src)))
}

fn grid_entries(g: &FungeSpace) -> std::collections::BTreeMap<(i64, i64), i64> {
    g.entries().into_iter().collect()
}

#[test]
fn cursor_moves_and_clamps_at_the_axes() {
    let mut c = CursorState::new((0, 0));
    assert_eq!(c.direction, Direction::East);
    c.step();
    assert_eq!(c.location, (1, 0));
    c.direction = Direction::North;
    c.step();
    assert_eq!(c.location, (1, 0));
    c.direction = Direction::West;
    c.step();
    c.step();
    assert_eq!(c.location, (0, 0));
}

#[test]
fn cursor_steps_back_against_its_direction() {
    let mut c = CursorState::new((3, 3));
    c.direction = Direction::South;
    c.step_cursor_back();
    assert_eq!(c.location, (3, 2));
    c.direction = Direction::East;
    c.step_cursor_back();
    assert_eq!(c.location, (2, 2));
}

#[test]
fn swap_mode_snapshots_and_restores_the_grid() {
    let settings = Settings::default();
    // The program overwrites its own first cell when stepped.
    let mut mode = Mode::new();
    if let Mode::Editing { fungespace, .. } = &mut mode {
        let loaded = FungeSpace::new_from_string(String::from("800p1"));
        *fungespace = loaded;
    }
    let before = match &mode {
        Mode::Editing { fungespace, .. } => grid_entries(fungespace),
        _ => unreachable!(),
    };

    mode.swap_mode(17);
    let (running, follow, speed) = match &mode {
        Mode::Playing { running, follow, speed, .. } => (*running, *follow, *speed),
        _ => unreachable!(),
    };
    assert!(!running);
    assert!(!follow);
    assert_eq!(speed, 5);

    // Mutate the grid during the run: 8 0 0 p writes 8 at (0, 0).
    for _ in 0..5 {
        mode.step_once(&settings, 0);
    }
    let (mutated, last_pos) = match &mode {
        Mode::Playing { bf_state, .. } => (bf_state.map.get_wrapped((0, 0)), bf_state.position),
        _ => unreachable!(),
    };
    assert_eq!(mutated, 8);

    mode.swap_mode(99);
    match &mode {
        Mode::Editing { cursor_state, fungespace } => {
            assert_eq!(grid_entries(fungespace), before);
            assert_eq!(cursor_state.location, last_pos);
            assert_eq!(cursor_state.direction, Direction::East);
        },
        _ => unreachable!(),
    }
}

#[test]
fn reset_rebuilds_from_the_snapshot_keeping_breakpoints() {
    let settings = Settings::default();
    let mut mode = Mode::new();
    if let Mode::Editing { fungespace, .. } = &mut mode {
        *fungespace = FungeSpace::new_from_string(String::from("12345"));
    }
    mode.swap_mode(0);
    if let Mode::Playing { bf_state, .. } = &mut mode {
        bf_state.toggle_breakpoint((3, 0));
    }
    for _ in 0..4 {
        mode.step_once(&settings, 0);
    }
    if let Mode::Playing { bf_state, .. } = &mode {
        assert!(!bf_state.stack.is_empty());
    }
    mode.reset();
    match &mode {
        Mode::Playing { bf_state, running, error_state, .. } => {
            assert!(bf_state.stack.is_empty());
            assert_eq!(bf_state.position, (0, 0));
            assert!(bf_state.has_breakpoint((3, 0)));
            assert!(!running);
            assert!(error_state.is_none());
        },
        _ => unreachable!(),
    }
}

#[test]
fn step_once_freezes_on_errors_until_reset() {
    let settings = Settings::default();
    let mut mode = Mode::new();
    if let Mode::Editing { fungespace, .. } = &mut mode {
        *fungespace = FungeSpace::new_from_string(String::from("&"));
    }
    mode.swap_mode(0);
    let report = mode.step_once(&settings, 0);
    assert!(report.ran);
    assert_eq!(
        report.status,
        StepStatus::Error(BefungeError::Unimplemented)
    );
    if let Mode::Playing { error_state, .. } = &mode {
        assert_eq!(*error_state, Some(BefungeError::Unimplemented));
    }
    // Frozen: further manual steps do nothing.
    let report = mode.step_once(&settings, 0);
    assert!(!report.ran);
    mode.reset();
    if let Mode::Playing { error_state, .. } = &mode {
        assert!(error_state.is_none());
    }
}

#[test]
fn tick_does_nothing_while_editing_paused_or_early() {
    let settings = Settings::default();
    let mut mode = Mode::new();
    assert!(!mode.tick(&settings, 1000).ran);

    if let Mode::Editing { fungespace, .. } = &mut mode {
        *fungespace = FungeSpace::new_from_string(String::from(">v\n^<"));
    }
    mode.swap_mode(1000);
    // Not running yet.
    assert!(!mode.tick(&settings, 5000).ran);
    if let Mode::Playing { running, .. } = &mut mode {
        *running = true;
    }
    // Speed five requires sixty-two milliseconds between steps.
    assert!(!mode.tick(&settings, 1030).ran);
    let report = mode.tick(&settings, 1100);
    assert!(report.ran);
    assert_eq!(report.steps, 1);
    assert_eq!(report.status, StepStatus::Normal);
    // The interval now counts from the tick time.
    assert!(!mode.tick(&settings, 1150).ran);
}

#[test]
fn tick_runs_fixed_batches_at_mid_speeds() {
    let settings = Settings::default();
    let mut mode = Mode::new();
    if let Mode::Editing { fungespace, .. } = &mut mode {
        *fungespace = FungeSpace::new_from_string(String::from(">v\n^<"));
    }
    mode.swap_mode(0);
    if let Mode::Playing { running, speed, .. } = &mut mode {
        *running = true;
        *speed = 9;
    }
    let report = mode.tick(&settings, 1000);
    assert!(report.ran);
    assert_eq!(report.steps, 4);

    if let Mode::Playing { speed, .. } = &mut mode {
        *speed = 12;
    }
    let report = mode.tick(&settings, 2000);
    assert_eq!(report.steps, 16);
}

#[test]
fn tick_batches_abort_at_a_breakpoint() {
    let settings = Settings::default();
    let mut mode = Mode::new();
    if let Mode::Editing { fungespace, .. } = &mut mode {
        *fungespace = FungeSpace::new_from_string(String::from(">v\n^<"));
    }
    mode.swap_mode(0);
    if let Mode::Playing { bf_state, running, speed, .. } = &mut mode {
        bf_state.toggle_breakpoint((1, 1));
        *running = true;
        *speed = 12;
    }
    let report = mode.tick(&settings, 1000);
    assert!(report.ran);
    assert_eq!(report.status, StepStatus::Breakpoint);
    assert_eq!(report.steps, 2);
    if let Mode::Playing { running, .. } = &mode {
        assert!(!running);
    }
}

#[test]
fn top_speed_runs_whole_chunks() {
    let settings = Settings::default();
    let mut mode = Mode::new();
    if let Mode::Editing { fungespace, .. } = &mut mode {
        *fungespace = FungeSpace::new_from_string(String::from(">v\n^<"));
    }
    mode.swap_mode(0);
    if let Mode::Playing { running, speed, .. } = &mut mode {
        *running = true;
        *speed = 20;
    }
    // The tick start time lies far in the past of the real clock, so the
    // budget is exhausted after the first chunk.
    let report: TickReport = mode.tick(&settings, 1000);
    assert!(report.ran);
    assert_eq!(report.status, StepStatus::Normal);
    // At least one whole chunk always runs before the budget is consulted.
    assert!(report.steps >= 10000);
    assert_eq!(report.steps % 10000, 0);
}

#[test]
fn bounded_runs_stop_at_the_first_halt() {
    let settings = Settings::default();
    let mut st = machine("123@");
    let outcome = run_steps_bounded(&mut st, &settings, 0, 100);
    assert_eq!(outcome.status, StepStatus::Breakpoint);
    assert_eq!(outcome.steps, 4);
    assert_eq!(st.stack, vec![1, 2, 3]);
}

#[test]
fn timed_runs_report_whole_chunks_or_an_aborted_tail() {
    let settings = Settings::default();
    let mut st = machine(">v\n^<");
    let outcome = run_timed(&mut st, &settings, 0, 4);
    assert_eq!(outcome.status, StepStatus::Normal);
    assert!(outcome.steps >= 10000);
    assert_eq!(outcome.steps % 10000, 0);

    let mut st = machine("@");
    let outcome = run_timed(&mut st, &settings, 0, 4);
    assert_eq!(outcome.status, StepStatus::Breakpoint);
    assert_eq!(outcome.steps, 1);
}

#[test]
fn default_settings_match_the_documented_values() {
    let s = Settings::default();
    assert_eq!(s.pos_history, (true, [128, 0, 128]));
    assert_eq!(s.get_history, (false, [255, 0, 0]));
    assert_eq!(s.put_history, (true, [0, 255, 0]));
    assert!(!s.skip_spaces);
    assert!(s.render_unicode);
}

#[test]
fn history_records_with_a_debounce_window() {
    let mut h = CoordTimes::new();
    h.record((1, 2), 1000);
    // Within the window the timestamp is kept.
    h.record((1, 2), 1400);
    let snap: std::collections::BTreeMap<(i64, i64), u64> =
        h.snapshot().into_iter().collect();
    assert_eq!(snap.get(&(1, 2)), Some(&1000));
    // Past the window it is refreshed.
    h.record((1, 2), 1600);
    let snap: std::collections::BTreeMap<(i64, i64), u64> =
        h.snapshot().into_iter().collect();
    assert_eq!(snap.get(&(1, 2)), Some(&1600));
}

#[test]
fn history_pruning_drops_stale_entries() {
    let mut h = CoordTimes::new();
    h.record((0, 0), 1000);
    h.record((5, 5), 4000);
    h.retain_recent(6000, 5000);
    let snap: std::collections::BTreeMap<(i64, i64), u64> =
        h.snapshot().into_iter().collect();
    assert_eq!(snap.len(), 1);
    assert_eq!(snap.get(&(5, 5)), Some(&4000));
}

#[test]
fn position_history_is_recorded_when_enabled() {
    let settings = Settings::default();
    let mut st = machine("123");
    st.step(&settings, 2000);
    let snap: std::collections::BTreeMap<(i64, i64), u64> =
        st.pos_history.snapshot().into_iter().collect();
    assert_eq!(snap.get(&(1, 0)), Some(&2000));

    let mut quiet = Settings::default();
    quiet.pos_history.0 = false;
    let mut st = machine("123");
    st.step(&quiet, 2000);
    assert!(st.pos_history.snapshot().is_empty());
}

#[test]
fn exhausted_input_pauses_the_run_without_freezing() {
    let settings = Settings::default();
    let mut mode = Mode::new();
    if let Mode::Editing { fungespace, .. } = &mut mode {
        *fungespace = FungeSpace::new_from_string(String::from("~"));
    }
    mode.swap_mode(0);
    if let Mode::Playing { running, .. } = &mut mode {
        *running = true;
    }
    let report = mode.tick(&settings, 1000);
    assert!(report.ran);
    assert_eq!(
        report.status,
        StepStatus::Error(BefungeError::InputExhausted)
    );
    match &mut mode {
        Mode::Playing { bf_state, running, error_state, .. } => {
            // Paused so the caller can prompt for input, but not frozen.
            assert!(!*running);
            assert!(error_state.is_none());
            bf_state.input_buffer = String::from("y");
            *running = true;
        },
        _ => unreachable!(),
    }
    let report = mode.tick(&settings, 3000);
    assert!(report.ran);
    if let Mode::Playing { bf_state, .. } = &mode {
        assert_eq!(bf_state.stack, vec!['y' as i64]);
    }
}
