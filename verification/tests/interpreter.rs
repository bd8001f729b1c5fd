use befunge::errors::BefungeError;
use befunge::graphics::{Event, Rgb};
use befunge::settings::{InvalidOpBehaviour, Settings};
use befunge::space::FungeSpace;
use befunge::vm::{Direction, State, StepStatus};
use befunge::colors::get_color_of_bf_op;

fn machine(src: &str) -> State {
    State::new_from_fungespace(FungeSpace::new_from_string(String::from(src)))
}

fn run(st: &mut State, settings: &Settings, steps: usize) -> Vec<StepStatus> {
    (0..steps).map(|_| st.step(settings, 0)).collect()
}

#[test]
fn subtraction_pops_the_subtrahend_first() {
    let settings = Settings::default();
    let mut st = machine("5 3 - .");
    for status in run(&mut st, &settings, 7) {
        assert_eq!(status, StepStatus::Normal);
    }
    assert_eq!(st.output, "2");
}

#[test]
fn digits_push_their_values() {
    let settings = Settings::default();
    let mut st = machine("0598");
    run(&mut st, &settings, 4);
    assert_eq!(st.stack, vec![0, 5, 9, 8]);
}

#[test]
fn arithmetic_division_and_modulo() {
    let settings = Settings::default();
    let mut st = machine("94/.");
    run(&mut st, &settings, 4);
    assert_eq!(st.output, "2");

    let mut st = machine("94%.");
    run(&mut st, &settings, 4);
    assert_eq!(st.output, "1");

    // Division by zero yields zero rather than failing.
    let mut st = machine("90/.");
    run(&mut st, &settings, 4);
    assert_eq!(st.output, "0");
}

#[test]
fn negative_decimal_output() {
    let settings = Settings::default();
    let mut st = machine("01-.");
    run(&mut st, &settings, 4);
    assert_eq!(st.output, "-1");
}

#[test]
fn greater_than_swap_not_dup_discard() {
    let settings = Settings::default();
    let mut st = machine("35`");
    run(&mut st, &settings, 3);
    assert_eq!(st.stack, vec![0]);

    let mut st = machine(r"35\");
    run(&mut st, &settings, 3);
    assert_eq!(st.stack, vec![5, 3]);

    let mut st = machine("7!:$");
    run(&mut st, &settings, 4);
    assert_eq!(st.stack, vec![0]);
}

#[test]
fn horizontal_branch_routes_east_on_zero() {
    let settings = Settings::default();
    let mut st = machine("0_");
    run(&mut st, &settings, 2);
    assert_eq!(st.direction, Direction::East);

    let mut st = machine("7_");
    run(&mut st, &settings, 2);
    assert_eq!(st.direction, Direction::West);
}

#[test]
fn vertical_branch_routes_south_on_zero() {
    let settings = Settings::default();
    let mut st = machine("0|");
    run(&mut st, &settings, 2);
    assert_eq!(st.direction, Direction::South);

    let mut st = machine("7|");
    run(&mut st, &settings, 2);
    assert_eq!(st.direction, Direction::North);
}

#[test]
fn string_mode_pushes_code_points() {
    let settings = Settings::default();
    let mut st = machine("\"Az\"");
    run(&mut st, &settings, 4);
    assert_eq!(st.stack, vec!['A' as i64, 'z' as i64]);
    assert!(!st.string_mode);
}

#[test]
fn string_mode_pushes_spaces_verbatim() {
    let settings = Settings::default();
    let mut st = machine("\" \"");
    run(&mut st, &settings, 3);
    assert_eq!(st.stack, vec![' ' as i64]);
}

#[test]
fn hash_skips_the_next_cell() {
    let settings = Settings::default();
    let mut st = machine("#12");
    run(&mut st, &settings, 2);
    assert_eq!(st.stack, vec![2]);
}

#[test]
fn put_then_get_self_modifies() {
    let settings = Settings::default();
    // Write value 7 at (0, 1), then read it back.
    let mut st = machine("710p10g");
    run(&mut st, &settings, 7);
    assert_eq!(st.map.get_wrapped((1, 0)), 7);
    assert_eq!(st.stack, vec![7]);
}

#[test]
fn halt_reports_like_a_breakpoint_and_stays_put() {
    let settings = Settings::default();
    let mut st = machine("1@");
    assert_eq!(st.step(&settings, 0), StepStatus::Normal);
    assert_eq!(st.step(&settings, 0), StepStatus::Breakpoint);
    assert_eq!(st.position, (1, 0));
}

#[test]
fn numeric_input_fails_loudly() {
    let settings = Settings::default();
    let mut st = machine("&");
    assert_eq!(
        st.step(&settings, 0),
        StepStatus::Error(BefungeError::Unimplemented)
    );
}

#[test]
fn character_input_consumes_the_buffer_front() {
    let settings = Settings::default();
    let mut st = machine("~~");
    st.input_buffer = String::from("hi");
    assert_eq!(st.step(&settings, 0), StepStatus::Normal);
    assert_eq!(st.step(&settings, 0), StepStatus::Normal);
    assert_eq!(st.stack, vec!['h' as i64, 'i' as i64]);
    assert_eq!(st.input_buffer, "");
}

#[test]
fn character_input_exhaustion_surfaces_as_error() {
    let settings = Settings::default();
    let mut st = machine("~");
    assert_eq!(
        st.step(&settings, 0),
        StepStatus::Error(BefungeError::InputExhausted)
    );
    // The pointer did not advance; input can be supplied and retried.
    assert_eq!(st.position, (0, 0));
    st.input_buffer = String::from("x");
    assert_eq!(st.step(&settings, 0), StepStatus::Normal);
    assert_eq!(st.stack, vec!['x' as i64]);
}

#[test]
fn character_output_decodes_low_bits() {
    let settings = Settings::default();
    let mut st = machine("88*,");
    run(&mut st, &settings, 4);
    assert_eq!(st.output, "@");
}

#[test]
fn character_output_replaces_non_scalar_values() {
    let settings = Settings::default();
    // 2*8*8*8 = 1024; 1024*54 = 55296 = 0xD800, a surrogate.
    let mut st = machine("28*8*8*96**,");
    run(&mut st, &settings, 12);
    assert_eq!(st.output, "\u{FFFD}");
}

#[test]
fn invalid_opcode_halt_policy_surfaces_the_error() {
    let settings = Settings::default();
    let mut st = machine("\u{01}");
    assert_eq!(
        st.step(&settings, 0),
        StepStatus::Error(BefungeError::InvalidOperation)
    );
    assert_eq!(st.position, (0, 0));
}

#[test]
fn invalid_opcode_ignore_policy_advances() {
    let mut settings = Settings::default();
    settings.invalid_operation_behaviour = InvalidOpBehaviour::Ignore;
    let mut st = machine("\u{01}1");
    assert_eq!(st.step(&settings, 0), StepStatus::Normal);
    assert_eq!(st.step(&settings, 0), StepStatus::Normal);
    assert_eq!(st.stack, vec![1]);
}

#[test]
fn invalid_opcode_reflect_policy_reverses_and_wraps() {
    let mut settings = Settings::default();
    settings.invalid_operation_behaviour = InvalidOpBehaviour::Reflect;
    let mut st = machine("\u{01}");
    assert_eq!(st.step(&settings, 0), StepStatus::Normal);
    assert_eq!(st.direction, Direction::West);
    // Moving west off the origin wraps to the far edge of the plane.
    assert_eq!(st.position, (i64::MAX, 0));
}

#[test]
fn breakpoint_fires_once_per_loop_iteration() {
    let settings = Settings::default();
    // A halt-free loop: > v / ^ <, four cells, four steps per lap.
    let mut st = machine(">v\n^<");
    st.toggle_breakpoint((1, 1));
    assert!(st.has_breakpoint((1, 1)));
    let mut hits = 0;
    for _ in 0..12 {
        let status = st.step(&settings, 0);
        if st.position == (1, 1) {
            assert_eq!(status, StepStatus::Breakpoint);
            hits += 1;
        } else {
            assert_eq!(status, StepStatus::Normal);
        }
    }
    // Exactly once per four-step lap.
    assert_eq!(hits, 3);
    st.toggle_breakpoint((1, 1));
    assert!(!st.has_breakpoint((1, 1)));
    for _ in 0..8 {
        assert_eq!(st.step(&settings, 0), StepStatus::Normal);
    }
}

#[test]
fn skip_spaces_fast_forwards_outside_string_mode() {
    let mut settings = Settings::default();
    settings.skip_spaces = true;
    let mut st = machine("5   3+");
    assert_eq!(st.step(&settings, 0), StepStatus::Normal);
    // The pointer skipped the run of spaces and sits on the digit.
    assert_eq!(st.position, (4, 0));
    st.step(&settings, 0);
    st.step(&settings, 0);
    assert_eq!(st.stack, vec![8]);
}

#[test]
fn graphics_setup_color_pixel_and_fill() {
    let settings = Settings::default();
    // 5x5 buffer, color (1, 0, 0), paint pixel (2, 1), then fill with
    // color (0, 2, 0).
    let mut st = machine("55s100f21x020fc");
    run(&mut st, &settings, 15);
    let g = st.graphics.as_ref().unwrap();
    assert_eq!(g.width(), 5);
    assert_eq!(g.height(), 5);
    for y in 0..5 {
        for x in 0..5 {
            assert_eq!(g.pixel_at(x, y), Rgb { r: 0, g: 2, b: 0 });
        }
    }
}

#[test]
fn graphics_pixel_writes_row_major() {
    let settings = Settings::default();
    let mut st = machine("55s100f21x");
    run(&mut st, &settings, 10);
    let g = st.graphics.as_ref().unwrap();
    assert_eq!(g.pixel_at(2, 1), Rgb { r: 1, g: 0, b: 0 });
    assert_eq!(g.pixel_at(1, 2), Rgb { r: 0, g: 0, b: 0 });
}

#[test]
fn graphics_out_of_range_pixel_is_ignored() {
    let settings = Settings::default();
    let mut st = machine("22s100f91x");
    run(&mut st, &settings, 10);
    let g = st.graphics.as_ref().unwrap();
    for y in 0..2 {
        for x in 0..2 {
            assert_eq!(g.pixel_at(x, y), Rgb { r: 0, g: 0, b: 0 });
        }
    }
}

#[test]
fn graphics_line_paints_the_half_open_segment() {
    let settings = Settings::default();
    // Line from (0, 0) to (3, 0): pops y1, x1, y2, x2.
    let mut st = machine("55s100f3000l");
    run(&mut st, &settings, 12);
    let g = st.graphics.as_ref().unwrap();
    let red = Rgb { r: 1, g: 0, b: 0 };
    assert_eq!(g.pixel_at(0, 0), red);
    assert_eq!(g.pixel_at(1, 0), red);
    assert_eq!(g.pixel_at(2, 0), red);
    // The segment is half-open: the far endpoint stays black.
    assert_eq!(g.pixel_at(3, 0), Rgb { r: 0, g: 0, b: 0 });
    assert_eq!(g.pixel_at(1, 1), Rgb { r: 0, g: 0, b: 0 });
}

#[test]
fn graphics_events_pop_as_tagged_tuples() {
    let settings = Settings::default();
    let mut st = machine("22szz");
    run(&mut st, &settings, 3);
    st.graphics
        .as_mut()
        .unwrap()
        .push_event(Event::MouseClick(3, 4));
    run(&mut st, &settings, 2);
    // One click event: y, x, then the tag; then an empty queue pushes zero.
    assert_eq!(st.stack, vec![4, 3, 4, 0]);
}

#[test]
fn graphics_opcodes_without_setup_are_no_ops() {
    let settings = Settings::default();
    let mut st = machine("1f2x");
    run(&mut st, &settings, 4);
    assert!(st.graphics.is_none());
    assert_eq!(st.stack, vec![1, 2]);
}

#[test]
fn wrapping_arithmetic_does_not_fail() {
    let settings = Settings::default();
    // 8*8*... builds large values; the product wraps rather than failing.
    let mut st = machine("88*:*:*:*:*:*:*:*:*:*:*:*:*:*:*:*:*:*:*:*.");
    for status in run(&mut st, &settings, 44) {
        assert_eq!(status, StepStatus::Normal);
    }
    assert!(!st.output.is_empty());
}

#[test]
fn stack_underflow_yields_zero() {
    let settings = Settings::default();
    let mut st = machine("+.");
    run(&mut st, &settings, 2);
    assert_eq!(st.output, "0");
}

#[test]
fn push_and_pop_roundtrip() {
    let mut st = State::new();
    st.push(42);
    assert_eq!(st.pop(), 42);
    assert_eq!(st.pop(), 0);
    assert_eq!(st.pop(), 0);
}

#[test]
fn unmaterialized_cells_are_no_ops() {
    let settings = Settings::default();
    let mut st = machine("1");
    assert_eq!(st.step(&settings, 0), StepStatus::Normal);
    assert_eq!(st.step(&settings, 0), StepStatus::Normal);
    assert_eq!(st.position, (2, 0));
    assert_eq!(st.stack, vec![1]);
}

#[test]
fn opcode_colors_follow_the_categories() {
    assert_eq!(
        get_color_of_bf_op(b'5'),
        Some(Rgb { r: 32, g: 159, b: 181 })
    );
    assert_eq!(
        get_color_of_bf_op(b'+'),
        Some(Rgb { r: 210, g: 15, b: 57 })
    );
    assert_eq!(
        get_color_of_bf_op(b'>'),
        Some(Rgb { r: 64, g: 160, b: 43 })
    );
    assert_eq!(
        get_color_of_bf_op(b'p'),
        Some(Rgb { r: 136, g: 57, b: 239 })
    );
    assert_eq!(
        get_color_of_bf_op(b','),
        Some(Rgb { r: 234, g: 118, b: 203 })
    );
    assert_eq!(
        get_color_of_bf_op(b's'),
        Some(Rgb { r: 114, g: 135, b: 253 })
    );
    assert_eq!(get_color_of_bf_op(b'@'), None);
    assert_eq!(get_color_of_bf_op(b' '), None);
}

#[test]
fn graphics_setup_clamps_degenerate_dimensions() {
    let settings = Settings::default();
    // Pop order is height then width; both negative, clamped to zero.
    let mut st = machine("01-01-s");
    run(&mut st, &settings, 7);
    let g = st.graphics.as_ref().unwrap();
    assert_eq!(g.width(), 0);
    assert_eq!(g.height(), 0);
}
