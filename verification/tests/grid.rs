use befunge::errors::BefungeError;
use befunge::space::FungeSpace;

fn entries_map(g: &FungeSpace) -> std::collections::BTreeMap<(i64, i64), i64> {
    g.entries().into_iter().collect()
}

#[test]
fn set_then_get_wrapped_returns_value() {
    let mut g = FungeSpace::new();
    g.set((100, 200), 'A' as i64);
    assert_eq!(g.get_wrapped((100, 200)), 'A' as i64);
    assert_eq!(g.get((100, 200)), Some('A' as i64));
}

#[test]
fn set_space_erases_outside_zero_page() {
    let mut g = FungeSpace::new();
    g.set((100, 200), 'A' as i64);
    g.set((100, 200), ' ' as i64);
    assert_eq!(g.get_wrapped((100, 200)), ' ' as i64);
    assert_eq!(g.get((100, 200)), None);
    assert!(!entries_map(&g).contains_key(&(100, 200)));
}

#[test]
fn set_space_stays_materialized_inside_zero_page() {
    let mut g = FungeSpace::new();
    g.set((3, 4), ' ' as i64);
    assert_eq!(g.get((3, 4)), Some(' ' as i64));
    assert!(entries_map(&g).contains_key(&(3, 4)));
}

#[test]
fn zero_page_defaults_to_spaces_and_is_always_enumerated() {
    let g = FungeSpace::new();
    let m = entries_map(&g);
    assert_eq!(m.len(), 100);
    for y in 0..10 {
        for x in 0..10 {
            assert_eq!(m.get(&(x, y)), Some(&(' ' as i64)));
        }
    }
}

#[test]
fn get_wrapped_clamps_negative_coordinates_to_space() {
    let mut g = FungeSpace::new();
    g.set((-5, 3), 'Q' as i64);
    // The cell is stored and readable plainly, but the clamped lookup
    // defends against negative components.
    assert_eq!(g.get((-5, 3)), Some('Q' as i64));
    assert_eq!(g.get_wrapped((-5, 3)), ' ' as i64);
}

#[test]
fn entries_yield_each_cell_exactly_once() {
    let mut g = FungeSpace::new();
    g.set((15, 2), 'x' as i64);
    g.set((2, 15), 'y' as i64);
    g.set((15, 2), 'z' as i64);
    let all = g.entries();
    let mut keys: Vec<(i64, i64)> = all.iter().map(|e| e.0).collect();
    keys.sort();
    let mut dedup = keys.clone();
    dedup.dedup();
    assert_eq!(keys, dedup);
    let m = entries_map(&g);
    assert_eq!(m.get(&(15, 2)), Some(&('z' as i64)));
    assert_eq!(m.get(&(2, 15)), Some(&('y' as i64)));
    assert_eq!(m.len(), 102);
}

#[test]
fn parse_assigns_rows_and_columns() {
    let g = FungeSpace::new_from_string(String::from("ab\ncd"));
    assert_eq!(g.get_wrapped((0, 0)), 'a' as i64);
    assert_eq!(g.get_wrapped((1, 0)), 'b' as i64);
    assert_eq!(g.get_wrapped((0, 1)), 'c' as i64);
    assert_eq!(g.get_wrapped((1, 1)), 'd' as i64);
    assert_eq!(g.get_wrapped((2, 0)), ' ' as i64);
}

#[test]
fn parse_strips_carriage_return_before_newline() {
    let g = FungeSpace::new_from_string(String::from("ab\r\ncd"));
    assert_eq!(g.get_wrapped((1, 0)), 'b' as i64);
    assert_eq!(g.get_wrapped((2, 0)), ' ' as i64);
    assert_eq!(g.get_wrapped((0, 1)), 'c' as i64);
}

#[test]
fn serialize_exact_form() {
    let g = FungeSpace::new_from_string(String::from("ab\ncd"));
    let text = g.serialize().unwrap();
    let mut expected = String::new();
    expected.push_str("ab        \n");
    expected.push_str("cd        \n");
    for _ in 2..10 {
        expected.push_str("          \n");
    }
    assert_eq!(text, expected);
}

#[test]
fn serialize_covers_far_cells() {
    let mut g = FungeSpace::new();
    g.set((12, 11), '#' as i64);
    let text = g.serialize().unwrap();
    let lines: Vec<&str> = text.lines().collect();
    assert_eq!(lines.len(), 12);
    assert_eq!(lines[11], "            #");
}

#[test]
fn serialize_rejects_non_scalar_values() {
    let mut g = FungeSpace::new();
    g.set((20, 20), 0xD800);
    assert_eq!(g.serialize(), Err(BefungeError::SerializationMismatch));
}

#[test]
fn serialize_rejects_newline_values() {
    let mut g = FungeSpace::new();
    g.set((20, 20), '\n' as i64);
    assert_eq!(g.serialize(), Err(BefungeError::SerializationMismatch));
}

#[test]
fn serialize_rejects_negative_coordinates() {
    let mut g = FungeSpace::new();
    g.set((-3, 7), 'x' as i64);
    assert!(g.serialize().is_err());
}

#[test]
fn round_trip_restores_entries() {
    let src = String::from(">v!#\n^< p\n  @\n\nzz");
    let g = FungeSpace::new_from_string(src);
    let text = g.serialize().unwrap();
    let g2 = FungeSpace::new_from_string(text);
    assert_eq!(entries_map(&g), entries_map(&g2));
}

#[test]
fn round_trip_after_far_writes() {
    let mut g = FungeSpace::new_from_string(String::from("abc"));
    g.set((30, 25), '~' as i64);
    g.set((5, 5), 'Q' as i64);
    let text = g.serialize().unwrap();
    let g2 = FungeSpace::new_from_string(text);
    assert_eq!(entries_map(&g), entries_map(&g2));
}

#[test]
fn duplicate_is_independent() {
    let mut g = FungeSpace::new_from_string(String::from("xy"));
    let copy = g.duplicate();
    g.set((0, 0), 'z' as i64);
    assert_eq!(copy.get_wrapped((0, 0)), 'x' as i64);
    assert_eq!(g.get_wrapped((0, 0)), 'z' as i64);
}

#[test]
fn error_descriptions() {
    assert_eq!(
        BefungeError::SerializationMismatch.describe(),
        "value not serializable"
    );
    assert_eq!(BefungeError::InvalidOperation.describe(), "invalid operation");
    assert_eq!(BefungeError::InputExhausted.describe(), "input exhausted");
    assert_eq!(BefungeError::Unimplemented.describe(), "unimplemented operation");
}
