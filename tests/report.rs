use jaccard_sim::console_writer::Writer;
use jaccard_sim::records::{parse_csv, InputError};
use jaccard_sim::report::{calculate_shift, number_text, score_to_text, ShiftDirection, Similarities};

fn text(v: Vec<char>) -> String {
    v.into_iter().collect()
}

#[test]
fn should_calculate_shift_left() {
    assert_eq!(0, calculate_shift(0, ShiftDirection::Left), "val=0.0");
    assert_eq!(1, calculate_shift(200, ShiftDirection::Left), "val=0.2");
    assert_eq!(1, calculate_shift(200, ShiftDirection::Left), "val=0.20");
    assert_eq!(1, calculate_shift(210, ShiftDirection::Left), "val=0.21");
    assert_eq!(1, calculate_shift(210, ShiftDirection::Left), "val=0.210");
    assert_eq!(2, calculate_shift(215, ShiftDirection::Left), "val=0.215");
}

#[test]
fn should_calculate_shift_right() {
    assert_eq!(0, calculate_shift(0, ShiftDirection::Right), "val=0.0");
    assert_eq!(1, calculate_shift(200, ShiftDirection::Right), "val=0.2");
    assert_eq!(1, calculate_shift(200, ShiftDirection::Right), "val=0.20");
    assert_eq!(2, calculate_shift(210, ShiftDirection::Right), "val=0.21");
    assert_eq!(2, calculate_shift(210, ShiftDirection::Right), "val=0.210");
    assert_eq!(2, calculate_shift(215, ShiftDirection::Right), "val=0.215");
}

#[test]
fn should_throw_error_if_no_file() {
    match parse_csv("data/test1.csv", false, vec![]) {
        Err(InputError::InputNotFound(p)) => assert_eq!(p, "data/test1.csv"),
        _ => panic!("expected to fail because there is no such file"),
    }
}

#[test]
fn should_throw_error_if_file_empty() {
    match parse_csv("empty.csv", true, vec![]) {
        Err(InputError::InputEmpty) => {}
        _ => panic!("expected to fail because file is empty"),
    }
}

#[test]
fn malformed_row_is_reported_by_position() {
    let rows = vec![Some((String::from("1"), String::from("a"))), None, None];
    match parse_csv("x.csv", true, rows) {
        Err(InputError::InputMalformed(k)) => assert_eq!(k, 1),
        _ => panic!("expected a malformed row"),
    }
}

#[test]
fn later_row_replaces_same_identifier() {
    let rows = vec![
        Some((String::from("1"), String::from("a"))),
        Some((String::from("2"), String::from("b"))),
        Some((String::from("1"), String::from("c"))),
    ];
    match parse_csv("x.csv", true, rows) {
        Ok(v) => {
            assert_eq!(v.len(), 2);
            assert!(v.contains(&(String::from("1"), String::from("c"))));
            assert!(v.contains(&(String::from("2"), String::from("b"))));
        }
        _ => panic!("expected records"),
    }
}

#[test]
fn score_text_is_shortest_decimal() {
    assert_eq!(text(score_to_text(0)), "0");
    assert_eq!(text(score_to_text(1000)), "1");
    assert_eq!(text(score_to_text(500)), "0.5");
    assert_eq!(text(score_to_text(210)), "0.21");
    assert_eq!(text(score_to_text(215)), "0.215");
    assert_eq!(text(score_to_text(5)), "0.005");
    assert_eq!(text(number_text(1234)), "1234");
}

#[test]
fn compact_output_has_no_trailing_newline() {
    let sims = Similarities::new(vec![500, 0, 215], 238, 0, 500, 3);
    assert_eq!(sims.to_string(), "0.5\n0\n0.215");
    let empty = Similarities::new(vec![], 0, 0, 0, 3);
    assert_eq!(empty.to_string(), "");
}

#[test]
fn display_with_equal_bounds_does_not_fail() {
    let sims = Similarities::new(vec![0, 0, 0], 0, 0, 0, 3);
    let out = sims.display(20);
    let labels = String::from("\n00") + &" ".repeat(18) + "0\nMean: 0\nTotal similarities: 3\n";
    assert!(out.ends_with(&labels));
    assert!(out.contains("\n|------------------|\n"));
    let empty = Similarities::new(vec![], 0, 0, 0, 3);
    let out = empty.display(100);
    assert!(out.ends_with("Mean: 0\nTotal similarities: 0\n"));
}

#[test]
fn display_lays_out_axis_and_histogram() {
    let sims = Similarities::new(vec![0, 500, 1000], 500, 0, 1000, 3);
    let out = sims.display(10);
    // canvas: 5 + 4 + 1 = 10 columns, 3 rows
    let expected = String::from("\n")
        + "x    x   x\n"
        + "x    x   x\n"
        + "xxxxxxxxxx\n"
        + "|----|---|\n"
        + "0   0.5  1\n"
        + "Mean: 0.5\n"
        + "Total similarities: 3\n";
    assert_eq!(out, expected);
}

#[test]
fn writer_hands_out_lines_in_order() {
    let mut w = Writer::new();
    w.add_line(String::from("one"));
    w.add_line(String::from("two"));
    assert_eq!(w.print(), vec![String::from("one"), String::from("two")]);
    assert_eq!(w.print(), Vec::<String>::new());
}
