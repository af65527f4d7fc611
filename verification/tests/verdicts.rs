use skyscraper::checker::{check_grid, check_rules};
use skyscraper::errors::PuzzleError;
use skyscraper::lines::{check_line, choice_skyscraper_line, get_skyscraper_line, validate_line, Direction};
use skyscraper::parse::parse_str_to_i32;

#[test]
fn parse_signs_and_leading_zeros() {
    assert_eq!(parse_str_to_i32("+5 -7 007").unwrap(), vec![5, -7, 7]);
    assert_eq!(parse_str_to_i32(" \t 1\n2  ").unwrap(), vec![1, 2]);
}

#[test]
fn parse_height_type_limits() {
    assert_eq!(parse_str_to_i32("2147483647").unwrap(), vec![i32::MAX]);
    assert_eq!(parse_str_to_i32("-2147483648").unwrap(), vec![i32::MIN]);
    assert!(parse_str_to_i32("2147483648").is_err());
    assert!(parse_str_to_i32("-2147483649").is_err());
    assert_eq!(
        parse_str_to_i32("0000000000000000042").unwrap(),
        vec![42]
    );
}

#[test]
fn parse_reports_first_bad_token() {
    match parse_str_to_i32("1 2x 3 y") {
        Err(PuzzleError::ParseError { token }) => assert_eq!(token, "2x"),
        other => panic!("expected a parse error, got {:?}", other),
    }
    assert!(parse_str_to_i32("-").is_err());
    assert!(parse_str_to_i32("+").is_err());
    assert!(parse_str_to_i32("--1").is_err());
    assert!(parse_str_to_i32("1.5").is_err());
}

#[test]
fn rule_count_error_variant() {
    assert_eq!(
        check_rules(&vec![1, 2, 3, 4, 5]),
        Err(PuzzleError::InvalidRuleCount)
    );
}

#[test]
fn grid_size_error_variant() {
    let rules = vec![1, 2, 3, 4];
    let grid = vec![1, 2];
    assert_eq!(check_grid(&rules, &grid), Err(PuzzleError::InvalidGridSize));
}

#[test]
fn line_validation_error_variants() {
    assert_eq!(
        validate_line(&vec![2, 2]),
        Err(PuzzleError::DuplicateValue { line: vec![2, 2] })
    );
    assert_eq!(
        validate_line(&vec![1, 3]),
        Err(PuzzleError::OutOfRangeValue { line: vec![1, 3] })
    );
    assert_eq!(
        validate_line(&vec![0]),
        Err(PuzzleError::OutOfRangeValue { line: vec![0] })
    );
    assert_eq!(
        validate_line(&vec![-1, 1]),
        Err(PuzzleError::OutOfRangeValue { line: vec![-1, 1] })
    );
    assert!(validate_line(&vec![2, 1]).is_ok());
    assert!(validate_line(&vec![]).is_ok());
}

#[test]
fn duplicates_need_not_be_adjacent() {
    assert_eq!(
        validate_line(&vec![1, 2, 1]),
        Err(PuzzleError::DuplicateValue {
            line: vec![1, 2, 1]
        })
    );
}

#[test]
fn rule_mismatch_error_variant() {
    assert_eq!(
        check_line(3, &vec![1, 2]),
        Err(PuzzleError::RuleMismatch {
            expected: 3,
            actual: 2,
            line: vec![1, 2]
        })
    );
}

#[test]
fn internal_index_error_variant() {
    assert_eq!(
        choice_skyscraper_line(4, 1, &vec![1]),
        Err(PuzzleError::InternalIndexError)
    );
}

#[test]
fn visibility_count_extremes() {
    // a strictly increasing line shows every building
    assert!(check_line(4, &vec![1, 2, 3, 4]).is_ok());
    // a strictly decreasing line shows only the nearest one
    assert!(check_line(1, &vec![4, 3, 2, 1]).is_ok());
}

#[test]
fn direction_symmetry_on_a_grid() {
    let grid = vec![
        1, 3, 5, 4, 2, 3, 5, 4, 2, 1, 2, 4, 1, 5, 3, 5, 2, 3, 1, 4, 4, 1, 2, 3, 5,
    ];
    for c in 0..5 {
        let mut up = get_skyscraper_line(&Direction::Up, c, 5, &grid);
        let down = get_skyscraper_line(&Direction::Down, c, 5, &grid);
        up.reverse();
        assert_eq!(up, down);

        let mut left = get_skyscraper_line(&Direction::Left, c, 5, &grid);
        let right = get_skyscraper_line(&Direction::Right, c, 5, &grid);
        left.reverse();
        assert_eq!(left, right);
    }
}

#[test]
fn end_to_end_verdicts() {
    // the trivial one-square puzzle
    assert!(check_grid(&vec![1, 1, 1, 1], &vec![1]).is_ok());
    // a solved two-square puzzle
    assert!(check_grid(&vec![2, 1, 1, 2, 2, 1, 1, 2], &vec![1, 2, 2, 1]).is_ok());
    // a grid of repeated, over-range heights fails on its first line
    match check_grid(&vec![1, 1, 1, 1, 1, 1, 1, 1], &vec![2, 2, 2, 2]) {
        Err(PuzzleError::DuplicateValue { line }) => assert_eq!(line, vec![2, 2]),
        other => panic!("expected a line-validation error, got {:?}", other),
    }
}

#[test]
fn checker_verdict_is_repeatable() {
    let rules = vec![3, 2, 1, 2, 4, 2, 4, 4, 2, 1, 3, 2, 3, 1, 2, 3, 4, 2, 2, 1];
    let grid = vec![
        1, 3, 5, 4, 2, 3, 5, 4, 2, 1, 2, 4, 1, 5, 3, 5, 2, 3, 1, 4, 4, 1, 2, 3, 5,
    ];
    assert_eq!(check_grid(&rules, &grid), check_grid(&rules, &grid));

    let bad_rules = vec![1, 1, 1, 1];
    let bad_grid = vec![2];
    assert_eq!(
        check_grid(&bad_rules, &bad_grid),
        check_grid(&bad_rules, &bad_grid)
    );
}
