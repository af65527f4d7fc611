use skyscraper::checker::{check_grid, check_rules};
use skyscraper::lines::{check_line, choice_skyscraper_line, get_skyscraper_line, Direction};
use skyscraper::parse::parse_str_to_i32;

#[test]
fn test_parse_str_to_i32() {
    assert_eq!(
        parse_str_to_i32(&String::from("1 2 3")).unwrap(),
        vec![1, 2, 3]
    );
    assert_eq!(parse_str_to_i32(&String::from("")).unwrap(), vec![]);
}

#[test]
fn test_check_rules() {
    assert!(check_rules(&vec![1, 1, 1, 1]).is_ok());
    assert!(check_rules(&vec![2, 1, 1, 2, 2, 1, 1, 2]).is_ok());

    assert!(check_rules(&vec![1]).is_err());
    assert!(check_rules(&vec![1, 2, 3, 4, 5]).is_err());
}

#[test]
fn test_get_skyscraper_line_one_square() {
    assert_eq!(get_skyscraper_line(&Direction::Up, 0, 1, &vec![1]), vec![1]);
    assert_eq!(
        get_skyscraper_line(&Direction::Down, 0, 1, &vec![1]),
        vec![1]
    );
    assert_eq!(
        get_skyscraper_line(&Direction::Left, 0, 1, &vec![1]),
        vec![1]
    );
    assert_eq!(
        get_skyscraper_line(&Direction::Right, 0, 1, &vec![1]),
        vec![1]
    );
}

#[test]
fn test_get_skyscraper_line_two_square() {
    let skyscraper_grid = vec![1, 2, 3, 4];

    assert_eq!(
        get_skyscraper_line(&Direction::Up, 0, 2, &skyscraper_grid),
        vec![1, 3]
    );
    assert_eq!(
        get_skyscraper_line(&Direction::Down, 0, 2, &skyscraper_grid),
        vec![3, 1]
    );
    assert_eq!(
        get_skyscraper_line(&Direction::Left, 0, 2, &skyscraper_grid),
        vec![1, 2]
    );
    assert_eq!(
        get_skyscraper_line(&Direction::Right, 0, 2, &skyscraper_grid),
        vec![2, 1]
    );

    assert_eq!(
        get_skyscraper_line(&Direction::Up, 1, 2, &skyscraper_grid),
        vec![2, 4]
    );
    assert_eq!(
        get_skyscraper_line(&Direction::Down, 1, 2, &skyscraper_grid),
        vec![4, 2]
    );
    assert_eq!(
        get_skyscraper_line(&Direction::Left, 1, 2, &skyscraper_grid),
        vec![3, 4]
    );
    assert_eq!(
        get_skyscraper_line(&Direction::Right, 1, 2, &skyscraper_grid),
        vec![4, 3]
    );
}

#[test]
fn test_check_line() {
    assert!(check_line(1, &vec![1]).is_ok());
    assert!(check_line(2, &vec![1]).is_err());

    assert!(check_line(1, &vec![4, 3, 2, 1]).is_ok());
    assert!(check_line(2, &vec![3, 4, 2, 1]).is_ok());
    assert!(check_line(3, &vec![2, 3, 4, 1]).is_ok());
    assert!(check_line(4, &vec![1, 2, 3, 4]).is_ok());

    assert!(check_line(4, &vec![4, 3, 2, 1]).is_err());
    assert!(check_line(3, &vec![3, 4, 2, 1]).is_err());
    assert!(check_line(2, &vec![2, 3, 4, 1]).is_err());
    assert!(check_line(1, &vec![1, 2, 3, 4]).is_err());
}

#[test]
fn test_choice_skyscraper_line() {
    let grid = vec![1];

    assert_eq!(choice_skyscraper_line(0, 1, &grid), Ok(vec![1]));
    assert_eq!(choice_skyscraper_line(1, 1, &grid), Ok(vec![1]));
    assert_eq!(choice_skyscraper_line(2, 1, &grid), Ok(vec![1]));
    assert_eq!(choice_skyscraper_line(3, 1, &grid), Ok(vec![1]));
    assert!(choice_skyscraper_line(4, 1, &grid).is_err());

    let grid = vec![1, 2, 2, 1];

    assert_eq!(choice_skyscraper_line(0, 2, &grid), Ok(vec![1, 2]));
    assert_eq!(choice_skyscraper_line(1, 2, &grid), Ok(vec![2, 1]));
    assert_eq!(choice_skyscraper_line(2, 2, &grid), Ok(vec![2, 1]));
    assert_eq!(choice_skyscraper_line(3, 2, &grid), Ok(vec![1, 2]));
    assert_eq!(choice_skyscraper_line(4, 2, &grid), Ok(vec![1, 2]));
    assert_eq!(choice_skyscraper_line(5, 2, &grid), Ok(vec![2, 1]));
    assert_eq!(choice_skyscraper_line(6, 2, &grid), Ok(vec![2, 1]));
    assert_eq!(choice_skyscraper_line(7, 2, &grid), Ok(vec![1, 2]));
    assert!(choice_skyscraper_line(8, 2, &grid).is_err());

    let grid = vec![
        1, 3, 5, 4, 2, 3, 5, 4, 2, 1, 2, 4, 1, 5, 3, 5, 2, 3, 1, 4, 4, 1, 2, 3, 5,
    ];

    assert_eq!(choice_skyscraper_line(0, 5, &grid), Ok(vec![1, 3, 2, 5, 4]));
}

#[test]
fn test_check_grid() {
    let rules = vec![1, 1, 1, 1];
    let grid = vec![1];

    assert!(check_grid(&rules, &grid).is_ok());

    let rules = vec![2, 1, 1, 2, 2, 1, 1, 2];
    let grid = vec![1, 2, 2, 1];

    assert!(check_grid(&rules, &grid).is_ok());

    let rules = vec![3, 2, 1, 2, 4, 2, 4, 4, 2, 1, 3, 2, 3, 1, 2, 3, 4, 2, 2, 1];
    let grid = vec![
        1, 3, 5, 4, 2, 3, 5, 4, 2, 1, 2, 4, 1, 5, 3, 5, 2, 3, 1, 4, 4, 1, 2, 3, 5,
    ];

    assert!(check_grid(&rules, &grid).is_ok());

    let rules = vec![1, 2, 3, 4];
    let grid = vec![1];

    assert!(check_grid(&rules, &grid).is_err());

    let rules = vec![1, 1, 1, 1];
    let grid = vec![2];

    assert!(check_grid(&rules, &grid).is_err());

    let rules = vec![1, 1, 1, 1, 1, 1, 1, 1];
    let grid = vec![2, 2, 2, 2];

    assert!(check_grid(&rules, &grid).is_err());
}
