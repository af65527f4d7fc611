use vstd::prelude::*;

use crate::errors::{outcome_model, ErrorModel, PuzzleError};
use crate::lines::{
    check_line, check_line_model, choice_skyscraper_line, has_duplicate, has_out_of_range,
    line_model, selected_line, validate_line, validate_line_model, visible_count, Direction,
};
use crate::lines::{lemma_left_right_reverse, lemma_up_down_reverse};

verus! {

/// Structural check on the clue sequence: every row and column of a square
/// grid is clued from both of its ends, four clue groups of `N` in all, so
/// the clue count must be a multiple of four.
pub fn check_rules(skyscraper_rules: &Vec<i32>) -> (r: Result<(), PuzzleError>)
    ensures
        r == (if skyscraper_rules@.len() % 4 == 0 {
            Ok::<(), PuzzleError>(())
        } else {
            Err::<(), PuzzleError>(PuzzleError::InvalidRuleCount)
        }),
{
    if skyscraper_rules.len() % 4 == 0 {
        Ok(())
    } else {
        Err(PuzzleError::InvalidRuleCount)
    }
}

/// The verdict on one clue: its line must be a permutation of `1..=N`,
/// and the visibility count along it must equal the clue.
pub open spec fn clue_model(rule: i32, line: Seq<i32>) -> Result<(), ErrorModel> {
    match validate_line_model(line) {
        Err(e) => Err(e),
        Ok(()) => check_line_model(rule, line),
    }
}

/// The verdict on the clues from index `i` on, in ascending index order,
/// stopping at the first failure. An index at or past `4 * n` cannot be
/// mapped to a line and is a driving-logic bug.
pub open spec fn clues_model_from(rules: Seq<i32>, grid: Seq<i32>, n: int, i: int) -> Result<
    (),
    ErrorModel,
>
    decreases rules.len() - i,
{
    if i < 0 || i >= rules.len() {
        Ok(())
    } else if i >= 4 * n {
        Err(ErrorModel::InternalIndexError)
    } else {
        match clue_model(rules[i], selected_line(i, n, grid)) {
            Err(e) => Err(e),
            Ok(()) => clues_model_from(rules, grid, n, i + 1),
        }
    }
}

/// The verdict of [`check_grid`]: the grid must hold `N * N` heights for
/// `N` = a quarter of the clue count, and every clue must pass.
pub open spec fn check_grid_model(rules: Seq<i32>, grid: Seq<i32>) -> Result<(), ErrorModel> {
    let n = rules.len() as int / 4;
    if n * n != grid.len() {
        Err(ErrorModel::InvalidGridSize)
    } else {
        clues_model_from(rules, grid, n, 0)
    }
}

proof fn lemma_clues_ok(rules: Seq<i32>, grid: Seq<i32>, n: int, i: int)
    requires
        0 <= i <= rules.len(),
    ensures
        clues_model_from(rules, grid, n, i) is Ok <==> (forall|j: int|
            i <= j < rules.len() ==> j < 4 * n && clue_model(
                rules[j],
                selected_line(j, n, grid),
            ) is Ok),
    decreases rules.len() - i,
{
    if i < rules.len() {
        lemma_clues_ok(rules, grid, n, i + 1);
    }
}

/// Checks a solved puzzle: derives the side length from the clue count,
/// validates the grid size, then checks each of the clues in ascending
/// index order, stopping at the first failure.
pub fn check_grid(skyscraper_rules: &Vec<i32>, skyscraper_grid: &Vec<i32>) -> (r: Result<
    (),
    PuzzleError,
>)
    ensures
        outcome_model(r) == check_grid_model(skyscraper_rules@, skyscraper_grid@),
        r is Ok <==> ({
            let n = skyscraper_rules@.len() as int / 4;
            &&& n * n == skyscraper_grid@.len()
            &&& forall|j: int|
                0 <= j < skyscraper_rules@.len() ==> j < 4 * n && clue_model(
                    skyscraper_rules@[j],
                    selected_line(j, n, skyscraper_grid@),
                ) is Ok
        }),
{
    let grid_len = skyscraper_rules.len() / 4;
    proof {
        lemma_clues_ok(skyscraper_rules@, skyscraper_grid@, grid_len as int, 0);
    }
    proof {
        assert((grid_len as int) * (grid_len as int) <= u128::MAX) by (nonlinear_arith)
            requires
                grid_len <= u64::MAX,
        ;
    }
    if (grid_len as u128) * (grid_len as u128) != (skyscraper_grid.len() as u128) {
        return Err(PuzzleError::InvalidGridSize);
    }
    let n_rules = skyscraper_rules.len();
    let mut i: usize = 0;
    while i < n_rules
        invariant
            i <= n_rules,
            n_rules == skyscraper_rules@.len(),
            grid_len == skyscraper_rules@.len() as int / 4,
            skyscraper_grid.len() == grid_len * grid_len,
            clues_model_from(skyscraper_rules@, skyscraper_grid@, grid_len as int, 0)
                == clues_model_from(skyscraper_rules@, skyscraper_grid@, grid_len as int, i as int),
        decreases n_rules - i,
    {
        let rule = skyscraper_rules[i];
        let line = match choice_skyscraper_line(i, grid_len, skyscraper_grid) {
            Ok(line) => line,
            Err(e) => {
                return Err(e);
            },
        };
        match validate_line(&line) {
            Ok(()) => (),
            Err(e) => {
                return Err(e);
            },
        }
        match check_line(rule, &line) {
            Ok(()) => (),
            Err(e) => {
                return Err(e);
            },
        }
        i += 1;
    }
    proof {
        lemma_clues_ok(skyscraper_rules@, skyscraper_grid@, grid_len as int, 0);
    }
    Ok(())
}

/// Idempotence law: the verdict is a function of the clue and grid
/// sequences alone, so two checks of the same immutable pair — two values
/// each meeting [`check_grid`]'s contract — agree.
pub proof fn lemma_verdict_repeatable(
    rules: Seq<i32>,
    grid: Seq<i32>,
    r1: Result<(), PuzzleError>,
    r2: Result<(), PuzzleError>,
)
    requires
        outcome_model(r1) == check_grid_model(rules, grid),
        outcome_model(r2) == check_grid_model(rules, grid),
    ensures
        outcome_model(r1) == outcome_model(r2),
{
}

/// A line is a permutation of `1..=N` exactly when its reverse is: both
/// duplicates and out-of-range heights survive reversal.
pub proof fn lemma_validate_line_reverse(line: Seq<i32>)
    ensures
        validate_line_model(line.reverse()) is Ok <==> validate_line_model(line) is Ok,
{
    let n = line.len() as int;
    let rev = line.reverse();
    if has_duplicate(line) {
        let (p, q) = choose|p: int, q: int| 0 <= p < q < n && line[p] == line[q];
        assert(rev[n - 1 - q] == line[q] && rev[n - 1 - p] == line[p]);
        assert(has_duplicate(rev));
    }
    if has_duplicate(rev) {
        let (p, q) = choose|p: int, q: int| 0 <= p < q < n && rev[p] == rev[q];
        assert(rev[p] == line[n - 1 - p] && rev[q] == line[n - 1 - q]);
        assert(has_duplicate(line));
    }
    if has_out_of_range(line) {
        let p = choose|p: int| 0 <= p < n && (line[p] <= 0 || line[p] as int > n);
        assert(rev[n - 1 - p] == line[p]);
        assert(has_out_of_range(rev));
    }
    if has_out_of_range(rev) {
        let p = choose|p: int| 0 <= p < n && (rev[p] <= 0 || rev[p] as int > n);
        assert(rev[p] == line[n - 1 - p]);
        assert(has_out_of_range(line));
    }
}

/// Success law: for a Latin-square-like grid — every row and every column
/// a permutation of `1..=N` — the checker succeeds exactly when all
/// `4 * N` visibility counts match their clues.
pub proof fn lemma_success_iff_counts_match(rules: Seq<i32>, grid: Seq<i32>, n: int)
    requires
        n == rules.len() as int / 4,
        rules.len() % 4 == 0,
        n * n == grid.len(),
        forall|c: int|
            0 <= c < n ==> validate_line_model(
                #[trigger] line_model(Direction::Up, c, n, grid),
            ) is Ok,
        forall|c: int|
            0 <= c < n ==> validate_line_model(
                #[trigger] line_model(Direction::Left, c, n, grid),
            ) is Ok,
    ensures
        check_grid_model(rules, grid) is Ok <==> (forall|j: int|
            0 <= j < rules.len() ==> visible_count(selected_line(j, n, grid)) == rules[j] as int),
{
    lemma_clues_ok(rules, grid, n, 0);
    assert(rules.len() == 4 * n);
    assert forall|j: int|
        0 <= j < rules.len() implies validate_line_model(
        #[trigger] selected_line(j, n, grid),
    ) is Ok by {
        if j < n {
            assert(selected_line(j, n, grid) == line_model(Direction::Up, j, n, grid));
        } else if j < 2 * n {
            lemma_up_down_reverse(j - n, n, grid);
            lemma_validate_line_reverse(line_model(Direction::Up, j - n, n, grid));
            assert(selected_line(j, n, grid) == line_model(Direction::Down, j - n, n, grid));
        } else if j < 3 * n {
            assert(selected_line(j, n, grid) == line_model(Direction::Left, j - 2 * n, n, grid));
        } else {
            lemma_left_right_reverse(j - 3 * n, n, grid);
            lemma_validate_line_reverse(line_model(Direction::Left, j - 3 * n, n, grid));
            assert(selected_line(j, n, grid) == line_model(Direction::Right, j - 3 * n, n, grid));
        }
    }
}

} // verus!
