use vstd::prelude::*;

use crate::errors::{outcome_model, ErrorModel, PuzzleError};

verus! {

/// The end of the grid an observer looks from. A line of sight is read in
/// the order that observer sees the buildings, nearest first.
#[derive(Debug, Clone, Copy, PartialEq, Eq)]
pub enum Direction {
    Up,
    Down,
    Left,
    Right,
}

/// The line of sight over an `n` by `n` grid stored row-major: column
/// `index` read top-down (`Up`) or bottom-up (`Down`), row `index` read
/// left-to-right (`Left`) or right-to-left (`Right`).
pub open spec fn line_model(direction: Direction, index: int, n: int, grid: Seq<i32>) -> Seq<i32> {
    match direction {
        Direction::Up => Seq::new(n as nat, |k: int| grid[k * n + index]),
        Direction::Down => Seq::new(n as nat, |k: int| grid[(n - 1 - k) * n + index]),
        Direction::Left => Seq::new(n as nat, |k: int| grid[index * n + k]),
        Direction::Right => Seq::new(n as nat, |k: int| grid[index * n + (n - 1 - k)]),
    }
}

/// Extracts the line of sight for one observer. The scan order already
/// encodes the viewing direction: the nearest building comes first.
pub fn get_skyscraper_line(
    direction: &Direction,
    index: usize,
    grid_len: usize,
    skyscraper_grid: &Vec<i32>,
) -> (line: Vec<i32>)
    requires
        index < grid_len,
        skyscraper_grid.len() == grid_len * grid_len,
    ensures
        line@ == line_model(*direction, index as int, grid_len as int, skyscraper_grid@),
{
    let n = grid_len;
    let mut line: Vec<i32> = Vec::new();
    match direction {
        Direction::Up => {
            let mut k: usize = 0;
            while k < n
                invariant
                    k <= n,
                    index < n,
                    skyscraper_grid.len() == n * n,
                    skyscraper_grid@.len() == n * n,
                    line@.len() == k,
                    forall|j: int| 0 <= j < k ==> line@[j] == skyscraper_grid@[j * n + index],
                decreases n - k,
            {
                assert(k * n + index < n * n) by (nonlinear_arith)
                    requires
                        k < n,
                        index < n,
                ;
                line.push(skyscraper_grid[k * n + index]);
                k += 1;
            }
        },
        Direction::Down => {
            let mut k: usize = 0;
            while k < n
                invariant
                    k <= n,
                    index < n,
                    skyscraper_grid.len() == n * n,
                    skyscraper_grid@.len() == n * n,
                    line@.len() == k,
                    forall|j: int| 0 <= j < k ==> line@[j] == skyscraper_grid@[(n - 1 - j) * n
                        + index],
                decreases n - k,
            {
                assert((n - 1 - k) * n + index < n * n) by (nonlinear_arith)
                    requires
                        k < n,
                        index < n,
                ;
                line.push(skyscraper_grid[(n - 1 - k) * n + index]);
                k += 1;
            }
        },
        Direction::Left => {
            let mut k: usize = 0;
            while k < n
                invariant
                    k <= n,
                    index < n,
                    skyscraper_grid.len() == n * n,
                    skyscraper_grid@.len() == n * n,
                    line@.len() == k,
                    forall|j: int| 0 <= j < k ==> line@[j] == skyscraper_grid@[index * n + j],
                decreases n - k,
            {
                assert(index * n + k < n * n) by (nonlinear_arith)
                    requires
                        k < n,
                        index < n,
                ;
                line.push(skyscraper_grid[index * n + k]);
                k += 1;
            }
        },
        Direction::Right => {
            let mut k: usize = 0;
            while k < n
                invariant
                    k <= n,
                    index < n,
                    skyscraper_grid.len() == n * n,
                    skyscraper_grid@.len() == n * n,
                    line@.len() == k,
                    forall|j: int| 0 <= j < k ==> line@[j] == skyscraper_grid@[index * n + (n - 1
                        - j)],
                decreases n - k,
            {
                assert(index * n + (n - 1 - k) < n * n) by (nonlinear_arith)
                    requires
                        k < n,
                        index < n,
                ;
                line.push(skyscraper_grid[index * n + (n - 1 - k)]);
                k += 1;
            }
        },
    }
    proof {
        assert(line@ =~= line_model(*direction, index as int, n as int, skyscraper_grid@));
    }
    line
}

/// The line of sight belonging to flat clue index `i`: the first `n` clues
/// look from above, the next `n` from below, then from the left, then from
/// the right.
pub open spec fn selected_line(i: int, n: int, grid: Seq<i32>) -> Seq<i32> {
    if i < n {
        line_model(Direction::Up, i, n, grid)
    } else if i < 2 * n {
        line_model(Direction::Down, i - n, n, grid)
    } else if i < 3 * n {
        line_model(Direction::Left, i - 2 * n, n, grid)
    } else {
        line_model(Direction::Right, i - 3 * n, n, grid)
    }
}

/// Maps a flat clue index to its direction and row/column and extracts the
/// line; an index at or past `4 * grid_len` is a driving-logic bug and is
/// reported rather than reached.
pub fn choice_skyscraper_line(i: usize, grid_len: usize, skyscraper_grid: &Vec<i32>) -> (r: Result<
    Vec<i32>,
    PuzzleError,
>)
    requires
        skyscraper_grid.len() == grid_len * grid_len,
    ensures
        i < 4 * grid_len ==> (r matches Ok(line) && line@ == selected_line(
            i as int,
            grid_len as int,
            skyscraper_grid@,
        )),
        i >= 4 * grid_len ==> r == Err::<Vec<i32>, PuzzleError>(PuzzleError::InternalIndexError),
{
    proof {
        if grid_len >= 4 {
            assert(4 * grid_len <= grid_len * grid_len) by (nonlinear_arith)
                requires
                    grid_len >= 4,
            ;
        }
    }
    if i < grid_len {
        Ok(get_skyscraper_line(&Direction::Up, i, grid_len, skyscraper_grid))
    } else if i < 2 * grid_len {
        Ok(get_skyscraper_line(&Direction::Down, i - grid_len, grid_len, skyscraper_grid))
    } else if i < 3 * grid_len {
        Ok(get_skyscraper_line(&Direction::Left, i - 2 * grid_len, grid_len, skyscraper_grid))
    } else if i < 4 * grid_len {
        Ok(get_skyscraper_line(&Direction::Right, i - 3 * grid_len, grid_len, skyscraper_grid))
    } else {
        Err(PuzzleError::InternalIndexError)
    }
}

/// Whether some height occurs twice in a line.
pub open spec fn has_duplicate(line: Seq<i32>) -> bool {
    exists|p: int, q: int| 0 <= p < q < line.len() && line[p] == line[q]
}

/// Whether some height lies outside `1..=N`, where `N` is the line length.
pub open spec fn has_out_of_range(line: Seq<i32>) -> bool {
    exists|p: int| 0 <= p < line.len() && (line[p] <= 0 || line[p] as int > line.len() as int)
}

/// The verdict of [`validate_line`]: a duplicate is reported before an
/// out-of-range height.
pub open spec fn validate_line_model(line: Seq<i32>) -> Result<(), ErrorModel> {
    if has_duplicate(line) {
        Err(ErrorModel::DuplicateValue { line })
    } else if has_out_of_range(line) {
        Err(ErrorModel::OutOfRangeValue { line })
    } else {
        Ok(())
    }
}

/// An owned copy of a line, for error payloads.
fn copy_line(line: &Vec<i32>) -> (r: Vec<i32>)
    ensures
        r@ == line@,
{
    let mut r: Vec<i32> = Vec::new();
    let mut i: usize = 0;
    while i < line.len()
        invariant
            i <= line@.len(),
            r@.len() == i,
            forall|j: int| 0 <= j < i ==> r@[j] == line@[j],
        decreases line@.len() - i,
    {
        r.push(line[i]);
        i += 1;
    }
    proof {
        assert(r@ =~= line@);
    }
    r
}

/// A correct line holds pairwise distinct heights, all inside `1..=N`:
/// exactly a permutation of `1..=N`. Gates the values only, not the
/// visibility count.
pub fn validate_line(skyscraper_line: &Vec<i32>) -> (r: Result<(), PuzzleError>)
    ensures
        outcome_model(r) == validate_line_model(skyscraper_line@),
{
    let n = skyscraper_line.len();
    let mut p: usize = 0;
    while p < n
        invariant
            p <= n,
            n == skyscraper_line@.len(),
            forall|a: int, b: int|
                0 <= a < b < n && a < p ==> skyscraper_line@[a] != skyscraper_line@[b],
        decreases n - p,
    {
        let mut q: usize = p + 1;
        while q < n
            invariant
                p < n,
                p + 1 <= q <= n,
                n == skyscraper_line@.len(),
                forall|b: int| p < b < q ==> skyscraper_line@[p as int] != skyscraper_line@[b],
            decreases n - q,
        {
            if skyscraper_line[p] == skyscraper_line[q] {
                return Err(PuzzleError::DuplicateValue { line: copy_line(skyscraper_line) });
            }
            q += 1;
        }
        p += 1;
    }
    let mut j: usize = 0;
    while j < n
        invariant
            j <= n,
            n == skyscraper_line@.len(),
            !has_duplicate(skyscraper_line@),
            forall|a: int|
                0 <= a < j ==> (skyscraper_line@[a] > 0 && skyscraper_line@[a] as int <= n as int),
        decreases n - j,
    {
        let v = skyscraper_line[j];
        if v <= 0 || (v as u64) > (n as u64) {
            return Err(PuzzleError::OutOfRangeValue { line: copy_line(skyscraper_line) });
        }
        j += 1;
    }
    Ok(())
}

/// The largest height among the first `i` buildings of a line, or 0 before
/// any building is seen. Valid heights start at 1, so 0 sits below all.
pub open spec fn max_prefix(line: Seq<i32>, i: int) -> int
    decreases i,
{
    if i <= 0 {
        0
    } else if line[i - 1] as int > max_prefix(line, i - 1) {
        line[i - 1] as int
    } else {
        max_prefix(line, i - 1)
    }
}

/// How many of the first `i` buildings are visible: a building is visible
/// exactly when it is taller than every building before it in scan order.
pub open spec fn visible_prefix(line: Seq<i32>, i: int) -> int
    decreases i,
{
    if i <= 0 {
        0
    } else {
        visible_prefix(line, i - 1) + if line[i - 1] as int > max_prefix(line, i - 1) {
            1int
        } else {
            0int
        }
    }
}

/// The number of buildings an observer sees along a whole line.
pub open spec fn visible_count(line: Seq<i32>) -> int {
    visible_prefix(line, line.len() as int)
}

/// The verdict of [`check_line`].
pub open spec fn check_line_model(rule: i32, line: Seq<i32>) -> Result<(), ErrorModel> {
    if visible_count(line) == rule as int {
        Ok(())
    } else {
        Err(
            ErrorModel::RuleMismatch {
                expected: rule as int,
                actual: visible_count(line),
                line,
            },
        )
    }
}

/// Counts the buildings visible along a line and compares the count with
/// the clue.
pub fn check_line(rule: i32, skyscraper_line: &Vec<i32>) -> (r: Result<(), PuzzleError>)
    ensures
        outcome_model(r) == check_line_model(rule, skyscraper_line@),
{
    let mut count_skyscraper: i32 = 0;
    let mut max_skyscraper_size: i32 = 0;
    let n = skyscraper_line.len();
    let mut i: usize = 0;
    while i < n
        invariant
            i <= n,
            n == skyscraper_line@.len(),
            count_skyscraper as int == visible_prefix(skyscraper_line@, i as int),
            max_skyscraper_size as int == max_prefix(skyscraper_line@, i as int),
            0 <= count_skyscraper <= max_skyscraper_size,
        decreases n - i,
    {
        let v = skyscraper_line[i];
        if v > max_skyscraper_size {
            max_skyscraper_size = v;
            count_skyscraper = count_skyscraper + 1;
        }
        i += 1;
    }
    if count_skyscraper == rule {
        Ok(())
    } else {
        Err(
            PuzzleError::RuleMismatch {
                expected: rule,
                actual: count_skyscraper,
                line: copy_line(skyscraper_line),
            },
        )
    }
}

proof fn lemma_increasing_prefix(line: Seq<i32>, i: int)
    requires
        0 <= i <= line.len(),
        forall|p: int, q: int| 0 <= p < q < line.len() ==> line[p] < line[q],
        forall|p: int| 0 <= p < line.len() ==> line[p] > 0,
    ensures
        visible_prefix(line, i) == i,
        max_prefix(line, i) == if i == 0 {
            0int
        } else {
            line[i - 1] as int
        },
    decreases i,
{
    if i > 0 {
        lemma_increasing_prefix(line, i - 1);
    }
}

/// Visibility count law, rising half: along a strictly increasing line of
/// valid heights every building is visible, so the count is the length.
pub proof fn lemma_increasing_line_all_visible(line: Seq<i32>)
    requires
        forall|p: int, q: int| 0 <= p < q < line.len() ==> line[p] < line[q],
        forall|p: int| 0 <= p < line.len() ==> line[p] > 0,
    ensures
        visible_count(line) == line.len(),
{
    lemma_increasing_prefix(line, line.len() as int);
}

proof fn lemma_decreasing_prefix(line: Seq<i32>, i: int)
    requires
        1 <= i <= line.len(),
        forall|p: int, q: int| 0 <= p < q < line.len() ==> line[p] > line[q],
        line[0] > 0,
    ensures
        visible_prefix(line, i) == 1,
        max_prefix(line, i) == line[0] as int,
    decreases i,
{
    if i > 1 {
        lemma_decreasing_prefix(line, i - 1);
    } else {
        assert(visible_prefix(line, 0) == 0);
        assert(max_prefix(line, 0) == 0);
    }
}

/// Visibility count law, falling half: along a strictly decreasing line
/// whose first height is valid, only the first building is visible.
pub proof fn lemma_decreasing_line_one_visible(line: Seq<i32>)
    requires
        line.len() >= 1,
        forall|p: int, q: int| 0 <= p < q < line.len() ==> line[p] > line[q],
        line[0] > 0,
    ensures
        visible_count(line) == 1,
{
    lemma_decreasing_prefix(line, line.len() as int);
}

/// Direction symmetry: the line seen from below a column is the reverse of
/// the line seen from above it.
pub proof fn lemma_up_down_reverse(index: int, n: int, grid: Seq<i32>)
    requires
        0 <= index < n,
        grid.len() == n * n,
    ensures
        line_model(Direction::Down, index, n, grid) == line_model(
            Direction::Up,
            index,
            n,
            grid,
        ).reverse(),
{
    assert(line_model(Direction::Down, index, n, grid) =~= line_model(
        Direction::Up,
        index,
        n,
        grid,
    ).reverse());
}

/// Direction symmetry: the line seen from the right of a row is the reverse
/// of the line seen from its left.
pub proof fn lemma_left_right_reverse(index: int, n: int, grid: Seq<i32>)
    requires
        0 <= index < n,
        grid.len() == n * n,
    ensures
        line_model(Direction::Right, index, n, grid) == line_model(
            Direction::Left,
            index,
            n,
            grid,
        ).reverse(),
{
    assert(line_model(Direction::Right, index, n, grid) =~= line_model(
        Direction::Left,
        index,
        n,
        grid,
    ).reverse());
}

} // verus!
