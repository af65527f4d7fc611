use vstd::prelude::*;
use vstd::string::StrSliceExecFns;

use crate::errors::{ErrorModel, PuzzleError};

verus! {

/// The whitespace characters that separate tokens.
pub open spec fn is_space(c: char) -> bool {
    c == ' ' || c == '\t' || c == '\n' || c == '\r' || c == '\u{b}' || c == '\u{c}'
}

/// The decimal digits.
pub open spec fn is_digit(c: char) -> bool {
    '0' as u32 <= c as u32 && c as u32 <= '9' as u32
}

/// The numeric value of a decimal digit.
pub open spec fn digit_value(c: char) -> int {
    c as u32 - '0' as u32
}

pub open spec fn all_digits(t: Seq<char>) -> bool {
    forall|j: int| 0 <= j < t.len() ==> is_digit(t[j])
}

/// The value of a digit string, most significant digit first.
pub open spec fn digits_value(t: Seq<char>) -> int
    decreases t.len(),
{
    if t.len() == 0 {
        0
    } else {
        10 * digits_value(t.drop_last()) + digit_value(t.last())
    }
}

/// The number a token denotes: an optional sign followed by at least one
/// digit; `None` for any other shape.
pub open spec fn token_value(t: Seq<char>) -> Option<int> {
    if t.len() > 0 && (t[0] == '-' || t[0] == '+') {
        let digits = t.drop_first();
        if digits.len() > 0 && all_digits(digits) {
            Some(
                if t[0] == '-' {
                    -digits_value(digits)
                } else {
                    digits_value(digits)
                },
            )
        } else {
            None
        }
    } else if t.len() > 0 && all_digits(t) {
        Some(digits_value(t))
    } else {
        None
    }
}

/// The height a token parses to: its value, when that fits the height type.
pub open spec fn token_height(t: Seq<char>) -> Option<i32> {
    match token_value(t) {
        Some(v) => if i32::MIN <= v <= i32::MAX {
            Some(v as i32)
        } else {
            None
        },
        None => None,
    }
}

/// The end of the maximal run of non-whitespace characters starting at `i`.
pub open spec fn token_end(s: Seq<char>, i: int) -> int
    decreases s.len() - i,
{
    if i < 0 || i >= s.len() || is_space(s[i]) {
        i
    } else {
        token_end(s, i + 1)
    }
}

proof fn lemma_token_end(s: Seq<char>, i: int)
    requires
        0 <= i <= s.len(),
    ensures
        i <= token_end(s, i) <= s.len(),
        forall|k: int| i <= k < token_end(s, i) ==> !is_space(s[k]),
        token_end(s, i) == s.len() || is_space(s[token_end(s, i)]),
    decreases s.len() - i,
{
    if i < s.len() && !is_space(s[i]) {
        lemma_token_end(s, i + 1);
    }
}

proof fn lemma_token_end_unique(s: Seq<char>, i: int, e: int)
    requires
        0 <= i <= e <= s.len(),
        forall|k: int| i <= k < e ==> !is_space(s[k]),
        e == s.len() || is_space(s[e]),
    ensures
        token_end(s, i) == e,
    decreases e - i,
{
    if i < e {
        lemma_token_end_unique(s, i + 1, e);
    }
}

/// The parse of the input from position `i` on: the heights of the
/// remaining tokens in order, or the first token that is not a height.
pub open spec fn parse_model_from(s: Seq<char>, i: int) -> Result<Seq<i32>, Seq<char>>
    decreases s.len() - i,
    via parse_model_from_decreases
{
    if i < 0 || i >= s.len() {
        Ok(Seq::empty())
    } else if is_space(s[i]) {
        parse_model_from(s, i + 1)
    } else {
        let t = s.subrange(i, token_end(s, i));
        match token_height(t) {
            Some(v) => match parse_model_from(s, token_end(s, i)) {
                Ok(rest) => Ok(seq![v] + rest),
                Err(e) => Err(e),
            },
            None => Err(t),
        }
    }
}

#[via_fn]
proof fn parse_model_from_decreases(s: Seq<char>, i: int) {
    if 0 <= i && i < s.len() && !is_space(s[i]) {
        lemma_token_end(s, i + 1);
    }
}

/// The parse of a whole input text: what [`parse_str_to_i32`] returns.
pub open spec fn parse_model(s: Seq<char>) -> Result<Seq<i32>, Seq<char>> {
    parse_model_from(s, 0)
}

/// Whether a character separates tokens.
fn is_space_char(c: char) -> (r: bool)
    ensures
        r == is_space(c),
{
    c == ' ' || c == '\t' || c == '\n' || c == '\r' || c == '\u{b}' || c == '\u{c}'
}

proof fn lemma_digits_value_nonneg(t: Seq<char>)
    requires
        all_digits(t),
    ensures
        digits_value(t) >= 0,
    decreases t.len(),
{
    if t.len() > 0 {
        assert(all_digits(t.drop_last()));
        lemma_digits_value_nonneg(t.drop_last());
        assert(is_digit(t.last()));
    }
}

proof fn lemma_digits_value_prefix(t: Seq<char>, k: int)
    requires
        0 <= k <= t.len(),
        all_digits(t),
    ensures
        digits_value(t.take(k)) <= digits_value(t),
    decreases t.len() - k,
{
    if k < t.len() {
        assert(all_digits(t.take(k)));
        lemma_digits_value_nonneg(t.take(k));
        assert(t.take(k + 1).drop_last() =~= t.take(k));
        assert(t.take(k + 1).last() == t[k]);
        assert(is_digit(t[k]));
        assert(digits_value(t.take(k)) <= digits_value(t.take(k + 1)));
        lemma_digits_value_prefix(t, k + 1);
    } else {
        assert(t.take(k) =~= t);
    }
}

/// Parses the token `s[start..end]` as a height; `None` when it is not an
/// optionally signed digit string, or its value does not fit.
#[verifier::loop_isolation(false)]
fn parse_token(s: &str, start: usize, end: usize) -> (r: Option<i32>)
    requires
        start < end <= s@.len(),
    ensures
        r == token_height(s@.subrange(start as int, end as int)),
{
    let ghost t = s@.subrange(start as int, end as int);
    let first = s.get_char(start);
    assert(t[0] == first);
    let neg = first == '-';
    let has_sign = neg || first == '+';
    let mut j: usize = if has_sign {
        start + 1
    } else {
        start
    };
    let ghost dstart = j as int;
    proof {
        if has_sign {
            assert(t.drop_first() =~= s@.subrange(dstart, end as int));
        } else {
            assert(t =~= s@.subrange(dstart, end as int));
        }
    }
    if j == end {
        // a bare sign has no digits
        return None;
    }
    let mut acc: u64 = 0;
    while j < end
        invariant
            dstart <= j <= end <= s@.len(),
            0 <= dstart < end,
            acc <= 0x8000_0000,
            all_digits(s@.subrange(dstart, j as int)),
            acc == digits_value(s@.subrange(dstart, j as int)),
        decreases end - j,
    {
        let c = s.get_char(j);
        let cv = c as u32;
        if cv < 48 || cv > 57 {
            proof {
                let digits = s@.subrange(dstart, end as int);
                assert(!is_digit(digits[j - dstart]));
            }
            return None;
        }
        let d = (cv - 48) as u64;
        let ghost prefix = s@.subrange(dstart, j as int);
        acc = acc * 10 + d;
        proof {
            let prefix1 = s@.subrange(dstart, j + 1int);
            assert(prefix1.drop_last() =~= prefix);
            assert(prefix1.last() == s@[j as int]);
            assert(is_digit(s@[j as int]));
            assert(acc == digits_value(prefix1));
            assert(all_digits(prefix1));
        }
        j += 1;
        if acc > 0x8000_0000 {
            proof {
                let digits = s@.subrange(dstart, end as int);
                if all_digits(digits) {
                    assert(digits.take(j - dstart) =~= s@.subrange(dstart, j as int));
                    lemma_digits_value_prefix(digits, j - dstart);
                    assert(digits_value(digits) > 0x8000_0000);
                }
            }
            return None;
        }
    }
    proof {
        let digits = s@.subrange(dstart, end as int);
        lemma_digits_value_nonneg(digits);
    }
    if neg {
        if acc == 0x8000_0000 {
            Some(i32::MIN)
        } else {
            Some(-(acc as i32))
        }
    } else {
        if acc > 0x7FFF_FFFF {
            None
        } else {
            Some(acc as i32)
        }
    }
}

/// Splits the input on whitespace and parses every token as a base-10
/// signed height, in token order. Empty input yields an empty sequence.
/// The first token that is not a height is reported in the error, and
/// nothing is silently skipped or coerced.
pub fn parse_str_to_i32(text: &str) -> (r: Result<Vec<i32>, PuzzleError>)
    ensures
        match r {
            Ok(heights) => parse_model(text@) == Ok::<Seq<i32>, Seq<char>>(heights@),
            Err(e) => {
                &&& parse_model(text@) is Err
                &&& e@ == (ErrorModel::ParseError { token: parse_model(text@)->Err_0 })
            },
        },
{
    let n = text.unicode_len();
    let mut heights: Vec<i32> = Vec::new();
    let mut i: usize = 0;
    while i < n
        invariant
            i <= n,
            n == text@.len(),
            parse_model_from(text@, 0) == (match parse_model_from(text@, i as int) {
                Ok(rest) => Ok::<Seq<i32>, Seq<char>>(heights@ + rest),
                Err(e) => Err::<Seq<i32>, Seq<char>>(e),
            }),
        decreases n - i,
    {
        let c = text.get_char(i);
        if is_space_char(c) {
            i += 1;
        } else {
            let start = i;
            let mut j: usize = i;
            while j < n
                invariant
                    i <= j <= n,
                    n == text@.len(),
                    forall|k: int| i <= k < j ==> !is_space(text@[k]),
                ensures
                    i <= j <= n,
                    n == text@.len(),
                    forall|k: int| i <= k < j ==> !is_space(text@[k]),
                    j == n || is_space(text@[j as int]),
                decreases n - j,
            {
                if is_space_char(text.get_char(j)) {
                    break ;
                }
                j += 1;
            }
            proof {
                lemma_token_end_unique(text@, i as int, j as int);
            }
            match parse_token(text, start, j) {
                Some(v) => {
                    let ghost h0 = heights@;
                    heights.push(v);
                    proof {
                        if parse_model_from(text@, j as int) is Ok {
                            let rest = parse_model_from(text@, j as int)->Ok_0;
                            assert(h0 + (seq![v] + rest) =~= heights@ + rest);
                        }
                    }
                    i = j;
                },
                None => {
                    let token = text.substring_char(start, j).to_owned();
                    return Err(PuzzleError::ParseError { token });
                },
            }
        }
    }
    proof {
        assert(parse_model_from(text@, n as int) == Ok::<Seq<i32>, Seq<char>>(Seq::empty()));
        assert(heights@ + Seq::<i32>::empty() =~= heights@);
    }
    Ok(heights)
}

} // verus!
