//! What holds of every outcome of the "cw" renderer and of every pattern
//! it draws.

use vstd::prelude::*;
use crate::text::transform::buffer::spaced;
use crate::text::transform::cw::{
    bottom_row, cw_art, cw_outcome, cw_rows, gutter, is_cw_outcome, top_row, MAX_LEN, MIN_LEN,
};
use crate::text::transform::decimal::decimal_digits;
use crate::text::transform::lines::{is_line, lemma_split_join, split_lines};
use crate::text::transform::utils::canonical;
use crate::text::transform::TransformResult;

verus! {

/// A text of fewer than three or more than a hundred characters is refused,
/// always with the same message; every other text is rendered.
pub proof fn lemma_length_boundary(input: Seq<char>)
    ensures
        MIN_LEN <= input.len() <= MAX_LEN ==> cw_outcome(input) is Ok,
        input.len() < MIN_LEN || input.len() > MAX_LEN ==> cw_outcome(input) is Err
            && cw_outcome(input)->Err_0.message()
            == "Text must contain from 3 up to 100 characters"@,
{
    reveal_strlit("Text must contain from 3 up to 100 characters");
    reveal_strlit("Text must contain from ");
    reveal_strlit(" up to ");
    reveal_strlit(" characters");
    reveal_with_fuel(decimal_digits, 3);
    assert(decimal_digits(3) =~= seq!['3']);
    assert(decimal_digits(100) =~= seq!['1', '0', '0']);
    if input.len() < MIN_LEN || input.len() > MAX_LEN {
        assert(cw_outcome(input)->Err_0.message()
            =~= "Text must contain from 3 up to 100 characters"@);
    }
}

/// The width of every row follows from the length of the word alone: the
/// first row is `4n - 2` characters wide, the other rows of the top block
/// `2n - 1`, and the middle row and every row of the bottom block `4n - 3`.
pub proof fn lemma_row_widths(c: Seq<char>, r: int)
    requires
        MIN_LEN <= c.len() <= MAX_LEN,
        0 <= r < 2 * c.len(),
    ensures
        cw_rows(c).len() == 2 * c.len(),
        r == 0 ==> cw_rows(c)[r].len() == 4 * c.len() - 2,
        0 < r < c.len() ==> cw_rows(c)[r].len() == 2 * c.len() - 1,
        c.len() <= r ==> cw_rows(c)[r].len() == 4 * c.len() - 3,
{
}

/// No row holds a line break unless the word itself does.
pub proof fn lemma_rows_are_lines(c: Seq<char>)
    requires
        MIN_LEN <= c.len() <= MAX_LEN,
        is_line(c),
    ensures
        forall|r: int| 0 <= r < cw_rows(c).len() ==> is_line(#[trigger] cw_rows(c)[r]),
{
    let n = c.len() as int;
    assert forall|r: int| 0 <= r < cw_rows(c).len() implies is_line(#[trigger] cw_rows(c)[r]) by {
        let row = cw_rows(c)[r];
        assert forall|i: int| 0 <= i < row.len() implies row[i] != '\n' by {
            if r == 0 {
                let tail = spaced(c.reverse());
                let k = i - 1 - gutter(n as nat);
                if k >= 0 && k % 2 == 0 {
                    assert(row[i] == tail[k]);
                    assert(tail[k] == c[n - 1 - k / 2]);
                }
            } else if r == n {
                let head = spaced(c.skip(1).reverse());
                if i < head.len() {
                    if i % 2 == 0 {
                        assert(row[i] == c.skip(1)[n - 2 - i / 2]);
                    }
                } else {
                    let k = i - head.len();
                    if k % 2 == 0 {
                        assert(row[i] == c[k / 2]);
                    }
                }
            } else if r == 2 * n - 1 {
                if i < 2 * n && i % 2 == 0 {
                    assert(row[i] == c[i / 2]);
                }
            }
        }
    }
}

/// A word of `n` characters, none of them a line break, is printed on
/// exactly `2n` lines, and those lines are the rows of the pattern.
pub proof fn lemma_lines_are_rows(c: Seq<char>)
    requires
        MIN_LEN <= c.len() <= MAX_LEN,
        is_line(c),
    ensures
        split_lines(cw_art(c)) == cw_rows(c),
        split_lines(cw_art(c)).len() == 2 * c.len(),
{
    lemma_rows_are_lines(c);
    lemma_split_join(cw_rows(c));
}

/// Every accepted input of `n` characters whose canonical form holds no line
/// break is rendered on exactly `2n` lines.
pub proof fn lemma_line_count(input: Seq<char>)
    requires
        MIN_LEN <= input.len() <= MAX_LEN,
        is_line(canonical(input)),
    ensures
        cw_outcome(input) is Ok,
        split_lines(cw_outcome(input)->Ok_0).len() == 2 * input.len(),
{
    lemma_lines_are_rows(canonical(input));
}

/// Texts with one canonical form are rendered alike. In particular a text
/// that is already in upper case and any lower-case spelling of it, whose
/// canonical form is that text, give the same outcome.
pub proof fn lemma_case_insensitive(first: Seq<char>, second: Seq<char>)
    requires
        canonical(first) == canonical(second),
    ensures
        cw_outcome(first) == cw_outcome(second),
{
    assert(first.len() == canonical(first).len());
    assert(second.len() == canonical(second).len());
}

/// One input has one outcome: two results that the renderer may return for
/// the same text are both a pattern, character for character the same, or
/// both the same error.
pub proof fn lemma_deterministic(
    input: Seq<char>,
    first: TransformResult<String>,
    second: TransformResult<String>,
)
    requires
        is_cw_outcome(input, first),
        is_cw_outcome(input, second),
    ensures
        match (first, second) {
            (Ok(x), Ok(y)) => x@ == y@,
            (Err(e), Err(f)) => e == f,
            _ => false,
        },
{
}

/// The pattern spells the word along its edges: row `a` of the top block
/// starts with `c[a]`; the last row of the bottom block starts with the
/// whole word forwards, spaced out; and the first row of the top block ends
/// with the whole word backwards, spaced out, so that column `2a` of the one
/// holds the character that column `2(n - 1 - a)` of the other's ending holds.
pub proof fn lemma_symmetry(c: Seq<char>, a: int)
    requires
        MIN_LEN <= c.len() <= MAX_LEN,
        0 <= a < c.len(),
    ensures
        cw_rows(c)[a][0] == c[a],
        cw_rows(c)[2 * c.len() - 1].take(2 * c.len() as int) == spaced(c),
        cw_rows(c)[0].skip(2 * c.len() - 2) == spaced(c.reverse()),
        cw_rows(c)[2 * c.len() - 1][2 * a] == c[a],
        cw_rows(c)[0][2 * c.len() - 2 + 2 * (c.len() - 1 - a)] == c[a],
{
    let n = c.len() as int;
    let last = cw_rows(c)[2 * n - 1];
    let first = cw_rows(c)[0];
    assert(last == bottom_row(c, n - 1));
    assert(first == top_row(c, 0));
    assert(last.take(2 * n) =~= spaced(c));
    assert(first.skip(2 * n - 2) =~= spaced(c.reverse()));
    assert(last[2 * a] == spaced(c)[2 * a]);
    let k = 2 * (n - 1 - a);
    assert(first[2 * n - 2 + k] == spaced(c.reverse())[k]);
    assert(spaced(c.reverse())[k] == c.reverse()[k / 2]);
}

} // verus!
