//! The "cw" renderer: a word laid out as a pinwheel around its own spelling.

use vstd::prelude::*;
use vstd::string::StrSliceExecFns;
use crate::text::transform::buffer::{
    lemma_spaced_push, push_char, push_spaced, push_spaced_rev, push_spaces, spaced, spaces,
};
use crate::text::transform::lines::{join_lines, lemma_join_push};
use crate::text::transform::utils::{canonical, collect_uppercase_chars, validate_len};
use crate::text::transform::{TransformError, TransformResult};

verus! {

/// The fewest characters the renderer accepts.
pub const MIN_LEN: usize = 3;

/// The most characters the renderer accepts.
pub const MAX_LEN: usize = 100;

/// The width of the run of spaces between the two characters of a row, for a
/// word of `n` characters.
pub open spec fn gutter(n: nat) -> nat
    recommends
        n >= 2,
{
    ((n - 2) * 2 + 1) as nat
}

/// Row `a` of the top block, for `0 <= a < c.len()`: the character `c[a]`,
/// the gutter, and then either the whole word backwards and spaced out (on
/// the first row) or the single character `c[n - 1 - a]`.
pub open spec fn top_row(c: Seq<char>, a: int) -> Seq<char> {
    let n = c.len();
    if a == 0 {
        seq![c[0]] + spaces(gutter(n)) + spaced(c.reverse())
    } else {
        seq![c[a]] + spaces(gutter(n)) + seq![c[n - 1 - a]]
    }
}

/// The middle row: the word backwards without its first character, spaced
/// out, and then the word forwards with a space between its characters.
pub open spec fn middle_row(c: Seq<char>) -> Seq<char> {
    spaced(c.skip(1).reverse()) + spaced(c).drop_last()
}

/// Row `a` of the bottom block, for `1 <= a < c.len()`. The last row spells
/// the word forwards and spaced out, pads, and closes with `c[0]`; every
/// other row is indented and holds `c[a]`, the gutter and `c[n - 1 - a]`.
pub open spec fn bottom_row(c: Seq<char>, a: int) -> Seq<char> {
    let n = c.len();
    let b = n - 1 - a;
    if b == 0 {
        spaced(c) + spaces(((n - 2) * 2) as nat) + seq![c[b]]
    } else {
        spaces(((n - 1) * 2) as nat) + seq![c[a]] + spaces(gutter(n)) + seq![c[b]]
    }
}

/// The rows of the pattern, top to bottom: `n` rows of the top block, the
/// middle row, and `n - 1` rows of the bottom block.
pub open spec fn cw_rows(c: Seq<char>) -> Seq<Seq<char>> {
    let n = c.len() as int;
    Seq::new(
        (2 * n) as nat,
        |r: int|
            if r < n {
                top_row(c, r)
            } else if r == n {
                middle_row(c)
            } else {
                bottom_row(c, r - n)
            },
    )
}

/// The pattern as one text, each row closed by a line break.
pub open spec fn cw_art(c: Seq<char>) -> Seq<char> {
    join_lines(cw_rows(c))
}

/// What the renderer owes for `input`: the pattern of its canonical form
/// where it holds from `MIN_LEN` up to `MAX_LEN` characters, and otherwise
/// the error that names those bounds and the count found.
pub open spec fn cw_outcome(input: Seq<char>) -> Result<Seq<char>, TransformError> {
    if MIN_LEN <= input.len() <= MAX_LEN {
        Ok(cw_art(canonical(input)))
    } else {
        Err(
            TransformError::InvalidLength {
                min: MIN_LEN,
                max: MAX_LEN,
                actual: input.len() as usize,
            },
        )
    }
}

/// Whether `result` is what the renderer owes for `input`.
pub open spec fn is_cw_outcome(input: Seq<char>, result: TransformResult<String>) -> bool {
    match result {
        Ok(art) => cw_outcome(input) == Ok::<Seq<char>, TransformError>(art@),
        Err(e) => cw_outcome(input) == Err::<Seq<char>, TransformError>(e),
    }
}

/// Lays out canonical characters as the pattern.
pub fn render(chars: &Vec<char>) -> (art: String)
    requires
        MIN_LEN <= chars.len() <= MAX_LEN,
    ensures
        art@ == cw_art(chars@),
{
    let len = chars.len();
    let ghost c = chars@;
    let ghost rows = cw_rows(c);
    let mut buf = String::new();

    // top lines
    let mut a: usize = 0;
    assert(rows.take(0) =~= Seq::<Seq<char>>::empty());
    while a < len
        invariant
            a <= len,
            len == chars.len(),
            MIN_LEN <= len <= MAX_LEN,
            c == chars@,
            rows == cw_rows(c),
            buf@ == join_lines(rows.take(a as int)),
        decreases len - a,
    {
        let ghost before = buf@;
        push_char(&mut buf, chars[a]);
        push_spaces(&mut buf, (len - 2) * 2 + 1);
        if a == 0 {
            push_spaced_rev(&mut buf, chars, 0);
            assert(c.skip(0) =~= c);
        } else {
            push_char(&mut buf, chars[len - 1 - a]);
        }
        push_char(&mut buf, '\n');
        proof {
            lemma_join_push(rows.take(a as int), top_row(c, a as int));
            assert(rows.take(a + 1) =~= rows.take(a as int).push(top_row(c, a as int)));
            assert(buf@ =~= before + top_row(c, a as int).push('\n'));
        }
        a += 1;
    }

    // middle line
    let ghost before = buf@;
    push_spaced_rev(&mut buf, chars, 1);
    let ghost half = buf@;
    let mut i: usize = 0;
    assert(c.take(0) =~= Seq::<char>::empty());
    assert(half + spaced(c.take(0)) =~= half);
    while i < len
        invariant
            i <= len,
            len == chars.len(),
            MIN_LEN <= len,
            c == chars@,
            i < len ==> buf@ == half + spaced(c.take(i as int)),
            i == len ==> buf@ == half + spaced(c).drop_last().push('\n'),
        decreases len - i,
    {
        let ghost done = c.take(i as int);
        push_char(&mut buf, chars[i]);
        if i == len - 1 {
            push_char(&mut buf, '\n');
            assert(buf@ =~= half + spaced(c).drop_last().push('\n')) by {
                assert(done.push(c[i as int]) =~= c);
                lemma_spaced_push(done, c[i as int]);
            }
        } else {
            push_char(&mut buf, ' ');
            assert(buf@ =~= half + spaced(c.take(i + 1))) by {
                assert(c.take(i + 1) =~= done.push(c[i as int]));
                lemma_spaced_push(done, c[i as int]);
            }
        }
        i += 1;
    }
    proof {
        lemma_join_push(rows.take(len as int), middle_row(c));
        assert(rows.take(len + 1) =~= rows.take(len as int).push(middle_row(c)));
        assert(buf@ =~= before + middle_row(c).push('\n'));
    }

    // bottom lines
    let mut a: usize = 1;
    while a < len
        invariant
            1 <= a <= len,
            len == chars.len(),
            MIN_LEN <= len <= MAX_LEN,
            c == chars@,
            rows == cw_rows(c),
            buf@ == join_lines(rows.take(len + a)),
        decreases len - a,
    {
        let ghost before = buf@;
        let b: usize = len - 1 - a;
        if b == 0 {
            push_spaced(&mut buf, chars, 0);
            assert(c.skip(0) =~= c);
            push_spaces(&mut buf, (len - 2) * 2);
        } else {
            push_spaces(&mut buf, (len - 1) * 2);
            push_char(&mut buf, chars[a]);
            push_spaces(&mut buf, (len - 2) * 2 + 1);
        }
        push_char(&mut buf, chars[b]);
        push_char(&mut buf, '\n');
        proof {
            lemma_join_push(rows.take(len + a), bottom_row(c, a as int));
            assert(rows.take(len + a + 1) =~= rows.take(len + a).push(bottom_row(c, a as int)));
            assert(buf@ =~= before + bottom_row(c, a as int).push('\n'));
        }
        a += 1;
    }
    assert(rows.take(len + len) =~= rows);
    buf
}

/// Renders `orig` as the pattern of its uppercase form, or rejects it for
/// its length.
pub fn transform(orig: &str) -> (result: TransformResult<String>)
    ensures
        is_cw_outcome(orig@, result),
        result is Ok <==> MIN_LEN <= orig@.len() <= MAX_LEN,
        result matches Ok(art) ==> art@ == cw_art(canonical(orig@)),
        result matches Err(e) ==> e == (TransformError::InvalidLength {
            min: MIN_LEN,
            max: MAX_LEN,
            actual: orig@.len() as usize,
        }),
{
    let count = orig.unicode_len();
    match validate_len(MIN_LEN, MAX_LEN, count) {
        Err(e) => Err(e),
        Ok(()) => {
            let chars = collect_uppercase_chars(orig);
            Ok(render(&chars))
        },
    }
}

} // verus!
