//! Texts as sequences of lines.

use vstd::prelude::*;

verus! {

/// A row that can be printed on one line: it holds no line break.
pub open spec fn is_line(row: Seq<char>) -> bool {
    forall|i: int| 0 <= i < row.len() ==> row[i] != '\n'
}

/// The text that prints `rows` one per line: every row, first to last, each
/// followed by a line break.
pub open spec fn join_lines(rows: Seq<Seq<char>>) -> Seq<char>
    decreases rows.len(),
{
    if rows.len() == 0 {
        Seq::empty()
    } else {
        rows[0].push('\n') + join_lines(rows.drop_first())
    }
}

/// How many characters stand before the first line break of `text`, or in
/// all of it where it holds none.
pub open spec fn first_line_len(text: Seq<char>) -> nat
    decreases text.len(),
{
    if text.len() == 0 || text[0] == '\n' {
        0
    } else {
        1 + first_line_len(text.drop_first())
    }
}

/// The lines of `text`: the runs of characters between line breaks. A line
/// break at the very end closes the last line and opens no further one.
pub open spec fn split_lines(text: Seq<char>) -> Seq<Seq<char>>
    decreases text.len(),
{
    if text.len() == 0 {
        Seq::empty()
    } else {
        let k = first_line_len(text) as int;
        if k >= text.len() {
            seq![text]
        } else {
            seq![text.take(k)] + split_lines(text.skip(k + 1))
        }
    }
}

/// Printing one more row appends that row and a line break.
pub proof fn lemma_join_push(rows: Seq<Seq<char>>, row: Seq<char>)
    ensures
        join_lines(rows.push(row)) == join_lines(rows) + row.push('\n'),
    decreases rows.len(),
{
    if rows.len() == 0 {
        assert(rows.push(row).drop_first() =~= rows);
        assert(join_lines(rows) =~= Seq::<char>::empty());
        assert(join_lines(rows.push(row)) =~= row.push('\n'));
        assert(join_lines(rows) + row.push('\n') =~= row.push('\n'));
    } else {
        lemma_join_push(rows.drop_first(), row);
        assert(rows.push(row).drop_first() =~= rows.drop_first().push(row));
        assert(join_lines(rows.push(row)) =~= join_lines(rows) + row.push('\n'));
    }
}

/// A row without a line break, once printed, is the first line of the text.
pub proof fn lemma_first_line_len(row: Seq<char>, rest: Seq<char>)
    requires
        is_line(row),
    ensures
        first_line_len(row.push('\n') + rest) == row.len(),
    decreases row.len(),
{
    let text = row.push('\n') + rest;
    if row.len() == 0 {
        assert(text[0] == '\n');
    } else {
        assert(text[0] == row[0]);
        let tail = row.drop_first();
        assert(is_line(tail)) by {
            assert forall|i: int| 0 <= i < tail.len() implies tail[i] != '\n' by {
                assert(tail[i] == row[i + 1]);
            }
        }
        lemma_first_line_len(tail, rest);
        assert(text.drop_first() =~= tail.push('\n') + rest);
    }
}

/// Reading back what was printed gives the rows again, as long as no row
/// holds a line break of its own.
pub proof fn lemma_split_join(rows: Seq<Seq<char>>)
    requires
        forall|r: int| 0 <= r < rows.len() ==> is_line(#[trigger] rows[r]),
    ensures
        split_lines(join_lines(rows)) == rows,
    decreases rows.len(),
{
    if rows.len() == 0 {
        assert(split_lines(join_lines(rows)) =~= rows);
    } else {
        let head = rows[0];
        let tail = rows.drop_first();
        let text = join_lines(rows);
        assert(text == head.push('\n') + join_lines(tail));
        lemma_first_line_len(head, join_lines(tail));
        let k = head.len() as int;
        assert(text.take(k) =~= head);
        assert(text.skip(k + 1) =~= join_lines(tail));
        assert forall|r: int| 0 <= r < tail.len() implies is_line(#[trigger] tail[r]) by {
            assert(tail[r] == rows[r + 1]);
        }
        lemma_split_join(tail);
        assert(split_lines(text) =~= seq![head] + tail);
        assert(seq![head] + tail =~= rows);
    }
}

} // verus!
