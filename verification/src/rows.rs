//! The answers of a survey as contracts see them: rows in the order of
//! their symbols, what a vote does to them, and why that keeps their order.

use crate::alphabet::{allocated, symbol};
use vstd::prelude::*;

verus! {

/// The text shown for an answer that voters added by reacting with a symbol
/// that the survey did not offer.
pub const OTHER: &'static str = "Other";

/// One answer of a survey as contracts see it.
pub struct Row {
    pub emoji: char,
    pub text: Seq<char>,
    pub votes: nat,
}

/// The rows stand in strictly increasing order of their symbols, so that no
/// symbol occurs twice.
pub open spec fn ordered(rows: Seq<Row>) -> bool {
    forall|i: int, j: int|
        0 <= i < j < rows.len() ==> (#[trigger] rows[i].emoji as u32) < (#[trigger] rows[j].emoji as u32)
}

/// The number of rows at the start of `rows` whose symbol lies below `emoji`.
/// In ordered rows this is where `emoji` stands, or where it would.
pub open spec fn place(rows: Seq<Row>, emoji: char) -> int
    decreases rows.len(),
{
    if rows.len() == 0 || rows.first().emoji as u32 >= emoji as u32 {
        0
    } else {
        1 + place(rows.drop_first(), emoji)
    }
}

/// Whether `emoji` is the symbol of one of the rows.
pub open spec fn listed(rows: Seq<Row>, emoji: char) -> bool {
    place(rows, emoji) < rows.len() && rows[place(rows, emoji)].emoji == emoji
}

/// The row at the place of `emoji`: its own row where it is listed.
pub open spec fn row_at(rows: Seq<Row>, emoji: char) -> Row {
    rows[place(rows, emoji)]
}

/// The votes that `emoji` has; none where it is not listed.
pub open spec fn tally(rows: Seq<Row>, emoji: char) -> nat {
    if listed(rows, emoji) {
        rows[place(rows, emoji)].votes
    } else {
        0
    }
}

/// The answers by their symbols.
pub open spec fn options(rows: Seq<Row>) -> Map<char, Seq<char>> {
    Map::new(|c: char| listed(rows, c), |c: char| row_at(rows, c).text)
}

/// The vote counts by the symbols of the answers.
pub open spec fn tallies(rows: Seq<Row>) -> Map<char, nat> {
    Map::new(|c: char| listed(rows, c), |c: char| tally(rows, c))
}

/// The sum of all votes.
pub open spec fn total(rows: Seq<Row>) -> nat
    decreases rows.len(),
{
    if rows.len() == 0 {
        0
    } else {
        total(rows.drop_last()) + rows.last().votes
    }
}

/// A vote count after one more vote. A counter that is full stays full.
pub open spec fn bump(votes: nat) -> nat {
    if votes < usize::MAX {
        votes + 1
    } else {
        votes
    }
}

/// The rows of a new survey: the first 26 texts at most, each under the
/// symbol of its position, without votes.
pub open spec fn initial_rows(texts: Seq<Seq<char>>) -> Seq<Row> {
    Seq::new(
        allocated(texts.len()),
        |i: int| Row { emoji: symbol(i), text: texts[i], votes: 0 },
    )
}

/// The rows after a vote for `emoji`: its count goes up by one, and a symbol
/// that was not listed enters at its place as "Other" with that one vote.
pub open spec fn with_vote(rows: Seq<Row>, emoji: char) -> Seq<Row> {
    let i = place(rows, emoji);
    if listed(rows, emoji) {
        rows.update(i, Row { emoji: emoji, text: rows[i].text, votes: bump(rows[i].votes) })
    } else {
        rows.insert(i, Row { emoji: emoji, text: OTHER@, votes: 1 })
    }
}

/// The rows after a vote for `emoji` was taken back: its count goes down by
/// one. A count of zero stays, and so does everything where the symbol is not
/// listed.
pub open spec fn without_vote(rows: Seq<Row>, emoji: char) -> Seq<Row> {
    let i = place(rows, emoji);
    if listed(rows, emoji) && rows[i].votes > 0 {
        rows.update(i, Row { emoji: emoji, text: rows[i].text, votes: (rows[i].votes - 1) as nat })
    } else {
        rows
    }
}

/// In ordered rows, `place` of a symbol is the one index that splits the rows
/// into those below the symbol and those not below it.
pub proof fn lemma_place(rows: Seq<Row>, emoji: char, i: int)
    requires
        0 <= i <= rows.len(),
        forall|k: int| 0 <= k < i ==> (#[trigger] rows[k].emoji as u32) < emoji as u32,
        i == rows.len() || rows[i].emoji as u32 >= emoji as u32,
    ensures
        place(rows, emoji) == i,
    decreases i,
{
    if i > 0 {
        let rest = rows.drop_first();
        assert((rows[0].emoji as u32) < emoji as u32);
        assert forall|k: int| 0 <= k < i - 1 implies (#[trigger] rest[k].emoji as u32)
            < emoji as u32 by {
            assert(rest[k] == rows[k + 1]);
        }
        lemma_place(rest, emoji, i - 1);
    }
}

/// The place of a symbol lies within the rows, all rows before it are below
/// the symbol, and the row at it, if there is one, is not.
pub proof fn lemma_place_splits(rows: Seq<Row>, emoji: char)
    ensures
        0 <= place(rows, emoji) <= rows.len(),
        forall|k: int|
            0 <= k < place(rows, emoji) ==> (#[trigger] rows[k].emoji as u32) < emoji as u32,
        place(rows, emoji) < rows.len() ==> rows[place(rows, emoji)].emoji as u32 >= emoji as u32,
    decreases rows.len(),
{
    if rows.len() == 0 || rows.first().emoji as u32 >= emoji as u32 {
    } else {
        let rest = rows.drop_first();
        lemma_place_splits(rest, emoji);
        assert forall|k: int| 0 <= k < place(rows, emoji) implies (#[trigger] rows[k].emoji as u32)
            < emoji as u32 by {
            if k > 0 {
                assert(rows[k] == rest[k - 1]);
            }
        }
    }
}

/// Ordered rows are no more than there are characters.
pub proof fn lemma_ordered_len(rows: Seq<Row>)
    requires
        ordered(rows),
    ensures
        rows.len() <= 0x110000,
{
    assert forall|i: int| 0 <= i < rows.len() implies (#[trigger] rows[i]).emoji as u32 >= i by {
        lemma_ordered_at_least(rows, i);
    }
    if rows.len() > 0 {
        assert(rows[rows.len() - 1].emoji as u32 >= rows.len() - 1);
    }
}

proof fn lemma_ordered_at_least(rows: Seq<Row>, i: int)
    requires
        ordered(rows),
        0 <= i < rows.len(),
    ensures
        rows[i].emoji as u32 >= i,
    decreases i,
{
    if i > 0 {
        lemma_ordered_at_least(rows, i - 1);
    }
}

/// The total of the first rows grows with each row by its votes.
pub proof fn lemma_total_take(rows: Seq<Row>, i: int)
    requires
        0 <= i < rows.len(),
    ensures
        total(rows.take(i + 1)) == total(rows.take(i)) + rows[i].votes,
{
    assert(rows.take(i + 1).drop_last() =~= rows.take(i));
}

/// Rows that differ only in texts and votes find every symbol at the same
/// place.
pub proof fn lemma_same_emojis(a: Seq<Row>, b: Seq<Row>, c: char)
    requires
        a.len() == b.len(),
        forall|k: int| 0 <= k < a.len() ==> (#[trigger] a[k]).emoji == b[k].emoji,
    ensures
        place(a, c) == place(b, c),
{
    lemma_place_splits(a, c);
    let i = place(a, c);
    assert forall|k: int| 0 <= k < i implies (#[trigger] b[k].emoji as u32) < c as u32 by {
        assert(a[k].emoji == b[k].emoji);
    }
    if i < a.len() {
        assert(a[i].emoji == b[i].emoji);
    }
    lemma_place(b, c, i);
}

/// A vote for `emoji` keeps the rows ordered and the place of `emoji`, lists
/// `emoji` beside the symbols that were listed, raises its count by one, up
/// to a full counter, and leaves every other row as it was.
pub proof fn lemma_with_vote(rows: Seq<Row>, emoji: char, c: char)
    requires
        ordered(rows),
    ensures
        ordered(with_vote(rows, emoji)),
        c == emoji ==> place(with_vote(rows, emoji), emoji) == place(rows, emoji),
        listed(with_vote(rows, emoji), c) == (listed(rows, c) || c == emoji),
        tally(with_vote(rows, emoji), c) == if c == emoji {
            bump(tally(rows, emoji))
        } else {
            tally(rows, c)
        },
        c != emoji && listed(rows, c) ==> row_at(with_vote(rows, emoji), c) == row_at(rows, c),
        c == emoji ==> row_at(with_vote(rows, emoji), c) == (Row {
            emoji: emoji,
            text: if listed(rows, emoji) {
                row_at(rows, emoji).text
            } else {
                OTHER@
            },
            votes: bump(tally(rows, emoji)),
        }),
{
    let i = place(rows, emoji);
    let j = place(rows, c);
    lemma_place_splits(rows, emoji);
    lemma_place_splits(rows, c);
    let after = with_vote(rows, emoji);
    if listed(rows, emoji) {
        assert forall|k: int| 0 <= k < after.len() implies (#[trigger] after[k]).emoji
            == rows[k].emoji by {}
        assert forall|a: int, b: int| 0 <= a < b < after.len() implies (#[trigger] after[a].emoji as u32)
            < (#[trigger] after[b].emoji as u32) by {
            assert(after[a].emoji == rows[a].emoji);
            assert(after[b].emoji == rows[b].emoji);
            assert((rows[a].emoji as u32) < (rows[b].emoji as u32));
        }
        lemma_same_emojis(after, rows, c);
        if j < rows.len() {
            assert(after[j].emoji == rows[j].emoji);
        }
    } else {
        let fresh = Row { emoji: emoji, text: OTHER@, votes: 1 };
        assert(after =~= rows.insert(i, fresh));
        assert(after.len() == rows.len() + 1);
        assert forall|k: int| 0 <= k < after.len() implies #[trigger] after[k] == (if k < i {
            rows[k]
        } else if k == i {
            fresh
        } else {
            rows[k - 1]
        }) by {}
        assert forall|k: int| i <= k < rows.len() implies (#[trigger] rows[k].emoji as u32)
            > emoji as u32 by {
            if k > i {
                assert((rows[i].emoji as u32) < (rows[k].emoji as u32));
            }
        }
        assert forall|a: int, b: int| 0 <= a < b < after.len() implies (#[trigger] after[a].emoji as u32)
            < (#[trigger] after[b].emoji as u32) by {
            if b < i {
                assert((rows[a].emoji as u32) < (rows[b].emoji as u32));
            } else if b == i {
                assert((rows[a].emoji as u32) < emoji as u32);
            } else if a < i {
                assert((rows[a].emoji as u32) < emoji as u32);
                assert((rows[b - 1].emoji as u32) > emoji as u32);
            } else if a == i {
                assert((rows[b - 1].emoji as u32) > emoji as u32);
            } else {
                assert((rows[a - 1].emoji as u32) < (rows[b - 1].emoji as u32));
            }
        }
        if (c as u32) < (emoji as u32) {
            assert(j <= i) by {
                if j > i {
                    assert((rows[i].emoji as u32) < c as u32);
                }
            }
            assert forall|k: int| 0 <= k < j implies (#[trigger] after[k].emoji as u32)
                < c as u32 by {
                assert((rows[k].emoji as u32) < c as u32);
            }
            lemma_place(after, c, j);
        } else if c == emoji {
            assert forall|k: int| 0 <= k < i implies (#[trigger] after[k].emoji as u32)
                < c as u32 by {
                assert((rows[k].emoji as u32) < emoji as u32);
            }
            lemma_place(after, c, i);
        } else {
            assert(j >= i) by {
                if j < i {
                    assert((rows[j].emoji as u32) < emoji as u32);
                }
            }
            assert forall|k: int| 0 <= k < j + 1 implies (#[trigger] after[k].emoji as u32)
                < c as u32 by {
                if k < i {
                    assert((rows[k].emoji as u32) < emoji as u32);
                } else if k > i {
                    assert((rows[k - 1].emoji as u32) < c as u32);
                }
            }
            lemma_place(after, c, j + 1);
        }
    }
}

/// Taking back a vote for `emoji` keeps the rows ordered and the symbols
/// listed, lowers its count by one, down to zero, and leaves every other
/// row as it was.
pub proof fn lemma_without_vote(rows: Seq<Row>, emoji: char, c: char)
    requires
        ordered(rows),
    ensures
        ordered(without_vote(rows, emoji)),
        listed(without_vote(rows, emoji), c) == listed(rows, c),
        tally(without_vote(rows, emoji), c) == if c == emoji && tally(rows, emoji) > 0 {
            (tally(rows, emoji) - 1) as nat
        } else {
            tally(rows, c)
        },
        c != emoji && listed(rows, c) ==> row_at(without_vote(rows, emoji), c) == row_at(rows, c),
        c == emoji && listed(rows, c) ==> row_at(without_vote(rows, emoji), c) == (Row {
            emoji: emoji,
            text: row_at(rows, emoji).text,
            votes: if tally(rows, emoji) > 0 {
                (tally(rows, emoji) - 1) as nat
            } else {
                0
            },
        }),
{
    let j = place(rows, c);
    lemma_place_splits(rows, emoji);
    lemma_place_splits(rows, c);
    let after = without_vote(rows, emoji);
    assert forall|k: int| 0 <= k < after.len() implies (#[trigger] after[k]).emoji
        == rows[k].emoji by {}
    assert forall|a: int, b: int| 0 <= a < b < after.len() implies (#[trigger] after[a].emoji as u32)
            < (#[trigger] after[b].emoji as u32) by {
        assert(after[a].emoji == rows[a].emoji);
        assert(after[b].emoji == rows[b].emoji);
        assert((rows[a].emoji as u32) < (rows[b].emoji as u32));
    }
    lemma_same_emojis(after, rows, c);
    if j < rows.len() {
        assert(after[j].emoji == rows[j].emoji);
    }
}

/// Rows without votes have a total of zero.
pub proof fn lemma_no_votes(rows: Seq<Row>, n: int)
    requires
        0 <= n <= rows.len(),
        forall|k: int| 0 <= k < rows.len() ==> (#[trigger] rows[k]).votes == 0,
    ensures
        total(rows.take(n)) == 0,
    decreases n,
{
    if n > 0 {
        lemma_no_votes(rows, n - 1);
        lemma_total_take(rows, n - 1);
    }
}

/// A row with other votes changes the total by the difference.
pub proof fn lemma_total_update(rows: Seq<Row>, i: int, row: Row)
    requires
        0 <= i < rows.len(),
    ensures
        total(rows.update(i, row)) + rows[i].votes == total(rows) + row.votes,
    decreases rows.len(),
{
    let after = rows.update(i, row);
    if i == rows.len() - 1 {
        assert(after.drop_last() =~= rows.drop_last());
    } else {
        assert(after.drop_last() =~= rows.drop_last().update(i, row));
        lemma_total_update(rows.drop_last(), i, row);
    }
}

/// A row more adds its votes to the total.
pub proof fn lemma_total_insert(rows: Seq<Row>, i: int, row: Row)
    requires
        0 <= i <= rows.len(),
    ensures
        total(rows.insert(i, row)) == total(rows) + row.votes,
    decreases rows.len(),
{
    let after = rows.insert(i, row);
    if i == rows.len() {
        assert(after =~= rows.push(row));
        assert(after.drop_last() =~= rows);
    } else {
        assert(after.drop_last() =~= rows.drop_last().insert(i, row));
        assert(after.last() == rows.last());
        lemma_total_insert(rows.drop_last(), i, row);
    }
}

/// A vote raises the total by one, but for a full counter; a vote taken
/// back lowers it by one, but for a count of zero.
pub proof fn lemma_total_after_vote(rows: Seq<Row>, emoji: char)
    ensures
        total(with_vote(rows, emoji)) + tally(rows, emoji) == total(rows) + bump(
            tally(rows, emoji),
        ),
        total(without_vote(rows, emoji)) == total(rows) - if tally(rows, emoji) > 0 {
            1int
        } else {
            0int
        },
{
    let i = place(rows, emoji);
    lemma_place_splits(rows, emoji);
    if listed(rows, emoji) {
        lemma_total_update(
            rows,
            i,
            Row { emoji: emoji, text: rows[i].text, votes: bump(rows[i].votes) },
        );
        if rows[i].votes > 0 {
            lemma_total_update(
                rows,
                i,
                Row { emoji: emoji, text: rows[i].text, votes: (rows[i].votes - 1) as nat },
            );
        }
    } else {
        lemma_total_insert(rows, i, Row { emoji: emoji, text: OTHER@, votes: 1 });
    }
}

/// In ordered rows each row stands at the place of its symbol.
pub proof fn lemma_place_of_row(rows: Seq<Row>, i: int)
    requires
        ordered(rows),
        0 <= i < rows.len(),
    ensures
        place(rows, rows[i].emoji) == i,
        listed(rows, rows[i].emoji),
{
    assert forall|k: int| 0 <= k < i implies (#[trigger] rows[k].emoji as u32)
        < rows[i].emoji as u32 by {}
    lemma_place(rows, rows[i].emoji, i);
}

/// Ordered rows that list the same symbols have them at the same indices.
proof fn lemma_same_symbols(x: Seq<Row>, y: Seq<Row>, i: int)
    requires
        ordered(x),
        ordered(y),
        forall|c: char| listed(x, c) == listed(y, c),
        0 <= i < x.len(),
    ensures
        i < y.len(),
        y[i].emoji == x[i].emoji,
    decreases i,
{
    assert forall|k: int| 0 <= k < i implies k < y.len() && (#[trigger] y[k]).emoji
        == x[k].emoji by {
        lemma_same_symbols(x, y, k);
    }
    let c = x[i].emoji;
    lemma_place_of_row(x, i);
    assert(listed(y, c));
    let j = place(y, c);
    lemma_place_splits(y, c);
    if j < i {
        assert(y[j].emoji == x[j].emoji);
        assert((x[j].emoji as u32) < (x[i].emoji as u32));
        assert(false);
    }
    if j > i {
        let d = y[i].emoji;
        lemma_place_of_row(y, i);
        assert(listed(x, d));
        let m = place(x, d);
        lemma_place_splits(x, d);
        assert((y[i].emoji as u32) < (y[j].emoji as u32));
        if m > i {
            assert((x[i].emoji as u32) < (x[m].emoji as u32));
            assert(false);
        }
        assert(m < i);
        assert(y[m].emoji == x[m].emoji);
        assert((y[m].emoji as u32) < (y[i].emoji as u32));
        assert(false);
    }
}

/// Ordered rows are the same once they list the same symbols, each with
/// the same row.
pub proof fn lemma_rows_equal(x: Seq<Row>, y: Seq<Row>)
    requires
        ordered(x),
        ordered(y),
        forall|c: char| listed(x, c) == listed(y, c),
        forall|c: char| listed(x, c) ==> row_at(x, c) == row_at(y, c),
    ensures
        x == y,
{
    if x.len() > 0 {
        lemma_same_symbols(x, y, x.len() - 1);
    }
    if y.len() > 0 {
        lemma_same_symbols(y, x, y.len() - 1);
    }
    assert forall|i: int| 0 <= i < x.len() implies x[i] == y[i] by {
        lemma_same_symbols(x, y, i);
        lemma_place_of_row(x, i);
        lemma_place_of_row(y, i);
        assert(row_at(x, x[i].emoji) == row_at(y, x[i].emoji));
    }
    assert(x =~= y);
}

} // verus!
