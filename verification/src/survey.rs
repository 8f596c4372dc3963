//! A survey: a question, its answers keyed by reaction symbol, and the votes
//! that each answer has received.

use crate::alphabet::{allocated, emojis, symbol, symbols, ALPHABET_LEN};
use crate::rows::{
    bump, initial_rows, lemma_no_votes, lemma_ordered_len, lemma_place, lemma_place_of_row,
    lemma_place_splits, lemma_rows_equal, lemma_same_emojis, lemma_total_take, lemma_with_vote,
    lemma_without_vote, listed, options, ordered, place, row_at, tallies, tally, total, with_vote,
    without_vote, Row, OTHER,
};
use crate::text::{decimal, push_char, push_decimal, push_trimmed, trim_quotes};
use vstd::prelude::*;

verus! {

/// A survey as contracts see it: the question, and the answers in the order
/// of their symbols.
pub struct SurveyView {
    pub question: Seq<char>,
    pub rows: Seq<Row>,
}

/// The share of `votes` in `total` in percent, rounded to the nearest whole
/// number, a half rounded up.
pub open spec fn percent(votes: nat, total: nat) -> nat
    recommends
        total > 0,
{
    (200 * votes + total) / (2 * total)
}

/// The line of one answer: symbol, share (only once a vote was cast), text
/// without quotes at its ends, and vote count.
pub open spec fn line(row: Row, total: nat) -> Seq<char> {
    let share = if total > 0 {
        " ("@ + decimal(percent(row.votes, total)) + "%)"@
    } else {
        Seq::<char>::empty()
    };
    seq![row.emoji] + share + " "@ + trim_quotes(row.text) + " ("@ + decimal(row.votes)
        + " votes)\n"@
}

/// The lines of `rows`, one after the other.
pub open spec fn lines(rows: Seq<Row>, total: nat) -> Seq<char>
    decreases rows.len(),
{
    if rows.len() == 0 {
        Seq::<char>::empty()
    } else {
        lines(rows.drop_last(), total) + line(rows.last(), total)
    }
}

/// The text that shows a survey: a header with the question, then one line
/// for each answer in the order of the symbols.
pub open spec fn rendered(v: SurveyView) -> Seq<char> {
    "**Survey:** "@ + v.question + "\n"@ + lines(v.rows, total(v.rows))
}

/// What every survey keeps: its rows are ordered, and every count fits a
/// machine word.
pub open spec fn valid(v: SurveyView) -> bool {
    &&& ordered(v.rows)
    &&& forall|i: int| 0 <= i < v.rows.len() ==> (#[trigger] v.rows[i]).votes <= usize::MAX
}

/// The survey after a vote for `emoji`.
pub open spec fn voted(v: SurveyView, emoji: char) -> SurveyView {
    SurveyView { question: v.question, rows: with_vote(v.rows, emoji) }
}

/// The survey after a vote for `emoji` was taken back.
pub open spec fn unvoted(v: SurveyView, emoji: char) -> SurveyView {
    SurveyView { question: v.question, rows: without_vote(v.rows, emoji) }
}

/// The views of `answers`, one for one.
pub open spec fn texts_of(answers: Seq<String>) -> Seq<Seq<char>> {
    Seq::new(answers.len(), |i: int| answers[i]@)
}

/// A vote and its taking back, one right after the other, return every
/// count to what it was, as long as the counter of `emoji` was not full.
/// Where `emoji` was listed, the whole survey is as it was.
pub proof fn vote_then_unvote_restores(v: SurveyView, emoji: char, c: char)
    requires
        valid(v),
        tally(v.rows, emoji) < usize::MAX,
    ensures
        tally(unvoted(voted(v, emoji), emoji).rows, c) == tally(v.rows, c),
        listed(v.rows, emoji) ==> unvoted(voted(v, emoji), emoji) == v,
{
    let mid = with_vote(v.rows, emoji);
    lemma_with_vote(v.rows, emoji, c);
    lemma_with_vote(v.rows, emoji, emoji);
    lemma_without_vote(mid, emoji, c);
    if listed(v.rows, emoji) {
        let i = place(v.rows, emoji);
        lemma_place_splits(v.rows, emoji);
        lemma_same_emojis(mid, v.rows, emoji);
        assert(without_vote(mid, emoji) =~= v.rows);
    }
}

/// A symbol that is not listed enters with a vote as "Other", with a count
/// of one.
pub proof fn unlisted_symbol_enters_as_other(v: SurveyView, emoji: char)
    requires
        valid(v),
        !listed(v.rows, emoji),
    ensures
        listed(voted(v, emoji).rows, emoji),
        tally(voted(v, emoji).rows, emoji) == 1,
        voted(v, emoji).rows[place(voted(v, emoji).rows, emoji)].text == OTHER@,
        voted(v, emoji).rows.len() == v.rows.len() + 1,
{
    lemma_with_vote(v.rows, emoji, emoji);
    lemma_place_splits(v.rows, emoji);
}

/// A vote for `emoji` puts its count, raised by one, into the counts, and
/// "Other" into the answers where `emoji` was not among them. Answers and
/// counts go on having the same symbols.
pub proof fn vote_in_maps(v: SurveyView, emoji: char)
    requires
        valid(v),
    ensures
        tallies(voted(v, emoji).rows) == tallies(v.rows).insert(
            emoji,
            bump(tally(v.rows, emoji)),
        ),
        options(voted(v, emoji).rows) == if listed(v.rows, emoji) {
            options(v.rows)
        } else {
            options(v.rows).insert(emoji, OTHER@)
        },
        options(voted(v, emoji).rows).dom() == tallies(voted(v, emoji).rows).dom(),
{
    let after = voted(v, emoji).rows;
    assert forall|c: char|
        listed(after, c) == (listed(v.rows, c) || c == emoji) && tally(after, c) == (if c
            == emoji {
            bump(tally(v.rows, emoji))
        } else {
            tally(v.rows, c)
        }) && (listed(after, c) ==> row_at(after, c).text == if listed(v.rows, c) {
            row_at(v.rows, c).text
        } else {
            OTHER@
        }) by {
        lemma_with_vote(v.rows, emoji, c);
    }
    assert(tallies(after) =~= tallies(v.rows).insert(emoji, bump(tally(v.rows, emoji))));
    if listed(v.rows, emoji) {
        assert(options(after) =~= options(v.rows));
    } else {
        assert(options(after) =~= options(v.rows).insert(emoji, OTHER@));
    }
    assert(options(after).dom() =~= tallies(after).dom());
}

/// Taking back a vote for `emoji` lowers its count by one where it has one,
/// and changes neither the answers nor any other count.
pub proof fn unvote_in_maps(v: SurveyView, emoji: char)
    requires
        valid(v),
    ensures
        tallies(unvoted(v, emoji).rows) == if tally(v.rows, emoji) > 0 {
            tallies(v.rows).insert(emoji, (tally(v.rows, emoji) - 1) as nat)
        } else {
            tallies(v.rows)
        },
        options(unvoted(v, emoji).rows) == options(v.rows),
{
    let after = unvoted(v, emoji).rows;
    assert forall|c: char|
        listed(after, c) == listed(v.rows, c) && tally(after, c) == (if c == emoji && tally(
            v.rows,
            emoji,
        ) > 0 {
            (tally(v.rows, emoji) - 1) as nat
        } else {
            tally(v.rows, c)
        }) && (listed(after, c) ==> row_at(after, c).text == row_at(v.rows, c).text) by {
        lemma_without_vote(v.rows, emoji, c);
    }
    if tally(v.rows, emoji) > 0 {
        assert(tallies(after) =~= tallies(v.rows).insert(
            emoji,
            (tally(v.rows, emoji) - 1) as nat,
        ));
    } else {
        assert(tallies(after) =~= tallies(v.rows));
    }
    assert(options(after) =~= options(v.rows));
}

/// A new survey has each of its first 26 answers under the symbol of its
/// position, and no votes.
pub proof fn new_survey_in_maps(texts: Seq<Seq<char>>, i: int)
    requires
        0 <= i < allocated(texts.len()),
    ensures
        ordered(initial_rows(texts)),
        total(initial_rows(texts)) == 0,
        listed(initial_rows(texts), symbol(i)),
        options(initial_rows(texts))[symbol(i)] == texts[i],
        tallies(initial_rows(texts))[symbol(i)] == 0,
{
    let rows = initial_rows(texts);
    lemma_place_of_row(rows, i);
    lemma_no_votes(rows, rows.len() as int);
    assert(rows.take(rows.len() as int) =~= rows);
}

/// The percentage is the whole number nearest to the exact share, the
/// upper one of two that are equally near, and at most 100 for a count
/// within the total.
pub proof fn percent_is_nearest(votes: nat, total: nat)
    requires
        total > 0,
    ensures
        2 * total * percent(votes, total) <= 200 * votes + total,
        200 * votes + total < 2 * total * (percent(votes, total) + 1),
        votes <= total ==> percent(votes, total) <= 100,
{
    let x = (200 * votes + total) as int;
    let d = (2 * total) as int;
    vstd::arithmetic::div_mod::lemma_fundamental_div_mod(x, d);
    vstd::arithmetic::div_mod::lemma_mod_bound(x, d);
    assert(d * (x / d) == 2 * total * percent(votes, total)) by (nonlinear_arith)
        requires
            d == 2 * total,
            x / d == percent(votes, total),
    ;
    assert(d * (x / d) + d == 2 * total * (percent(votes, total) + 1)) by (nonlinear_arith)
        requires
            d == 2 * total,
            x / d == percent(votes, total),
    ;
    if votes <= total && percent(votes, total) > 100 {
        assert(2 * total * percent(votes, total) >= 2 * total * 101) by (nonlinear_arith)
            requires
                percent(votes, total) >= 101,
                total > 0,
        ;
        assert(false);
    }
}

/// Two votes give the same survey in either order. Where they are for
/// different symbols both count: each of the two counts is one higher, up
/// to a full counter.
pub proof fn votes_commute(v: SurveyView, a: char, b: char)
    requires
        valid(v),
    ensures
        voted(voted(v, a), b) == voted(voted(v, b), a),
        a != b ==> tally(voted(voted(v, a), b).rows, a) == bump(tally(v.rows, a)),
        a != b ==> tally(voted(voted(v, a), b).rows, b) == bump(tally(v.rows, b)),
{
    let x = with_vote(with_vote(v.rows, a), b);
    let y = with_vote(with_vote(v.rows, b), a);
    lemma_with_vote(v.rows, a, a);
    lemma_with_vote(v.rows, a, b);
    lemma_with_vote(v.rows, b, a);
    lemma_with_vote(v.rows, b, b);
    lemma_with_vote(with_vote(v.rows, a), b, a);
    lemma_with_vote(with_vote(v.rows, a), b, b);
    lemma_with_vote(with_vote(v.rows, b), a, a);
    lemma_with_vote(with_vote(v.rows, b), a, b);
    if a != b {
        assert forall|c: char| listed(x, c) == listed(y, c) && (listed(x, c) ==> row_at(x, c)
            == row_at(y, c)) by {
            lemma_with_vote(v.rows, a, c);
            lemma_with_vote(v.rows, b, c);
            lemma_with_vote(with_vote(v.rows, a), b, c);
            lemma_with_vote(with_vote(v.rows, b), a, c);
        }
        lemma_rows_equal(x, y);
    }
}

/// A valid survey stays valid under a vote and under its taking back.
pub proof fn votes_keep_valid(v: SurveyView, emoji: char)
    requires
        valid(v),
    ensures
        valid(voted(v, emoji)),
        valid(unvoted(v, emoji)),
{
    lemma_with_vote(v.rows, emoji, emoji);
    lemma_without_vote(v.rows, emoji, emoji);
    lemma_place_splits(v.rows, emoji);
    let up = voted(v, emoji).rows;
    let down = unvoted(v, emoji).rows;
    let i = place(v.rows, emoji);
    assert forall|k: int| 0 <= k < up.len() implies (#[trigger] up[k]).votes <= usize::MAX by {
        if listed(v.rows, emoji) {
            if k != i {
                assert(up[k] == v.rows[k]);
            }
        } else {
            if k < i {
                assert(up[k] == v.rows[k]);
            } else if k > i {
                assert(up[k] == v.rows[k - 1]);
            }
        }
    }
    assert forall|k: int| 0 <= k < down.len() implies (#[trigger] down[k]).votes
        <= usize::MAX by {
        if k != i {
            assert(down[k] == v.rows[k]);
        }
    }
}

/// One answer as the survey stores it.
struct Answer {
    emoji: char,
    text: String,
    votes: usize,
}

/// A survey. Its answers are kept in the order of their symbols.
pub struct Survey {
    question: String,
    answers: Vec<Answer>,
}

spec fn row_of(a: Answer) -> Row {
    Row { emoji: a.emoji, text: a.text@, votes: a.votes as nat }
}

spec fn rows_of(answers: Seq<Answer>) -> Seq<Row> {
    Seq::new(answers.len(), |i: int| row_of(answers[i]))
}

impl View for Survey {
    type V = SurveyView;

    closed spec fn view(&self) -> SurveyView {
        SurveyView { question: self.question@, rows: rows_of(self.answers@) }
    }
}

impl Survey {
    /// The survey is valid. Every function that makes or changes a survey
    /// sees to it.
    pub open spec fn wf(&self) -> bool {
        valid(self@)
    }

    /// A survey on `question` with the first 26 of `answers` at most, each
    /// under the symbol of its position and without votes.
    pub fn new(question: String, answers: &[String]) -> (s: Survey)
        ensures
            s.wf(),
            s@.question == question@,
            s@.rows == initial_rows(texts_of(answers@)),
    {
        let emojis = emojis();
        let mut entries: Vec<Answer> = Vec::new();
        let mut i: usize = 0;
        while i < answers.len() && i < ALPHABET_LEN
            invariant
                emojis@ == symbols(ALPHABET_LEN as nat),
                i <= answers.len(),
                i <= ALPHABET_LEN,
                entries@.len() == i,
                forall|k: int|
                    0 <= k < i ==> row_of(#[trigger] entries@[k]) == (Row {
                        emoji: symbol(k),
                        text: answers@[k]@,
                        votes: 0,
                    }),
            decreases answers.len() - i,
        {
            entries.push(Answer { emoji: emojis[i], text: answers[i].clone(), votes: 0 });
            i = i + 1;
        }
        let s = Survey { question, answers: entries };
        assert(s@.rows =~= initial_rows(texts_of(answers@)));
        s
    }

    /// The question.
    pub fn question(&self) -> (q: &String)
        ensures
            q@ == self@.question,
    {
        &self.question
    }

    /// The number of answers.
    pub fn len(&self) -> (n: usize)
        ensures
            n == self@.rows.len(),
    {
        self.answers.len()
    }

    /// Where `emoji` stands among the answers, or where it would.
    fn find(&self, emoji: char) -> (i: usize)
        ensures
            i == place(self@.rows, emoji),
            i <= self.answers@.len(),
    {
        let mut i: usize = 0;
        while i < self.answers.len() && (self.answers[i].emoji as u32) < (emoji as u32)
            invariant
                i <= self.answers@.len(),
                forall|k: int| 0 <= k < i ==> (#[trigger] self@.rows[k].emoji as u32) < emoji as u32,
            decreases self.answers@.len() - i,
        {
            i = i + 1;
        }
        proof {
            lemma_place(self@.rows, emoji, i as int);
        }
        i
    }

    /// The votes that `emoji` has; none where it is not listed.
    pub fn votes(&self, emoji: char) -> (n: usize)
        ensures
            n == tally(self@.rows, emoji),
    {
        let i = self.find(emoji);
        if i < self.answers.len() && self.answers[i].emoji == emoji {
            self.answers[i].votes
        } else {
            0
        }
    }

    /// The text of the answer under `emoji`, if it is listed.
    pub fn answer(&self, emoji: char) -> (text: Option<&String>)
        ensures
            text is Some <==> listed(self@.rows, emoji),
            text is Some ==> text.unwrap()@ == self@.rows[place(self@.rows, emoji)].text,
    {
        let i = self.find(emoji);
        if i < self.answers.len() && self.answers[i].emoji == emoji {
            Some(&self.answers[i].text)
        } else {
            None
        }
    }

    /// The sum of all votes.
    pub fn total_votes(&self) -> (sum: u128)
        requires
            self.wf(),
        ensures
            sum == total(self@.rows),
            sum <= self@.rows.len() * usize::MAX,
    {
        proof {
            lemma_ordered_len(self@.rows);
        }
        let mut sum: u128 = 0;
        let mut i: usize = 0;
        while i < self.answers.len()
            invariant
                self.wf(),
                self@.rows.len() <= 0x110000,
                i <= self.answers@.len(),
                sum == total(self@.rows.take(i as int)),
                sum <= i * usize::MAX,
            decreases self.answers@.len() - i,
        {
            proof {
                lemma_total_take(self@.rows, i as int);
                assert(self@.rows[i as int].votes <= usize::MAX);
                assert(i * usize::MAX + usize::MAX <= 0x110000 * usize::MAX) by (nonlinear_arith)
                    requires
                        i < 0x110000,
                ;
                assert((i + 1) * usize::MAX == i * usize::MAX + usize::MAX) by (nonlinear_arith);
            }
            sum = sum + self.answers[i].votes as u128;
            i = i + 1;
        }
        assert(self@.rows.take(i as int) =~= self@.rows);
        sum
    }

    /// Counts a vote for `emoji`. A symbol that is not listed enters the
    /// survey as "Other".
    pub fn add_vote(&mut self, emoji: char)
        requires
            old(self).wf(),
        ensures
            final(self).wf(),
            final(self)@ == voted(old(self)@, emoji),
    {
        let i = self.find(emoji);
        proof {
            lemma_place_splits(self@.rows, emoji);
        }
        if i < self.answers.len() && self.answers[i].emoji == emoji {
            let votes: usize = self.answers[i].votes;
            if votes < usize::MAX {
                self.answers[i].votes = votes + 1;
            }
            assert(self@.rows =~= with_vote(old(self)@.rows, emoji));
        } else {
            let other = Answer { emoji, text: OTHER.to_owned(), votes: 1 };
            self.answers.insert(i, other);
            assert(self@.rows =~= with_vote(old(self)@.rows, emoji));
        }
    }

    /// Takes back a vote for `emoji`. A count of zero stays at zero, and a
    /// symbol that is not listed changes nothing.
    pub fn remove_vote(&mut self, emoji: char)
        requires
            old(self).wf(),
        ensures
            final(self).wf(),
            final(self)@ == unvoted(old(self)@, emoji),
    {
        let i = self.find(emoji);
        if i < self.answers.len() && self.answers[i].emoji == emoji {
            let votes: usize = self.answers[i].votes;
            if votes > 0 {
                self.answers[i].votes = votes - 1;
            }
        }
        assert(self@.rows =~= without_vote(old(self)@.rows, emoji));
    }

    /// The text that shows the survey.
    pub fn render(&self) -> (out: String)
        requires
            self.wf(),
        ensures
            out@ == rendered(self@),
    {
        let sum = self.total_votes();
        proof {
            lemma_ordered_len(self@.rows);
            assert(self@.rows.len() * usize::MAX <= 0x110000 * usize::MAX) by (nonlinear_arith)
                requires
                    self@.rows.len() <= 0x110000,
            ;
        }
        let mut out = String::new();
        out.append("**Survey:** ");
        out.append(self.question.as_str());
        out.append("\n");
        let ghost head = out@;
        assert(head =~= "**Survey:** "@ + self@.question + "\n"@);
        let mut i: usize = 0;
        while i < self.answers.len()
            invariant
                self.wf(),
                i <= self.answers@.len(),
                sum == total(self@.rows),
                sum <= 0x110000 * usize::MAX,
                out@ == head + lines(self@.rows.take(i as int), sum as nat),
            decreases self.answers@.len() - i,
        {
            let ghost before = out@;
            let ghost row = self@.rows[i as int];
            let entry = &self.answers[i];
            assert(row.votes <= usize::MAX);
            push_char(&mut out, entry.emoji);
            if sum > 0 {
                out.append(" (");
                push_decimal(&mut out, (200 * (entry.votes as u128) + sum) / (2 * sum));
                out.append("%)");
            }
            out.append(" ");
            push_trimmed(&mut out, entry.text.as_str());
            out.append(" (");
            push_decimal(&mut out, entry.votes as u128);
            out.append(" votes)\n");
            i = i + 1;
            proof {
                assert(self@.rows.take(i as int).drop_last() =~= self@.rows.take(i - 1));
                assert(self@.rows.take(i as int).last() == row);
                assert(out@ =~= before + line(row, sum as nat));
                assert(out@ =~= head + lines(self@.rows.take(i as int), sum as nat));
            }
        }
        assert(self@.rows.take(i as int) =~= self@.rows);
        assert(out@ =~= rendered(self@));
        out
    }
}

} // verus!
