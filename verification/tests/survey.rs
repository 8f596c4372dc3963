use survey_core::survey::Survey;

const A: char = '\u{1F1E6}';
const B: char = '\u{1F1E7}';
const C: char = '\u{1F1E8}';

fn pets() -> Survey {
    Survey::new("Best pet?".to_string(), &["Cats".to_string(), "Dogs".to_string()])
}

#[test]
fn new_survey_has_its_answers_without_votes() {
    let s = pets();
    assert_eq!(s.question(), "Best pet?");
    assert_eq!(s.len(), 2);
    assert_eq!(s.answer(A).map(|t| t.as_str()), Some("Cats"));
    assert_eq!(s.answer(B).map(|t| t.as_str()), Some("Dogs"));
    assert_eq!(s.answer(C), None);
    assert_eq!(s.votes(A), 0);
    assert_eq!(s.votes(B), 0);
    assert_eq!(s.total_votes(), 0);
}

#[test]
fn new_survey_renders_without_percentages() {
    let s = pets();
    assert_eq!(
        s.render(),
        "**Survey:** Best pet?\n\u{1F1E6} Cats (0 votes)\n\u{1F1E7} Dogs (0 votes)\n"
    );
}

#[test]
fn survey_without_answers_renders_the_header_alone() {
    let s = Survey::new("Anyone?".to_string(), &[]);
    assert_eq!(s.len(), 0);
    assert_eq!(s.render(), "**Survey:** Anyone?\n");
}

#[test]
fn answers_past_the_26th_are_left_out() {
    let answers: Vec<String> = (0..30).map(|i| format!("answer {}", i)).collect();
    let s = Survey::new("Many".to_string(), &answers);
    assert_eq!(s.len(), 26);
    assert_eq!(s.answer('\u{1F1FF}').map(|t| t.as_str()), Some("answer 25"));
    assert_eq!(s.render().lines().count(), 27);
}

#[test]
fn one_and_two_votes_render_as_33_and_67_percent() {
    let mut s = pets();
    s.add_vote(A);
    s.add_vote(B);
    s.add_vote(B);
    assert_eq!(s.votes(A), 1);
    assert_eq!(s.votes(B), 2);
    assert_eq!(s.total_votes(), 3);
    assert_eq!(
        s.render(),
        "**Survey:** Best pet?\n\u{1F1E6} (33%) Cats (1 votes)\n\u{1F1E7} (67%) Dogs (2 votes)\n"
    );
}

#[test]
fn half_a_percent_rounds_up() {
    let mut s = pets();
    s.add_vote(A);
    for _ in 0..7 {
        s.add_vote(B);
    }
    assert_eq!(
        s.render(),
        "**Survey:** Best pet?\n\u{1F1E6} (13%) Cats (1 votes)\n\u{1F1E7} (88%) Dogs (7 votes)\n"
    );
}

#[test]
fn all_votes_on_one_answer_are_100_percent() {
    let mut s = pets();
    for _ in 0..120 {
        s.add_vote(B);
    }
    assert_eq!(
        s.render(),
        "**Survey:** Best pet?\n\u{1F1E6} (0%) Cats (0 votes)\n\u{1F1E7} (100%) Dogs (120 votes)\n"
    );
}

#[test]
fn vote_then_unvote_returns_to_the_count_before() {
    let mut s = pets();
    s.add_vote(A);
    let before = (s.votes(A), s.votes(B), s.render());
    s.add_vote(A);
    s.remove_vote(A);
    assert_eq!((s.votes(A), s.votes(B), s.render()), before);
    s.add_vote(B);
    s.remove_vote(B);
    assert_eq!((s.votes(A), s.votes(B), s.render()), before);
}

#[test]
fn unknown_symbol_enters_as_other_with_one_vote() {
    let mut s = pets();
    s.add_vote('\u{1F600}');
    assert_eq!(s.len(), 3);
    assert_eq!(s.answer('\u{1F600}').map(|t| t.as_str()), Some("Other"));
    assert_eq!(s.votes('\u{1F600}'), 1);
    assert_eq!(
        s.render(),
        "**Survey:** Best pet?\n\u{1F1E6} (0%) Cats (0 votes)\n\u{1F1E7} (0%) Dogs (0 votes)\n\u{1F600} (100%) Other (1 votes)\n"
    );
}

#[test]
fn other_answers_stand_in_the_order_of_their_symbols() {
    let mut s = pets();
    s.add_vote('z');
    s.add_vote('a');
    s.add_vote(C);
    s.add_vote('a');
    assert_eq!(
        s.render(),
        "**Survey:** Best pet?\na (50%) Other (2 votes)\nz (25%) Other (1 votes)\n\u{1F1E6} (0%) Cats (0 votes)\n\u{1F1E7} (0%) Dogs (0 votes)\n\u{1F1E8} (25%) Other (1 votes)\n"
    );
}

#[test]
fn votes_for_two_symbols_both_count_in_either_order() {
    let mut one = pets();
    one.add_vote(A);
    one.add_vote(B);
    let mut two = pets();
    two.add_vote(B);
    two.add_vote(A);
    assert_eq!((one.votes(A), one.votes(B)), (1, 1));
    assert_eq!((two.votes(A), two.votes(B)), (1, 1));
    assert_eq!(one.render(), two.render());
}

#[test]
fn unvote_at_zero_stays_at_zero() {
    let mut s = pets();
    s.remove_vote(A);
    assert_eq!(s.votes(A), 0);
    s.add_vote(A);
    s.remove_vote(A);
    s.remove_vote(A);
    assert_eq!(s.votes(A), 0);
    assert_eq!(s.total_votes(), 0);
}

#[test]
fn unvote_of_an_unknown_symbol_changes_nothing() {
    let mut s = pets();
    let before = s.render();
    s.remove_vote('x');
    assert_eq!(s.len(), 2);
    assert_eq!(s.answer('x'), None);
    assert_eq!(s.render(), before);
}

#[test]
fn quotes_at_the_ends_of_an_answer_are_not_shown() {
    let s = Survey::new(
        "Q".to_string(),
        &["\"Yes\"".to_string(), "\"\"say \"no\"\"".to_string(), "\"\"".to_string()],
    );
    assert_eq!(s.answer(A).map(|t| t.as_str()), Some("\"Yes\""));
    assert_eq!(
        s.render(),
        "**Survey:** Q\n\u{1F1E6} Yes (0 votes)\n\u{1F1E7} say \"no (0 votes)\n\u{1F1E8}  (0 votes)\n"
    );
}

#[test]
fn quotes_in_the_question_stay() {
    let s = Survey::new("\"Q\"".to_string(), &[]);
    assert_eq!(s.render(), "**Survey:** \"Q\"\n");
}
