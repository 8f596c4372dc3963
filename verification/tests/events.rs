use survey_core::events::{
    first_char, handle, new_survey, opening, update_survey_add, update_survey_rm, Event, Reaction,
    SurveyError,
};
use survey_core::registry::SurveyMap;
use survey_core::survey::Survey;

const A: char = '\u{1F1E6}';
const B: char = '\u{1F1E7}';
const BOT: u64 = 99;

fn pets() -> Survey {
    Survey::new("Best pet?".to_string(), &["Cats".to_string(), "Dogs".to_string()])
}

fn registry() -> SurveyMap {
    let mut map = SurveyMap::new();
    new_survey(&mut map, 7, 1000, pets());
    map
}

fn reaction(channel: u64, message: u64, user: u64, emoji: &str) -> Reaction {
    Reaction { channel_id: channel, message_id: message, user_id: Some(user), emoji: emoji.to_string() }
}

fn tallies(map: &SurveyMap) -> (usize, usize) {
    let s = map.get(7, 1000).unwrap();
    (s.votes(A), s.votes(B))
}

#[test]
fn first_char_of_a_string() {
    assert_eq!(first_char(""), None);
    assert_eq!(first_char("x"), Some('x'));
    assert_eq!(first_char("\u{1F1E7}\u{1F1E6}"), Some(B));
    assert_eq!(first_char("<:blob:41771983429993937>"), Some('<'));
}

#[test]
fn opening_has_the_text_and_one_reaction_per_answer() {
    let o = opening(&pets());
    assert_eq!(
        o.content,
        "**Survey:** Best pet?\n\u{1F1E6} Cats (0 votes)\n\u{1F1E7} Dogs (0 votes)\n"
    );
    assert_eq!(o.reactions, vec![A, B]);
}

#[test]
fn opening_of_a_survey_with_others_reacts_with_the_alphabet() {
    let mut s = pets();
    s.add_vote('x');
    let o = opening(&s);
    assert_eq!(o.reactions, vec![A, B, '\u{1F1E8}']);
}

#[test]
fn new_survey_registers_under_channel_and_message() {
    let map = registry();
    assert!(map.contains(7, 1000));
    assert!(!map.contains(7, 1001));
    assert!(!map.contains(1000, 7));
    assert_eq!(map.get(7, 1000).unwrap().question(), "Best pet?");
    assert!(map.get(8, 1000).is_none());
}

#[test]
fn new_survey_on_a_taken_key_replaces_the_survey() {
    let mut map = registry();
    new_survey(&mut map, 7, 1000, Survey::new("Other?".to_string(), &[]));
    assert_eq!(map.get(7, 1000).unwrap().question(), "Other?");
}

#[test]
fn added_reactions_count_and_edit_the_message() {
    let mut map = registry();
    let edit = update_survey_add(&mut map, &reaction(7, 1000, 1, "\u{1F1E6}")).unwrap();
    assert_eq!((edit.channel_id, edit.message_id), (7, 1000));
    assert_eq!(
        edit.content,
        "**Survey:** Best pet?\n\u{1F1E6} (100%) Cats (1 votes)\n\u{1F1E7} (0%) Dogs (0 votes)\n"
    );
    update_survey_add(&mut map, &reaction(7, 1000, 2, "\u{1F1E7}")).unwrap();
    let edit = update_survey_add(&mut map, &reaction(7, 1000, 3, "\u{1F1E7}")).unwrap();
    assert_eq!(tallies(&map), (1, 2));
    assert_eq!(
        edit.content,
        "**Survey:** Best pet?\n\u{1F1E6} (33%) Cats (1 votes)\n\u{1F1E7} (67%) Dogs (2 votes)\n"
    );
    assert_eq!(edit.content, map.get(7, 1000).unwrap().render());
}

#[test]
fn added_then_removed_reaction_returns_to_the_tally_before() {
    let mut map = registry();
    update_survey_add(&mut map, &reaction(7, 1000, 1, "\u{1F1E7}")).unwrap();
    let before = tallies(&map);
    update_survey_add(&mut map, &reaction(7, 1000, 2, "\u{1F1E6}")).unwrap();
    let edit = update_survey_rm(&mut map, &reaction(7, 1000, 2, "\u{1F1E6}")).unwrap();
    assert_eq!(tallies(&map), before);
    assert_eq!(
        edit.content,
        "**Survey:** Best pet?\n\u{1F1E6} (0%) Cats (0 votes)\n\u{1F1E7} (100%) Dogs (1 votes)\n"
    );
}

#[test]
fn removed_reaction_at_zero_votes_stays_at_zero() {
    let mut map = registry();
    let edit = update_survey_rm(&mut map, &reaction(7, 1000, 1, "\u{1F1E6}")).unwrap();
    assert_eq!(tallies(&map), (0, 0));
    assert_eq!(
        edit.content,
        "**Survey:** Best pet?\n\u{1F1E6} Cats (0 votes)\n\u{1F1E7} Dogs (0 votes)\n"
    );
}

#[test]
fn reaction_with_an_unknown_symbol_adds_other() {
    let mut map = registry();
    let edit = update_survey_add(&mut map, &reaction(7, 1000, 1, "\u{1F44D}")).unwrap();
    assert_eq!(
        edit.content,
        "**Survey:** Best pet?\n\u{1F1E6} (0%) Cats (0 votes)\n\u{1F1E7} (0%) Dogs (0 votes)\n\u{1F44D} (100%) Other (1 votes)\n"
    );
    assert_eq!(map.get(7, 1000).unwrap().votes('\u{1F44D}'), 1);
}

#[test]
fn only_the_first_character_of_the_reaction_counts() {
    let mut map = registry();
    update_survey_add(&mut map, &reaction(7, 1000, 1, "\u{1F1E7}\u{1F1E6}")).unwrap();
    assert_eq!(tallies(&map), (0, 1));
}

#[test]
fn reactions_for_two_symbols_both_register_in_either_order() {
    let mut one = registry();
    update_survey_add(&mut one, &reaction(7, 1000, 1, "\u{1F1E6}")).unwrap();
    update_survey_add(&mut one, &reaction(7, 1000, 2, "\u{1F1E7}")).unwrap();
    let mut two = registry();
    update_survey_add(&mut two, &reaction(7, 1000, 2, "\u{1F1E7}")).unwrap();
    update_survey_add(&mut two, &reaction(7, 1000, 1, "\u{1F1E6}")).unwrap();
    assert_eq!(tallies(&one), (1, 1));
    assert_eq!(tallies(&two), (1, 1));
}

#[test]
fn reaction_on_an_unknown_message_is_no_data() {
    let mut map = registry();
    let add = update_survey_add(&mut map, &reaction(7, 1001, 1, "\u{1F1E6}"));
    assert!(matches!(add, Err(SurveyError::NoData)));
    let rm = update_survey_rm(&mut map, &reaction(8, 1000, 1, "\u{1F1E6}"));
    assert!(matches!(rm, Err(SurveyError::NoData)));
    assert!(!map.contains(7, 1001));
    assert!(!map.contains(8, 1000));
    assert_eq!(tallies(&map), (0, 0));
    let mut empty = SurveyMap::new();
    let add = update_survey_add(&mut empty, &reaction(7, 1000, 1, "\u{1F1E6}"));
    assert!(matches!(add, Err(SurveyError::NoData)));
    assert!(!empty.contains(7, 1000));
}

#[test]
fn reaction_without_a_symbol_is_no_emoji() {
    let mut map = registry();
    let add = update_survey_add(&mut map, &reaction(7, 1000, 1, ""));
    assert!(matches!(add, Err(SurveyError::NoEmoji)));
    let rm = update_survey_rm(&mut map, &reaction(7, 1000, 1, ""));
    assert!(matches!(rm, Err(SurveyError::NoEmoji)));
    assert_eq!(tallies(&map), (0, 0));
    let missing = update_survey_add(&mut map, &reaction(1, 1, 1, ""));
    assert!(matches!(missing, Err(SurveyError::NoData)));
}

#[test]
fn reactions_of_the_bot_are_passed_over() {
    let mut map = registry();
    for emoji in ["\u{1F1E6}", "\u{1F1E7}"] {
        let got = handle(&mut map, BOT, &Event::ReactionAdded(reaction(7, 1000, BOT, emoji)));
        assert!(matches!(got, Ok(None)));
    }
    assert_eq!(tallies(&map), (0, 0));
    let got = handle(&mut map, BOT, &Event::ReactionRemoved(reaction(7, 1000, BOT, "\u{1F1E6}")));
    assert!(matches!(got, Ok(None)));
    let got = handle(&mut map, BOT, &Event::ReactionAdded(reaction(1, 1, BOT, "")));
    assert!(matches!(got, Ok(None)));
}

#[test]
fn reactions_of_others_are_votes() {
    let mut map = registry();
    let got = handle(&mut map, BOT, &Event::ReactionAdded(reaction(7, 1000, 5, "\u{1F1E7}")));
    let edit = got.unwrap().unwrap();
    assert_eq!(edit.content, map.get(7, 1000).unwrap().render());
    assert_eq!(tallies(&map), (0, 1));
    let unknown = Reaction { channel_id: 7, message_id: 1000, user_id: None, emoji: "\u{1F1E7}".to_string() };
    handle(&mut map, BOT, &Event::ReactionAdded(unknown)).unwrap();
    assert_eq!(tallies(&map), (0, 2));
    handle(&mut map, BOT, &Event::ReactionRemoved(reaction(7, 1000, 5, "\u{1F1E7}"))).unwrap();
    assert_eq!(tallies(&map), (0, 1));
    let got = handle(&mut map, BOT, &Event::ReactionRemoved(reaction(7, 1, 5, "\u{1F1E7}")));
    assert!(matches!(got, Err(SurveyError::NoData)));
}

#[test]
fn surveys_are_counted_apart() {
    let mut map = registry();
    new_survey(&mut map, 7, 2000, pets());
    update_survey_add(&mut map, &reaction(7, 2000, 1, "\u{1F1E6}")).unwrap();
    assert_eq!(tallies(&map), (0, 0));
    assert_eq!(map.get(7, 2000).unwrap().votes(A), 1);
}

#[test]
fn errors_in_words() {
    assert_eq!(SurveyError::NoData.message(), "Survey Error: No data");
    assert_eq!(SurveyError::NoEmoji.message(), "Survey Error: No emoji");
    let e = SurveyError::from(serenity::Error::Other("boom"));
    assert!(matches!(e, SurveyError::SerenityError(_)));
    assert_eq!(e.message(), "Survey Error: boom");
}
