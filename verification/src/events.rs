//! Reaction events and what they do to the registry: a vote more, a vote
//! less, and the text that the survey's message should show afterwards.
//!
//! Nothing here talks to the chat service. A function takes what happened
//! and hands back what is to be sent.

use crate::alphabet::{allocate, allocated, symbols};
use crate::registry::{unvoted_at, voted_at, SurveyMap};
use crate::survey::{rendered, unvoted, voted, Survey, SurveyView};
use vstd::prelude::*;
use vstd::string::group_string_axioms;

verus! {

/// The error type of the serenity crate, carried as it is.
#[verifier::external_type_specification]
#[verifier::external_body]
pub struct ExSerenityError(serenity::Error);

/// Why an event could not be applied.
#[derive(Debug)]
pub enum SurveyError {
    /// No survey is registered under the event's channel and message.
    NoData,
    /// The reaction names no symbol.
    NoEmoji,
    /// The chat service failed.
    SerenityError(serenity::Error),
}

impl From<serenity::Error> for SurveyError {
    fn from(e: serenity::Error) -> (r: SurveyError) {
        SurveyError::SerenityError(e)
    }
}

impl vstd::std_specs::convert::FromSpecImpl<serenity::Error> for SurveyError {
    open spec fn obeys_from_spec() -> bool {
        true
    }

    open spec fn from_spec(e: serenity::Error) -> SurveyError {
        SurveyError::SerenityError(e)
    }
}

/// `to_string` on serenity's `Error`, which writes the error in words
/// through its `Display`. Nothing is claimed of the text.
#[verifier::external_body]
fn error_text(e: &serenity::Error) -> (text: String) {
    e.to_string()
}

impl SurveyError {
    /// The error in words, after the words "Survey Error: ".
    pub fn message(&self) -> (out: String)
        ensures
            self is NoData ==> out@ == "Survey Error: "@ + "No data"@,
            self is NoEmoji ==> out@ == "Survey Error: "@ + "No emoji"@,
            self is SerenityError ==> exists|text: Seq<char>| out@ == "Survey Error: "@ + text,
    {
        let mut out = String::new();
        out.append("Survey Error: ");
        assert(out@ =~= "Survey Error: "@);
        match self {
            SurveyError::NoData => {
                out.append("No data");
            },
            SurveyError::NoEmoji => {
                out.append("No emoji");
            },
            SurveyError::SerenityError(e) => {
                let text = error_text(e);
                out.append(text.as_str());
                assert(out@ == "Survey Error: "@ + text@);
            },
        }
        out
    }
}

/// A reaction that was added to a message or removed from it.
pub struct Reaction {
    /// The channel of the message.
    pub channel_id: u64,
    /// The message that the reaction is on.
    pub message_id: u64,
    /// Who reacted, where that is known.
    pub user_id: Option<u64>,
    /// The reaction as text. Its first character is the symbol voted for.
    pub emoji: String,
}

/// A message whose content is to be overwritten.
pub struct Edit {
    pub channel_id: u64,
    pub message_id: u64,
    pub content: String,
}

/// What is to be sent to open a survey: the message's content, and the
/// reactions to attach to it, in this order.
pub struct Opening {
    pub content: String,
    pub reactions: Vec<char>,
}

/// What the chat service reports.
pub enum Event {
    ReactionAdded(Reaction),
    ReactionRemoved(Reaction),
}

impl Reaction {
    /// The key of the survey that the reaction is about.
    pub open spec fn key(&self) -> (u64, u64) {
        (self.channel_id, self.message_id)
    }
}

impl Event {
    /// The reaction that the event is about.
    pub open spec fn reaction(&self) -> Reaction {
        match *self {
            Event::ReactionAdded(r) => r,
            Event::ReactionRemoved(r) => r,
        }
    }
}

/// The first character of `s`, if it has one.
pub fn first_char(s: &str) -> (c: Option<char>)
    ensures
        c == if s@.len() > 0 {
            Some(s@[0])
        } else {
            None
        },
{
    broadcast use group_string_axioms;

    let mut chars = s.chars();
    chars.next()
}

/// What an added reaction leads to, from the registry `before` to the
/// registry `after`:
/// without a survey under the reaction's key, `NoData`; with a reaction that
/// names no symbol, `NoEmoji`; both leave the registry as it was. Otherwise
/// the survey has one vote more for the symbol, and the edit shows it.
pub open spec fn add_result(
    before: Map<(u64, u64), SurveyView>,
    after: Map<(u64, u64), SurveyView>,
    reaction: Reaction,
    result: Result<Edit, SurveyError>,
) -> bool {
    let key = reaction.key();
    match result {
        Ok(edit) => {
            &&& before.contains_key(key)
            &&& reaction.emoji@.len() > 0
            &&& after == voted_at(before, key, reaction.emoji@[0])
            &&& edit.channel_id == reaction.channel_id
            &&& edit.message_id == reaction.message_id
            &&& edit.content@ == rendered(voted(before[key], reaction.emoji@[0]))
        },
        Err(SurveyError::NoData) => !before.contains_key(key) && after == before,
        Err(SurveyError::NoEmoji) => before.contains_key(key) && reaction.emoji@.len() == 0
            && after == before,
        Err(SurveyError::SerenityError(_)) => false,
    }
}

/// What a removed reaction leads to: as for an added one, but the survey
/// has one vote less for the symbol, and none less than zero.
pub open spec fn rm_result(
    before: Map<(u64, u64), SurveyView>,
    after: Map<(u64, u64), SurveyView>,
    reaction: Reaction,
    result: Result<Edit, SurveyError>,
) -> bool {
    let key = reaction.key();
    match result {
        Ok(edit) => {
            &&& before.contains_key(key)
            &&& reaction.emoji@.len() > 0
            &&& after == unvoted_at(before, key, reaction.emoji@[0])
            &&& edit.channel_id == reaction.channel_id
            &&& edit.message_id == reaction.message_id
            &&& edit.content@ == rendered(unvoted(before[key], reaction.emoji@[0]))
        },
        Err(SurveyError::NoData) => !before.contains_key(key) && after == before,
        Err(SurveyError::NoEmoji) => before.contains_key(key) && reaction.emoji@.len() == 0
            && after == before,
        Err(SurveyError::SerenityError(_)) => false,
    }
}

/// Counts the vote of an added reaction and says how the survey's message
/// is to be edited.
pub fn update_survey_add(map: &mut SurveyMap, reaction: &Reaction) -> (result: Result<
    Edit,
    SurveyError,
>)
    requires
        old(map).wf(),
    ensures
        final(map).wf(),
        add_result(old(map)@, final(map)@, *reaction, result),
{
    if !map.contains(reaction.channel_id, reaction.message_id) {
        return Err(SurveyError::NoData);
    }
    let emoji = match first_char(reaction.emoji.as_str()) {
        Some(c) => c,
        None => {
            return Err(SurveyError::NoEmoji);
        },
    };
    match map.vote(reaction.channel_id, reaction.message_id, emoji) {
        Some(content) => Ok(
            Edit { channel_id: reaction.channel_id, message_id: reaction.message_id, content },
        ),
        None => Err(SurveyError::NoData),
    }
}

/// Takes back the vote of a removed reaction and says how the survey's
/// message is to be edited.
pub fn update_survey_rm(map: &mut SurveyMap, reaction: &Reaction) -> (result: Result<
    Edit,
    SurveyError,
>)
    requires
        old(map).wf(),
    ensures
        final(map).wf(),
        rm_result(old(map)@, final(map)@, *reaction, result),
{
    if !map.contains(reaction.channel_id, reaction.message_id) {
        return Err(SurveyError::NoData);
    }
    let emoji = match first_char(reaction.emoji.as_str()) {
        Some(c) => c,
        None => {
            return Err(SurveyError::NoEmoji);
        },
    };
    match map.unvote(reaction.channel_id, reaction.message_id, emoji) {
        Some(content) => Ok(
            Edit { channel_id: reaction.channel_id, message_id: reaction.message_id, content },
        ),
        None => Err(SurveyError::NoData),
    }
}

/// Applies one event. A reaction of `bot` itself, such as those it attaches
/// when it opens a survey, is passed over: nothing changes, and nothing is
/// to be sent. Any other reaction is a vote given or taken back.
pub fn handle(map: &mut SurveyMap, bot: u64, event: &Event) -> (result: Result<
    Option<Edit>,
    SurveyError,
>)
    requires
        old(map).wf(),
    ensures
        final(map).wf(),
        event.reaction().user_id == Some(bot) ==> result == Ok::<Option<Edit>, SurveyError>(None)
            && final(map)@ == old(map)@,
        event.reaction().user_id != Some(bot) ==> match result {
            Ok(Some(edit)) => match *event {
                Event::ReactionAdded(r) => add_result(old(map)@, final(map)@, r, Ok(edit)),
                Event::ReactionRemoved(r) => rm_result(old(map)@, final(map)@, r, Ok(edit)),
            },
            Ok(None) => false,
            Err(e) => match *event {
                Event::ReactionAdded(r) => add_result(old(map)@, final(map)@, r, Err(e)),
                Event::ReactionRemoved(r) => rm_result(old(map)@, final(map)@, r, Err(e)),
            },
        },
{
    let reaction = match event {
        Event::ReactionAdded(r) => r,
        Event::ReactionRemoved(r) => r,
    };
    let own = match reaction.user_id {
        Some(user) => user == bot,
        None => false,
    };
    if own {
        return Ok(None);
    }
    let outcome = match event {
        Event::ReactionAdded(r) => update_survey_add(map, r),
        Event::ReactionRemoved(r) => update_survey_rm(map, r),
    };
    match outcome {
        Ok(edit) => Ok(Some(edit)),
        Err(e) => Err(e),
    }
}

/// What is to be sent to open `survey`: its text as a new message, then one
/// reaction for each answer that has a symbol, in the order of the alphabet.
pub fn opening(survey: &Survey) -> (o: Opening)
    requires
        survey.wf(),
    ensures
        o.content@ == rendered(survey@),
        o.reactions@ == symbols(allocated(survey@.rows.len())),
{
    Opening { content: survey.render(), reactions: allocate(survey.len()) }
}

/// Registers `survey` once its message `message` stands in `channel`.
pub fn new_survey(map: &mut SurveyMap, channel: u64, message: u64, survey: Survey)
    requires
        old(map).wf(),
        survey.wf(),
    ensures
        final(map).wf(),
        final(map)@ == old(map)@.insert((channel, message), survey@),
{
    map.insert(channel, message, survey);
}

} // verus!
