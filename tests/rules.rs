use simple_bot::action::{ActionDefinition, ActionError, ActionList, Matcher, Reaction};
use simple_bot::engine::Step;
use simple_bot::message::{ChatMode, Message, Target};
use simple_bot::pattern::{word_pattern_source, Pattern};

fn message(target: Target, text: &str) -> Message {
    Message {
        target,
        invoker_id: 7,
        invoker_name: "alice".to_string(),
        invoker_uid: None,
        message: text.to_string(),
    }
}

fn contains(trigger: &str, response: &str) -> ActionDefinition {
    ActionDefinition {
        contains: Some(trigger.to_string()),
        response: Some(response.to_string()),
        ..Default::default()
    }
}

#[test]
fn literal_trigger_gets_word_boundaries() {
    assert_eq!(word_pattern_source("bar"), "\\bbar\\b");
    assert_eq!(word_pattern_source("a.b"), "\\ba\\.b\\b");
    assert_eq!(word_pattern_source("!hi"), "!hi\\b");
    assert_eq!(word_pattern_source("1+1"), "1\\+1");
    assert_eq!(word_pattern_source(""), "");
}

#[test]
fn literal_trigger_matches_whole_words_only() {
    let action = contains("bar", "x").to_action().unwrap();
    let m = &action.matchers[0];
    assert!(m.matches(&message(Target::Channel, "foo bar baz")));
    assert!(m.matches(&message(Target::Channel, "bar")));
    assert!(!m.matches(&message(Target::Channel, "foobar barbaz")));
    assert!(!m.matches(&message(Target::Channel, "foo bars")));
}

#[test]
fn punctuation_trigger_has_no_boundary_on_that_side() {
    let action = contains("!ping", "pong").to_action().unwrap();
    let m = &action.matchers[0];
    assert!(m.matches(&message(Target::Channel, "x!ping")));
    assert!(!m.matches(&message(Target::Channel, "!pingy")));
}

#[test]
fn regex_definition_is_compiled_as_is() {
    let def = ActionDefinition {
        regex: Some("^h(a|e)llo$".to_string()),
        response: Some("hi".to_string()),
        ..Default::default()
    };
    let action = def.to_action().unwrap();
    match &action.matchers[0] {
        Matcher::Regex(p) => assert_eq!(p.as_str(), "^h(a|e)llo$"),
        _ => panic!("expected a pattern"),
    }
    assert!(action.matchers[0].matches(&message(Target::Server, "hallo")));
    assert!(!action.matchers[0].matches(&message(Target::Server, "hallo!")));
    assert_eq!(action.reaction, Some(Reaction::Plain("hi".to_string())));
}

#[test]
fn both_matchers_is_an_error() {
    let def = ActionDefinition {
        contains: Some("a".to_string()),
        regex: Some("b".to_string()),
        ..Default::default()
    };
    assert_eq!(def.to_action().unwrap_err(), ActionError::BothMatchers);
}

#[test]
fn invalid_regex_is_an_error() {
    let def = ActionDefinition { regex: Some("(".to_string()), ..Default::default() };
    assert_eq!(def.to_action().unwrap_err(), ActionError::InvalidPattern("(".to_string()));
    assert!(Pattern::new("(").is_err());
    assert!(Pattern::new("a+").is_ok());
}

#[test]
fn unknown_chat_mode_is_an_error() {
    let def = ActionDefinition { chat: Some("lobby".to_string()), ..Default::default() };
    assert_eq!(def.to_action().unwrap_err(), ActionError::UnknownChat("lobby".to_string()));
}

#[test]
fn several_reactions_is_an_error() {
    let def = ActionDefinition {
        contains: Some("a".to_string()),
        response: Some("b".to_string()),
        shell: Some("echo".to_string()),
        ..Default::default()
    };
    assert_eq!(def.to_action().unwrap_err(), ActionError::SeveralReactions);
}

#[test]
fn chat_modes_match_their_targets() {
    let server = Matcher::Mode(Some(ChatMode::Server));
    let channel = Matcher::Mode(Some(ChatMode::Channel));
    let client = Matcher::Mode(Some(ChatMode::Client));
    let poke = Matcher::Mode(None);
    assert!(server.matches(&message(Target::Server, "x")));
    assert!(!server.matches(&message(Target::Channel, "x")));
    assert!(channel.matches(&message(Target::Channel, "x")));
    assert!(client.matches(&message(Target::Client(3), "x")));
    assert!(!client.matches(&message(Target::Poke(3), "x")));
    assert!(poke.matches(&message(Target::Poke(3), "x")));
    assert!(!poke.matches(&message(Target::Client(3), "x")));
}

#[test]
fn chat_definition_adds_a_mode_matcher() {
    let def = ActionDefinition {
        contains: Some("hi".to_string()),
        chat: Some("poke".to_string()),
        command: Some("greet".to_string()),
        ..Default::default()
    };
    let action = def.to_action().unwrap();
    assert_eq!(action.matchers.len(), 2);
    assert!(matches!(action.matchers[1], Matcher::Mode(None)));
    assert_eq!(action.reaction, Some(Reaction::Command("greet".to_string())));
}

fn rules(defs: &[ActionDefinition]) -> ActionList {
    ActionList(defs.iter().map(|d| d.to_action().unwrap()).collect())
}

#[test]
fn first_matching_rule_answers() {
    let list = rules(&[contains("cat", "meow"), contains("dog", "woof"), contains("dog", "bark")]);
    let msg = message(Target::Channel, "a dog and a cat");
    assert_eq!(list.handle(&msg), Step::Finish(Some("meow".to_string())));
    let msg = message(Target::Channel, "only a dog");
    assert_eq!(list.handle(&msg), Step::Finish(Some("woof".to_string())));
    let msg = message(Target::Channel, "nothing");
    assert_eq!(list.handle(&msg), Step::Finish(None));
}

#[test]
fn rule_without_reaction_silences() {
    let silent = ActionDefinition { contains: Some("dog".to_string()), ..Default::default() };
    let list = rules(&[silent, contains("dog", "woof")]);
    let msg = message(Target::Channel, "a dog");
    assert_eq!(list.handle(&msg), Step::Finish(None));
}

#[test]
fn empty_response_suppresses() {
    let list = rules(&[contains("dog", ""), contains("dog", "woof")]);
    assert_eq!(list.handle(&message(Target::Channel, "dog")), Step::Finish(None));
}

#[test]
fn declined_process_goes_on_to_next_rule() {
    let cmd = ActionDefinition {
        contains: Some("dog".to_string()),
        command: Some("check".to_string()),
        ..Default::default()
    };
    let list = rules(&[cmd, contains("dog", "woof")]);
    let msg = message(Target::Channel, "dog");
    assert_eq!(list.handle(&msg), Step::Run(0));
    assert_eq!(list.resume(&msg, 0, None), Step::Finish(Some("woof".to_string())));
    assert_eq!(list.resume(&msg, 0, Some("out".to_string())), Step::Finish(Some("out".to_string())));
    assert_eq!(list.resume(&msg, 0, Some(String::new())), Step::Finish(None));
}

#[test]
fn later_rules_are_not_reached_after_an_answer() {
    let first = ActionDefinition {
        contains: Some("dog".to_string()),
        shell: Some("echo one".to_string()),
        ..Default::default()
    };
    let second = ActionDefinition {
        contains: Some("dog".to_string()),
        shell: Some("echo two".to_string()),
        ..Default::default()
    };
    let list = rules(&[first, second]);
    let msg = message(Target::Channel, "dog");
    let mut ran = Vec::new();
    let mut step = list.handle(&msg);
    let reply = loop {
        match step {
            Step::Run(i) => {
                ran.push(i);
                step = list.resume(&msg, i, Some("answer".to_string()));
            }
            Step::Finish(r) => break r,
        }
    };
    assert_eq!(reply, Some("answer".to_string()));
    assert_eq!(ran, vec![0]);
}

#[test]
fn advance_starts_at_the_given_rule() {
    let list = rules(&[contains("dog", "woof"), contains("dog", "bark")]);
    let msg = message(Target::Channel, "dog");
    assert_eq!(list.advance(&msg, 1), Step::Finish(Some("bark".to_string())));
    assert_eq!(list.advance(&msg, 2), Step::Finish(None));
}
