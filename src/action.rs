//! Rules: how they are built from their definitions, how a message is matched
//! against them, and how the engine walks an ordered list of them.
use vstd::prelude::*;

use crate::message::{mode_holds, ChatMode, Message, Target};
use crate::pattern::{regex_compiles, regex_finds, word_pattern_source, word_source, Pattern};
use crate::text::same_text;

verus! {

/// The source form of a rule, as written in settings and in the dynamic store.
#[derive(Clone, Debug, Default, PartialEq, Eq)]
pub struct ActionDefinition {
    /// A literal trigger, matched as a whole word where it starts or ends with a letter.
    pub contains: Option<String>,
    /// A regular expression trigger.
    pub regex: Option<String>,
    /// The chat mode filter: `server`, `channel`, `client` or `poke`.
    pub chat: Option<String>,
    /// A fixed reply.
    pub response: Option<String>,
    /// A program to run, with its arguments separated by spaces.
    pub command: Option<String>,
    /// A script for the system shell.
    pub shell: Option<String>,
}

/// Why a rule definition cannot be loaded.
#[derive(Clone, Debug, PartialEq, Eq)]
pub enum ActionError {
    /// Both `contains` and `regex` are given.
    BothMatchers,
    /// The pattern (given, or built from the literal) does not compile.
    InvalidPattern(String),
    /// The chat mode is none of the four known ones.
    UnknownChat(String),
    /// More than one of `response`, `command` and `shell` is given.
    SeveralReactions,
}

/// One condition of a rule.
#[derive(Debug)]
pub enum Matcher {
    Regex(Pattern),
    /// `None` stands for a poke.
    Mode(Option<ChatMode>),
}

/// The administrative commands that come with every rule list.
#[derive(Clone, Copy, Debug, PartialEq, Eq, Structural)]
pub enum Builtin {
    Help,
    Copyright,
    List,
    Add,
    Del,
    Reload,
    Quit,
}

/// What a rule does once all its matchers hold.
#[derive(Clone, Debug, PartialEq, Eq)]
pub enum Reaction {
    Plain(String),
    Command(String),
    Shell(String),
    Function(Builtin),
}

/// A rule: all matchers have to hold; without a reaction a matching rule
/// silences the message.
#[derive(Debug)]
pub struct Action {
    pub matchers: Vec<Matcher>,
    pub reaction: Option<Reaction>,
}

/// The ordered rules; the first conclusive one wins.
#[derive(Debug)]
pub struct ActionList(pub Vec<Action>);

/// The chat mode named by `s`: `None` for an unknown name, `Some(None)` for a poke.
pub open spec fn chat_mode_of(s: Seq<char>) -> Option<Option<ChatMode>> {
    if s == "server"@ {
        Some(Some(ChatMode::Server))
    } else if s == "channel"@ {
        Some(Some(ChatMode::Channel))
    } else if s == "client"@ {
        Some(Some(ChatMode::Client))
    } else if s == "poke"@ {
        Some(None)
    } else {
        None
    }
}

/// The pattern source of a definition's text matcher, if it has one.
pub open spec fn matcher_source(d: ActionDefinition) -> Option<Seq<char>> {
    match d.contains {
        Some(c) => Some(word_source(c@)),
        None => match d.regex {
            Some(r) => Some(r@),
            None => None,
        },
    }
}

/// How many reactions a definition gives.
pub open spec fn reaction_count(d: ActionDefinition) -> int {
    (if d.response is Some { 1int } else { 0 }) + (if d.command is Some { 1int } else { 0 }) + (
    if d.shell is Some { 1int } else { 0 })
}

/// The reaction of a definition with at most one reaction.
pub open spec fn definition_reaction(d: ActionDefinition) -> Option<Reaction> {
    match d.response {
        Some(s) => Some(Reaction::Plain(s)),
        None => match d.command {
            Some(s) => Some(Reaction::Command(s)),
            None => match d.shell {
                Some(s) => Some(Reaction::Shell(s)),
                None => None,
            },
        },
    }
}

/// `a` is the rule that the valid definition `d` describes.
pub open spec fn built_from(d: ActionDefinition, a: Action) -> bool {
    let text = if matcher_source(d) is Some { 1int } else { 0 };
    let chat = if d.chat is Some { 1int } else { 0 };
    &&& a.matchers@.len() == text + chat
    &&& (matcher_source(d) matches Some(src) ==> (a.matchers@[0] matches Matcher::Regex(p)
        && p@ == src))
    &&& (d.chat matches Some(c) ==> a.matchers@[text] == Matcher::Mode(chat_mode_of(c@)->0))
    &&& a.reaction == definition_reaction(d)
}

/// What loading `d` gives: the first error in the order matchers, chat mode,
/// reactions, or else the rule it describes.
pub open spec fn loaded_as(d: ActionDefinition, r: Result<Action, ActionError>) -> bool {
    if d.contains is Some && d.regex is Some {
        r == Err::<Action, ActionError>(ActionError::BothMatchers)
    } else if matcher_source(d) is Some && !regex_compiles(matcher_source(d)->0) {
        r matches Err(ActionError::InvalidPattern(s)) && s@ == matcher_source(d)->0
    } else if d.chat is Some && chat_mode_of(d.chat->0@) is None {
        r == Err::<Action, ActionError>(ActionError::UnknownChat(d.chat->0))
    } else if reaction_count(d) > 1 {
        r == Err::<Action, ActionError>(ActionError::SeveralReactions)
    } else {
        r matches Ok(a) && built_from(d, a)
    }
}

/// Whether matcher `m` holds of `msg`.
pub open spec fn matcher_holds(m: Matcher, msg: Message) -> bool {
    match m {
        Matcher::Regex(p) => regex_finds(p@, msg.message@),
        Matcher::Mode(mode) => mode_holds(mode, msg.target),
    }
}

/// Whether all matchers of `a` hold of `msg`.
pub open spec fn action_matches(a: Action, msg: Message) -> bool {
    forall|k: int| 0 <= k < a.matchers@.len() ==> matcher_holds(#[trigger] a.matchers@[k], msg)
}

fn chat_mode(s: &str) -> (r: Option<Option<ChatMode>>)
    ensures
        r == chat_mode_of(s@),
{
    if same_text(s, "server") {
        Some(Some(ChatMode::Server))
    } else if same_text(s, "channel") {
        Some(Some(ChatMode::Channel))
    } else if same_text(s, "client") {
        Some(Some(ChatMode::Client))
    } else if same_text(s, "poke") {
        Some(None)
    } else {
        None
    }
}

impl ActionDefinition {
    /// Builds the rule this definition describes.
    pub fn to_action(&self) -> (r: Result<Action, ActionError>)
        ensures
            loaded_as(*self, r),
    {
        let mut matchers: Vec<Matcher> = Vec::new();
        match &self.contains {
            Some(c) => {
                if self.regex.is_some() {
                    return Err(ActionError::BothMatchers);
                }
                let source = word_pattern_source(c.as_str());
                match Pattern::new(source.as_str()) {
                    Ok(p) => matchers.push(Matcher::Regex(p)),
                    Err(_) => {
                        return Err(ActionError::InvalidPattern(source));
                    },
                }
            },
            None => match &self.regex {
                Some(source) => match Pattern::new(source.as_str()) {
                    Ok(p) => matchers.push(Matcher::Regex(p)),
                    Err(_) => {
                        return Err(ActionError::InvalidPattern(source.clone()));
                    },
                },
                None => {},
            },
        }
        let ghost text_count = matchers@.len();
        if let Some(chat) = &self.chat {
            match chat_mode(chat.as_str()) {
                Some(mode) => matchers.push(Matcher::Mode(mode)),
                None => {
                    return Err(ActionError::UnknownChat(chat.clone()));
                },
            }
        }
        let mut count: usize = 0;
        let mut reaction: Option<Reaction> = None;
        if let Some(s) = &self.shell {
            reaction = Some(Reaction::Shell(s.clone()));
            count += 1;
        }
        if let Some(s) = &self.command {
            reaction = Some(Reaction::Command(s.clone()));
            count += 1;
        }
        if let Some(s) = &self.response {
            reaction = Some(Reaction::Plain(s.clone()));
            count += 1;
        }
        if count > 1 {
            return Err(ActionError::SeveralReactions);
        }
        assert(text_count == (if matcher_source(*self) is Some { 1int } else { 0 }));
        Ok(Action { matchers, reaction })
    }
}

impl Matcher {
    /// Whether this matcher holds of `msg`.
    pub fn matches(&self, msg: &Message) -> (r: bool)
        ensures
            r == matcher_holds(*self, *msg),
    {
        match self {
            Matcher::Regex(p) => p.is_match(msg.message.as_str()),
            Matcher::Mode(m) => match m {
                Some(ChatMode::Server) => matches!(msg.target, Target::Server),
                Some(ChatMode::Channel) => matches!(msg.target, Target::Channel),
                Some(ChatMode::Client) => matches!(msg.target, Target::Client(_)),
                None => matches!(msg.target, Target::Poke(_)),
            },
        }
    }
}

} // verus!

verus! {

/// Loading the same definition twice, as a reload of a stored rule does,
/// gives rules that match exactly the same messages and react alike.
pub proof fn lemma_reload_same_behavior(d: ActionDefinition, a: Action, b: Action, msg: Message)
    requires
        loaded_as(d, Ok(a)),
        loaded_as(d, Ok(b)),
    ensures
        action_matches(a, msg) == action_matches(b, msg),
        a.reaction == b.reaction,
{
    assert forall|k: int| 0 <= k < a.matchers@.len() implies matcher_holds(
        #[trigger] a.matchers@[k],
        msg,
    ) == matcher_holds(b.matchers@[k], msg) by {
        if matcher_source(d) is Some && k == 0 {
            assert(a.matchers@[0] matches Matcher::Regex(p) && p@ == matcher_source(d)->0);
            assert(b.matchers@[0] matches Matcher::Regex(p) && p@ == matcher_source(d)->0);
        } else {
            assert(a.matchers@[k] == b.matchers@[k]);
        }
    }
    if action_matches(a, msg) {
        assert forall|k: int| 0 <= k < b.matchers@.len() implies matcher_holds(
            #[trigger] b.matchers@[k],
            msg,
        ) by {
            assert(matcher_holds(a.matchers@[k], msg));
        }
    }
    if action_matches(b, msg) {
        assert forall|k: int| 0 <= k < a.matchers@.len() implies matcher_holds(
            #[trigger] a.matchers@[k],
            msg,
        ) by {
            assert(matcher_holds(b.matchers@[k], msg));
        }
    }
}

} // verus!
