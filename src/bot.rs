//! The bot's state: settings, the active rules, the reply limit and the
//! cached trigger listing; how it is rebuilt on reload and how a message
//! passes through it.
use vstd::prelude::*;

use crate::action::{built_from, chat_mode_of, loaded_as, matcher_source, reaction_count, Action, ActionDefinition, ActionError, ActionList, Builtin};
use crate::builtins::{
    add_parts, add_usage, add_usage_text, builtin_order, builtins_compile, copyright,
    copyright_text, del_trigger, del_usage, del_usage_text, failure_reply, help, help_text, init,
    is_builtin_rule, list, list_text, parse_add, parse_del,
};
use crate::engine::{step_from, Step, StepModel};
use crate::listing::{init_list, paginate, sorted_set_of, descriptions, PAGE_BUDGET};
use crate::message::Message;
use crate::pattern::regex_compiles;
use crate::rate::{allows, pruned, RateLimiter};
use crate::reaction::views;
use crate::store::{ActionFile, StoreEdit};

verus! {

/// The channel to join: by id or by path of names.
#[derive(Clone, Debug, PartialEq, Eq)]
pub enum ChannelDefinition {
    Id(u64),
    Name(String),
}

/// The settings document.
#[derive(Clone, Debug)]
pub struct Settings {
    /// The file that holds the private key.
    pub key_file: String,
    /// The dynamic store; its rules come after the builtins.
    pub dynamic_actions: String,
    /// The server address.
    pub address: String,
    pub channel: Option<ChannelDefinition>,
    /// The bot's display name.
    pub name: String,
    pub disconnect_message: String,
    /// How many replies may be sent within the reply-limit window.
    pub rate_limit: u8,
    /// The length of the reply-limit window, in milliseconds.
    pub rate_window: u64,
    /// The prefix of builtin commands.
    pub prefix: String,
    pub actions: ActionFile,
}

pub fn default_key_file() -> (r: String)
    ensures
        r@ == "private.key"@,
{
    "private.key".to_owned()
}

pub fn default_address() -> (r: String)
    ensures
        r@ == "localhost"@,
{
    "localhost".to_owned()
}

pub fn default_name() -> (r: String)
    ensures
        r@ == "SimpleBot"@,
{
    "SimpleBot".to_owned()
}

pub fn default_disconnect_message() -> (r: String)
    ensures
        r@ == "Disconnecting"@,
{
    "Disconnecting".to_owned()
}

pub fn default_rate_limit() -> (r: u8)
    ensures
        r == 2,
{
    2
}

pub fn default_rate_window() -> (r: u64)
    ensures
        r == 1000,
{
    1000
}

pub fn default_prefix() -> (r: String)
    ensures
        r@ == "."@,
{
    ".".to_owned()
}

pub fn default_dynamic_actions() -> (r: String)
    ensures
        r@ == "dynamic.toml"@,
{
    "dynamic.toml".to_owned()
}

impl Default for Settings {
    fn default() -> (r: Settings)
        ensures
            r.key_file@ == "private.key"@,
            r.dynamic_actions@ == "dynamic.toml"@,
            r.address@ == "localhost"@,
            r.channel is None,
            r.name@ == "SimpleBot"@,
            r.disconnect_message@ == "Disconnecting"@,
            r.rate_limit == 2,
            r.rate_window == 1000,
            r.prefix@ == "."@,
            r.actions.includes@.len() == 0,
            r.actions.on_message@.len() == 0,
    {
        Settings {
            key_file: default_key_file(),
            dynamic_actions: default_dynamic_actions(),
            address: default_address(),
            channel: None,
            name: default_name(),
            disconnect_message: default_disconnect_message(),
            rate_limit: default_rate_limit(),
            rate_window: default_rate_window(),
            prefix: default_prefix(),
            actions: ActionFile { includes: Vec::new(), on_message: Vec::new() },
        }
    }
}

/// Whether `d` loads without error.
pub open spec fn definition_valid(d: ActionDefinition) -> bool {
    &&& !(d.contains is Some && d.regex is Some)
    &&& (matcher_source(d) matches Some(src) ==> regex_compiles(src))
    &&& (d.chat matches Some(c) ==> chat_mode_of(c@) is Some)
    &&& reaction_count(d) <= 1
}

/// `rules` are the rules of `defs`, in order.
pub open spec fn rules_of(rules: Seq<Action>, defs: Seq<ActionDefinition>) -> bool {
    &&& rules.len() == defs.len()
    &&& forall|k: int| 0 <= k < defs.len() ==> built_from(#[trigger] defs[k], rules[k])
}

/// `rules` are the rules of `statics`, then the builtins for `prefix`, then
/// the rules of `dynamics`.
pub open spec fn assembled(
    rules: Seq<Action>,
    statics: Seq<ActionDefinition>,
    prefix: Seq<char>,
    dynamics: Seq<ActionDefinition>,
) -> bool {
    let s = statics.len() as int;
    &&& rules.len() == s + 7 + dynamics.len()
    &&& rules_of(rules.take(s), statics)
    &&& forall|k: int| 0 <= k < 7 ==> is_builtin_rule(#[trigger] rules[s + k], prefix, builtin_order()[k])
    &&& rules_of(rules.skip(s + 7), dynamics)
}

/// Appends the rules of `defs` in order; on the first definition that does
/// not load, appends nothing and returns its error.
pub fn load_actions(actions: &mut ActionList, defs: &Vec<ActionDefinition>) -> (r: Result<(), ActionError>)
    ensures
        r is Ok <==> forall|k: int| 0 <= k < defs@.len() ==> definition_valid(#[trigger] defs@[k]),
        r is Ok ==> final(actions).0@.len() == old(actions).0@.len() + defs@.len()
            && final(actions).0@.take(old(actions).0@.len() as int) == old(actions).0@
            && rules_of(final(actions).0@.skip(old(actions).0@.len() as int), defs@),
        r matches Err(e) ==> exists|k: int|
            0 <= k < defs@.len() && loaded_as(#[trigger] defs@[k], Err(e)) && forall|j: int|
                0 <= j < k ==> definition_valid(#[trigger] defs@[j]),
        r is Err ==> final(actions).0@ == old(actions).0@,
{
    let mut fresh: Vec<Action> = Vec::new();
    let mut k: usize = 0;
    while k < defs.len()
        invariant
            k <= defs@.len(),
            forall|j: int| 0 <= j < k ==> definition_valid(#[trigger] defs@[j]),
            rules_of(fresh@, defs@.take(k as int)),
        decreases defs@.len() - k,
    {
        match defs[k].to_action() {
            Ok(a) => {
                let ghost before = fresh@;
                fresh.push(a);
                assert forall|j: int| 0 <= j <= k implies built_from(
                    #[trigger] defs@.take(k + 1)[j],
                    fresh@[j],
                ) by {
                    if j < k {
                        assert(defs@.take(k as int)[j] == defs@.take(k + 1)[j]);
                    }
                }
            },
            Err(e) => {
                return Err(e);
            },
        }
        k += 1;
    }
    assert(defs@.take(defs@.len() as int) =~= defs@);
    let ghost before = actions.0@;
    let ghost rules = fresh@;
    actions.0.append(&mut fresh);
    assert(actions.0@.take(before.len() as int) =~= before);
    assert(actions.0@.skip(before.len() as int) =~= rules);
    Ok(())
}

/// The work a builtin command leaves to the caller.
#[derive(Clone, Debug, PartialEq, Eq)]
pub enum BuiltinWork {
    /// The reaction's result is known.
    Reply(Option<String>),
    /// Read the dynamic store, `apply` this change, write it back, and pass
    /// the outcome to `Bot::edit_done`.
    Edit(StoreEdit),
    /// Leave the server.
    Quit,
}

/// The bot: its settings, active rules, reply limit and trigger listing.
#[derive(Debug)]
pub struct Bot {
    pub actions: ActionList,
    pub settings: Settings,
    pub rate_limiting: RateLimiter,
    /// The pages of the trigger listing.
    pub list: Vec<String>,
    /// Whether the rules are to be rebuilt once the current message is done.
    pub should_reload: bool,
}

impl Bot {
    /// The listing has a page and the reply limit follows the settings.
    pub open spec fn wf(&self) -> bool {
        &&& self.list@.len() >= 1
        &&& self.rate_limiting.window == self.settings.rate_window
        &&& self.rate_limiting.max_events == self.settings.rate_limit as usize
    }

    /// A bot with the default settings and no rules yet.
    pub fn new() -> (r: Bot)
        ensures
            r.wf(),
            r.actions.0@.len() == 0,
            r.rate_limiting.timestamps@.len() == 0,
            !r.should_reload,
    {
        let actions = ActionList(Vec::new());
        let list = init_list(&actions);
        let settings = Settings::default();
        let rate_limiting = RateLimiter::new(settings.rate_window, settings.rate_limit as usize);
        Bot { actions, settings, rate_limiting, list, should_reload: false }
    }

    /// Replaces settings and rules at once: the rules of `statics`, then the
    /// builtins, then the rules of `dynamics`. If any of them fails to load,
    /// nothing changes.
    pub fn reload(
        &mut self,
        settings: Settings,
        statics: &Vec<ActionDefinition>,
        dynamics: &Vec<ActionDefinition>,
    ) -> (r: Result<(), ActionError>)
        requires
            old(self).wf(),
        ensures
            final(self).wf(),
            r is Ok <==> (forall|k: int| 0 <= k < statics@.len() ==> definition_valid(#[trigger] statics@[k]))
                && builtins_compile(settings.prefix@) && (forall|k: int|
                0 <= k < dynamics@.len() ==> definition_valid(#[trigger] dynamics@[k])),
            r is Ok ==> assembled(final(self).actions.0@, statics@, settings.prefix@, dynamics@)
                && final(self).settings == settings && final(self).should_reload == old(self).should_reload
                && final(self).rate_limiting.timestamps == old(self).rate_limiting.timestamps
                && exists|sorted: Seq<Seq<char>>|
                sorted_set_of(sorted, descriptions(final(self).actions.0@)) && views(final(self).list@)
                    == paginate(sorted, PAGE_BUDGET as nat),
            r is Err ==> *final(self) == *old(self),
    {
        let mut fresh = ActionList(Vec::new());
        match load_actions(&mut fresh, statics) {
            Ok(()) => {},
            Err(e) => {
                return Err(e);
            },
        }
        let ghost s = statics@.len() as int;
        let ghost after_statics = fresh.0@;
        assert(after_statics.skip(0) =~= after_statics);
        match init(&mut fresh, settings.prefix.as_str()) {
            Ok(()) => {},
            Err(e) => {
                return Err(e);
            },
        }
        let ghost after_builtins = fresh.0@;
        match load_actions(&mut fresh, dynamics) {
            Ok(()) => {},
            Err(e) => {
                return Err(e);
            },
        }
        proof {
            let rules = fresh.0@;
            assert(after_statics.len() == s);
            assert(after_builtins.len() == s + 7);
            assert(after_builtins.take(s) == after_statics);
            assert(rules.take(s + 7) == after_builtins);
            assert(rules.take(s) =~= after_builtins.take(s));
            assert(rules.skip(s + 7) == rules.skip(after_builtins.len() as int));
            assert forall|k: int| 0 <= k < 7 implies is_builtin_rule(
                #[trigger] rules[s + k],
                settings.prefix@,
                builtin_order()[k],
            ) by {
                assert(rules.take(s + 7)[s + k] == rules[s + k]);
            }
        }
        self.list = init_list(&fresh);
        self.actions = fresh;
        self.rate_limiting.max_events = settings.rate_limit as usize;
        self.rate_limiting.window = settings.rate_window;
        self.settings = settings;
        Ok(())
    }

    /// Asks for the rules to be rebuilt once the current message is done.
    pub fn request_reload(&mut self)
        ensures
            *final(self) == (Bot { should_reload: true, ..*old(self) }),
    {
        self.should_reload = true;
    }

    /// Whether a reload was asked for; the request is taken back.
    pub fn take_reload(&mut self) -> (r: bool)
        ensures
            r == old(self).should_reload,
            *final(self) == (Bot { should_reload: false, ..*old(self) }),
    {
        let r = self.should_reload;
        self.should_reload = false;
        r
    }

    /// Starts handling `msg`, received at `now`: messages from the bot itself
    /// are ignored, and while the reply limit is reached messages are dropped.
    pub fn begin(&mut self, msg: &Message, own_id: u16, now: u64) -> (r: Step)
        ensures
            msg.invoker_id == own_id ==> r@ == StepModel::Finish(None) && *final(self) == *old(self),
            msg.invoker_id != own_id ==> {
                &&& final(self).rate_limiting.timestamps@ == pruned(
                    old(self).rate_limiting.timestamps@,
                    now,
                    old(self).rate_limiting.window,
                )
                &&& final(self).rate_limiting.window == old(self).rate_limiting.window
                &&& final(self).rate_limiting.max_events == old(self).rate_limiting.max_events
                &&& final(self).actions == old(self).actions
                &&& final(self).settings == old(self).settings
                &&& final(self).list == old(self).list
                &&& final(self).should_reload == old(self).should_reload
                &&& r@ == if allows(
                    old(self).rate_limiting.timestamps@,
                    now,
                    old(self).rate_limiting.window,
                    old(self).rate_limiting.max_events as nat,
                ) {
                    step_from(old(self).actions.0@, *msg, 0)
                } else {
                    StepModel::Finish(None)
                }
            },
    {
        if msg.invoker_id == own_id {
            return Step::Finish(None);
        }
        if !self.rate_limiting.allow(now) {
            return Step::Finish(None);
        }
        self.actions.handle(msg)
    }

    /// Ends handling a message at `now`: a non-empty reply counts against
    /// the limit.
    pub fn finish(&mut self, reply: &Option<String>, now: u64)
        ensures
            (reply matches Some(t) && t@.len() > 0) ==> *final(self) == (Bot {
                rate_limiting: RateLimiter {
                    timestamps: final(self).rate_limiting.timestamps,
                    ..old(self).rate_limiting
                },
                ..*old(self)
            }) && final(self).rate_limiting.timestamps@ == old(self).rate_limiting.timestamps@.push(now),
            !(reply matches Some(t) && t@.len() > 0) ==> *final(self) == *old(self),
    {
        if let Some(t) = reply {
            if !t.as_str().is_empty() {
                self.rate_limiting.record(now);
            }
        }
    }

    /// Ends a change of the dynamic store: `None` when it could not be read
    /// or written, which is reported and changes nothing; otherwise the reply
    /// of the change, and a reload is asked for.
    pub fn edit_done(&mut self, reply: Option<String>) -> (r: Option<String>)
        ensures
            reply is None ==> *final(self) == *old(self) && (r matches Some(f) && f@ == "Failed"@),
            reply is Some ==> *final(self) == (Bot { should_reload: true, ..*old(self) }) && r
                == reply,
    {
        match reply {
            None => Some(failure_reply()),
            Some(t) => {
                self.request_reload();
                Some(t)
            },
        }
    }

    /// Performs builtin `b` for `msg` as far as the bot's state allows, and
    /// says what is left to do.
    pub fn builtin(&mut self, b: Builtin, msg: &Message) -> (r: BuiltinWork)
        requires
            old(self).wf(),
        ensures
            final(self).wf(),
            b is Reload ==> *final(self) == (Bot { should_reload: true, ..*old(self) }) && (r matches BuiltinWork::Reply(Some(t)) && t@.len() == 0),
            !(b is Reload) ==> *final(self) == *old(self),
            b is Help ==> (r matches BuiltinWork::Reply(Some(t)) && t@ == help_text(
                old(self).settings.prefix@,
            )),
            b is Copyright ==> (r matches BuiltinWork::Reply(Some(t)) && t@ == copyright_text()),
            b is List ==> (r matches BuiltinWork::Reply(Some(t)) && t@ == list_text(
                views(old(self).list@),
                old(self).settings.prefix@,
                msg.message@,
            )),
            b is Add ==> match add_parts(old(self).settings.prefix@, msg.message@) {
                None => r matches BuiltinWork::Reply(Some(t)) && t@ == add_usage_text(
                    old(self).settings.prefix@,
                ),
                Some((resp, trig)) => r matches BuiltinWork::Edit(StoreEdit::Add { response, trigger })
                    && response@ == resp && trigger@ == trig,
            },
            b is Del ==> match del_trigger(old(self).settings.prefix@, msg.message@) {
                None => r matches BuiltinWork::Reply(Some(t)) && t@ == del_usage_text(
                    old(self).settings.prefix@,
                ),
                Some(trig) => r matches BuiltinWork::Edit(StoreEdit::Del { trigger }) && trigger@ == trig,
            },
            b is Quit ==> r == BuiltinWork::Quit,
    {
        let prefix = self.settings.prefix.as_str();
        match b {
            Builtin::Help => BuiltinWork::Reply(help(prefix)),
            Builtin::Copyright => BuiltinWork::Reply(copyright()),
            Builtin::List => BuiltinWork::Reply(list(&self.list, prefix, msg.message.as_str())),
            Builtin::Add => match parse_add(prefix, msg.message.as_str()) {
                None => BuiltinWork::Reply(Some(add_usage(prefix))),
                Some((response, trigger)) => BuiltinWork::Edit(StoreEdit::Add { response, trigger }),
            },
            Builtin::Del => match parse_del(prefix, msg.message.as_str()) {
                None => BuiltinWork::Reply(Some(del_usage(prefix))),
                Some(trigger) => BuiltinWork::Edit(StoreEdit::Del { trigger }),
            },
            Builtin::Reload => {
                self.request_reload();
                BuiltinWork::Reply(Some(String::new()))
            },
            Builtin::Quit => BuiltinWork::Quit,
        }
    }
}

} // verus!
