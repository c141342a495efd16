use simple_bot::action::{ActionDefinition, Builtin, Reaction};
use simple_bot::bot::{load_actions, Bot, BuiltinWork, Settings};
use simple_bot::engine::Step;
use simple_bot::action::{ActionError, ActionList};
use simple_bot::message::{Message, Target};
use simple_bot::store::ActionFile;

fn message(text: &str) -> Message {
    Message {
        target: Target::Channel,
        invoker_id: 9,
        invoker_name: "carol".to_string(),
        invoker_uid: None,
        message: text.to_string(),
    }
}

/// Runs one message through the bot, performing builtins on `store`.
fn run(bot: &mut Bot, store: &mut ActionFile, text: &str, now: u64) -> Option<String> {
    let msg = message(text);
    let mut step = bot.begin(&msg, 1, now);
    let reply = loop {
        match step {
            Step::Finish(r) => break r,
            Step::Run(i) => {
                let outcome = match bot.actions.0[i].reaction.clone() {
                    Some(Reaction::Function(b)) => match bot.builtin(b, &msg) {
                        BuiltinWork::Reply(r) => r,
                        BuiltinWork::Edit(edit) => {
                            let reply = store.apply(edit);
                            bot.edit_done(Some(reply))
                        }
                        BuiltinWork::Quit => Some(String::new()),
                    },
                    _ => None,
                };
                step = bot.actions.resume(&msg, i, outcome);
            }
        }
    };
    bot.finish(&reply, now);
    if bot.take_reload() {
        let settings = bot.settings.clone();
        let statics = settings.actions.on_message.clone();
        bot.reload(settings, &statics, &store.on_message).unwrap();
    }
    reply
}

fn fresh_bot() -> Bot {
    let mut bot = Bot::new();
    let settings = Settings::default();
    let statics = settings.actions.on_message.clone();
    bot.reload(settings, &statics, &Vec::new()).unwrap();
    bot
}

#[test]
fn add_then_del_changes_the_reply() {
    let mut bot = fresh_bot();
    let mut store = ActionFile::default();
    assert_eq!(run(&mut bot, &mut store, "a bar here", 0), None);
    assert_eq!(run(&mut bot, &mut store, ".add foo on bar", 10_000), None);
    assert_eq!(run(&mut bot, &mut store, "a bar here", 20_000), Some("foo".to_string()));
    assert_eq!(run(&mut bot, &mut store, ".del bar", 30_000), Some("Removed 1 element".to_string()));
    assert_eq!(run(&mut bot, &mut store, "a bar here", 40_000), None);
}

#[test]
fn malformed_add_gets_usage() {
    let mut bot = fresh_bot();
    let mut store = ActionFile::default();
    assert_eq!(
        run(&mut bot, &mut store, ".add nothing", 0),
        Some("Usage: .add <response> on <trigger>".to_string())
    );
}

#[test]
fn help_and_list_builtins_answer() {
    let mut bot = fresh_bot();
    let mut store = ActionFile::default();
    let h = run(&mut bot, &mut store, ".help", 0).unwrap();
    assert!(h.contains(".add <reaction> on <trigger>"));
    let l = run(&mut bot, &mut store, ".list", 5000).unwrap();
    assert_eq!(l, "\n.add\n.copy\n.del\n.help\n.list\n.quit\n.reload");
}

#[test]
fn own_messages_are_ignored() {
    let mut bot = fresh_bot();
    let msg = Message { invoker_id: 1, ..message(".help") };
    assert_eq!(bot.begin(&msg, 1, 0), Step::Finish(None));
    assert!(bot.rate_limiting.timestamps.is_empty());
}

#[test]
fn replies_are_rate_limited() {
    let mut bot = fresh_bot();
    let mut store = ActionFile::default();
    assert!(run(&mut bot, &mut store, ".help", 0).is_some());
    assert!(run(&mut bot, &mut store, ".help", 100).is_some());
    assert_eq!(run(&mut bot, &mut store, ".help", 200), None);
    assert!(run(&mut bot, &mut store, ".help", 1101).is_some());
}

#[test]
fn reload_builtin_asks_for_a_reload() {
    let mut bot = fresh_bot();
    let msg = message(".reload");
    match bot.begin(&msg, 1, 0) {
        Step::Run(i) => {
            assert_eq!(bot.actions.0[i].reaction, Some(Reaction::Function(Builtin::Reload)));
            assert_eq!(bot.builtin(Builtin::Reload, &msg), BuiltinWork::Reply(Some(String::new())));
        }
        other => panic!("unexpected {:?}", other),
    }
    assert!(bot.take_reload());
    assert!(!bot.take_reload());
}

#[test]
fn failed_reload_keeps_the_old_rules() {
    let mut bot = fresh_bot();
    let good = vec![ActionDefinition {
        contains: Some("cat".to_string()),
        response: Some("meow".to_string()),
        ..Default::default()
    }];
    bot.reload(Settings::default(), &good, &Vec::new()).unwrap();
    assert_eq!(bot.actions.0.len(), 8);
    let bad = vec![ActionDefinition { regex: Some("(".to_string()), ..Default::default() }];
    let err = bot.reload(Settings::default(), &good, &bad).unwrap_err();
    assert_eq!(err, ActionError::InvalidPattern("(".to_string()));
    assert_eq!(bot.actions.0.len(), 8);
    let mut store = ActionFile::default();
    assert_eq!(run(&mut bot, &mut store, "a cat", 0), Some("meow".to_string()));
}

#[test]
fn static_rules_come_before_builtins() {
    let mut bot = fresh_bot();
    let statics = vec![ActionDefinition {
        regex: Some("help".to_string()),
        response: Some("no help here".to_string()),
        ..Default::default()
    }];
    bot.reload(Settings::default(), &statics, &Vec::new()).unwrap();
    let mut store = ActionFile::default();
    assert_eq!(run(&mut bot, &mut store, ".help", 0), Some("no help here".to_string()));
}

#[test]
fn load_actions_is_all_or_nothing() {
    let mut list = ActionList(Vec::new());
    let defs = vec![
        ActionDefinition { contains: Some("a".to_string()), ..Default::default() },
        ActionDefinition { chat: Some("nowhere".to_string()), ..Default::default() },
    ];
    assert_eq!(load_actions(&mut list, &defs), Err(ActionError::UnknownChat("nowhere".to_string())));
    assert!(list.0.is_empty());
    assert_eq!(load_actions(&mut list, &defs[..1].to_vec()), Ok(()));
    assert_eq!(list.0.len(), 1);
}

#[test]
fn default_settings() {
    let s = Settings::default();
    assert_eq!(s.key_file, "private.key");
    assert_eq!(s.dynamic_actions, "dynamic.toml");
    assert_eq!(s.address, "localhost");
    assert_eq!(s.name, "SimpleBot");
    assert_eq!(s.disconnect_message, "Disconnecting");
    assert_eq!(s.rate_limit, 2);
    assert_eq!(s.rate_window, 1000);
    assert_eq!(s.prefix, ".");
}

#[test]
fn stored_rule_reloads_with_same_behavior() {
    let mut store = ActionFile::default();
    store.add_response("foo".to_string(), "bar".to_string());
    let def = store.on_message[0].clone();
    let first = def.to_action().unwrap();
    let second = def.clone().to_action().unwrap();
    for text in ["bar", "a bar b", "foobar", "barbar", "BAR", ""] {
        let msg = message(text);
        assert_eq!(first.matchers[0].matches(&msg), second.matchers[0].matches(&msg));
    }
    assert!(first.matchers[0].matches(&message("a bar b")));
    assert!(!first.matchers[0].matches(&message("foobar")));
    assert_eq!(first.reaction, second.reaction);
    assert_eq!(first.reaction, Some(Reaction::Plain("foo".to_string())));
}

#[test]
fn empty_replies_do_not_count_against_the_limit() {
    let mut bot = fresh_bot();
    bot.finish(&Some(String::new()), 0);
    bot.finish(&None, 0);
    assert!(bot.rate_limiting.timestamps.is_empty());
    bot.finish(&Some("x".to_string()), 7);
    assert_eq!(bot.rate_limiting.timestamps, vec![7]);
}

#[test]
fn failed_store_edit_reports_and_keeps_state() {
    let mut bot = fresh_bot();
    assert_eq!(bot.edit_done(None), Some("Failed".to_string()));
    assert!(!bot.take_reload());
    assert_eq!(bot.edit_done(Some("Removed 0 elements".to_string())), Some("Removed 0 elements".to_string()));
    assert!(bot.take_reload());
}

#[test]
fn rate_window_comes_from_the_settings() {
    let mut bot = fresh_bot();
    let settings = Settings { rate_limit: 1, rate_window: 50, ..Settings::default() };
    bot.reload(settings, &Vec::new(), &Vec::new()).unwrap();
    assert_eq!(bot.rate_limiting.window, 50);
    let mut store = ActionFile::default();
    assert!(run(&mut bot, &mut store, ".help", 0).is_some());
    assert_eq!(run(&mut bot, &mut store, ".help", 40), None);
    assert!(run(&mut bot, &mut store, ".help", 51).is_some());
}
