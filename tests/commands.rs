use simple_bot::action::{ActionDefinition, ActionList, Builtin, Reaction};
use simple_bot::builtins::{
    add_usage, copyright, del_usage, escape_bb, failure_reply, help, init, list, parse_add,
    parse_del, removed_message,
};
use simple_bot::listing::{init_list, pages_of, readable_source, sort_unique, PAGE_BUDGET};
use simple_bot::message::{Message, Target};
use simple_bot::store::{ActionFile, StoreEdit};

fn chars(s: &str) -> Vec<char> {
    s.chars().collect()
}

#[test]
fn bb_escape_of_brackets() {
    assert_eq!(escape_bb("[b]x[/b]"), "\\[b]x\\[/b]");
    assert_eq!(escape_bb("."), ".");
}

#[test]
fn help_text_names_the_prefix() {
    let h = help("!").unwrap();
    assert!(h.starts_with("This is a [URL=https://github.com/ReSpeak/SimpleBot]SimpleBot[/URL].\n"));
    assert!(h.contains("Use [i]!add <reaction> on <trigger>[/i] to add new actions\n"));
    assert!(h.contains("or [i]!del <trigger>[/i] to remove them.\n"));
    assert!(h.contains("[i]!list[/i] lists all commands and actions.\n"));
    assert!(h.ends_with("[i]!quit[/i] disconnects the bot."));
    assert!(help("[").unwrap().contains("\\[quit"));
}

#[test]
fn copyright_notice() {
    let c = copyright().unwrap();
    assert!(c.ends_with("© 2018–2020 Flakebi"));
    assert!(c.contains("MIT and Apache License, Version 2.0"));
}

#[test]
fn usage_and_status_texts() {
    assert_eq!(add_usage("."), "Usage: .add <response> on <trigger>");
    assert_eq!(del_usage("["), "Usage: \\[del <trigger>");
    assert_eq!(failure_reply(), "Failed");
    assert_eq!(removed_message(1), "Removed 1 element");
    assert_eq!(removed_message(0), "Removed 0 elements");
    assert_eq!(removed_message(12), "Removed 12 elements");
}

#[test]
fn add_command_is_read() {
    assert_eq!(parse_add(".", ".add foo on bar"), Some(("foo".to_string(), "bar".to_string())));
    assert_eq!(
        parse_add(".", ".add turn on the light on lamp"),
        Some(("turn on the light".to_string(), "lamp".to_string()))
    );
    assert_eq!(parse_add(".", ".add  on "), Some((String::new(), String::new())));
    assert_eq!(parse_add(".", ".add foo bar"), None);
    assert_eq!(parse_add(".", "add foo on bar"), None);
    assert_eq!(parse_add(".", ".add foo on\nbar"), None);
    assert_eq!(parse_add("!!", "!!add a on b"), Some(("a".to_string(), "b".to_string())));
}

#[test]
fn del_command_is_read() {
    assert_eq!(parse_del(".", ".del bar"), Some("bar".to_string()));
    assert_eq!(parse_del(".", ".del "), Some(String::new()));
    assert_eq!(parse_del(".", ".del"), None);
    assert_eq!(parse_del(".", ".delete x"), None);
    assert_eq!(parse_del(".", ".del a\nb"), None);
}

#[test]
fn list_pages_are_chosen_and_clamped() {
    let pages = vec!["\na".to_string(), "\nb".to_string(), "\nc".to_string()];
    assert_eq!(list(&pages, ".", ".list").unwrap(), "Page 1/3, use [i].list <page>[/i] to show more.\na");
    assert_eq!(list(&pages, ".", ".list 2").unwrap(), "Page 2/3, use [i].list <page>[/i] to show more.\nb");
    assert_eq!(list(&pages, ".", ".list 0").unwrap(), "Page 1/3, use [i].list <page>[/i] to show more.\na");
    assert_eq!(list(&pages, ".", ".list 99").unwrap(), "Page 3/3, use [i].list <page>[/i] to show more.\nc");
    assert_eq!(list(&pages, ".", ".list +2").unwrap(), "Page 2/3, use [i].list <page>[/i] to show more.\nb");
    assert_eq!(list(&pages, ".", ".list x").unwrap(), "Page 1/3, use [i].list <page>[/i] to show more.\na");
    let one = vec!["\nonly".to_string()];
    assert_eq!(list(&one, ".", ".list 5").unwrap(), "\nonly");
}

#[test]
fn readable_form_of_patterns() {
    assert_eq!(readable_source("\\bbar\\b").iter().collect::<String>(), "bar");
    assert_eq!(readable_source("^\\.help").iter().collect::<String>(), ".help");
    assert_eq!(readable_source("^\\.quit$").iter().collect::<String>(), ".quit");
    assert_eq!(readable_source("a\\\\c").iter().collect::<String>(), "a\\c");
    assert_eq!(readable_source("a\\\\b").iter().collect::<String>(), "a\\");
    assert_eq!(readable_source("x\\+y").iter().collect::<String>(), "x\\+y");
}

#[test]
fn sorting_removes_repeats() {
    let lines = vec![chars("b"), chars("a"), chars("b"), chars(""), chars("ab")];
    let sorted = sort_unique(lines);
    assert_eq!(sorted, vec![chars(""), chars("a"), chars("ab"), chars("b")]);
}

#[test]
fn long_listing_is_split_into_pages() {
    let lines: Vec<Vec<char>> = (0..30).map(|i| chars(&format!("{:02}{}", i, "x".repeat(98)))).collect();
    let pages = pages_of(&lines, PAGE_BUDGET);
    assert!(pages.len() > 1);
    for p in &pages {
        assert!(p.chars().count() <= PAGE_BUDGET);
        assert!(p.starts_with('\n'));
    }
    let joined: String = pages.concat();
    let expected: String = lines.iter().map(|l| format!("\n{}", l.iter().collect::<String>())).collect();
    assert_eq!(joined, expected);
    assert_eq!(pages[0].chars().count(), 8 * 101);
}

#[test]
fn short_listing_is_one_page() {
    let pages = pages_of(&vec![chars("a"), chars("b")], PAGE_BUDGET);
    assert_eq!(pages, vec!["\na\nb".to_string()]);
    let empty = pages_of(&Vec::new(), PAGE_BUDGET);
    assert_eq!(empty, vec![String::new()]);
}

#[test]
fn builtins_are_registered_in_order() {
    let mut actions = ActionList(Vec::new());
    init(&mut actions, ".").unwrap();
    let order = [
        Builtin::Help,
        Builtin::Copyright,
        Builtin::List,
        Builtin::Add,
        Builtin::Del,
        Builtin::Reload,
        Builtin::Quit,
    ];
    assert_eq!(actions.0.len(), 7);
    for (a, b) in actions.0.iter().zip(order.iter()) {
        assert_eq!(a.reaction, Some(Reaction::Function(*b)));
    }
    let msg = |t: &str| Message {
        target: Target::Channel,
        invoker_id: 1,
        invoker_name: "n".to_string(),
        invoker_uid: None,
        message: t.to_string(),
    };
    assert!(actions.0[0].matchers[0].matches(&msg(".help me")));
    assert!(!actions.0[0].matchers[0].matches(&msg("xhelp")));
    assert!(actions.0[5].matchers[0].matches(&msg(".reload")));
    assert!(!actions.0[5].matchers[0].matches(&msg(".reload now")));
}

#[test]
fn listing_of_rules() {
    let mut actions = ActionList(Vec::new());
    let defs = [
        ActionDefinition { contains: Some("hello".to_string()), response: Some("hi".to_string()), ..Default::default() },
        ActionDefinition { contains: Some("hello".to_string()), response: Some("yo".to_string()), ..Default::default() },
        ActionDefinition { regex: Some("^a.b$".to_string()), chat: Some("server".to_string()), ..Default::default() },
    ];
    for d in &defs {
        actions.0.push(d.to_action().unwrap());
    }
    init(&mut actions, ".").unwrap();
    let pages = init_list(&actions);
    assert_eq!(
        pages,
        vec!["\n.add\n.copy\n.del\n.help\n.list\n.quit\n.reload\na.b (only in server mode)\nhello".to_string()]
    );
}

#[test]
fn store_add_and_remove() {
    let mut store = ActionFile::default();
    store.add_response("foo".to_string(), "bar".to_string());
    store.add_response("x".to_string(), "y".to_string());
    store.add_response("baz".to_string(), "bar".to_string());
    assert_eq!(store.on_message.len(), 3);
    assert_eq!(store.on_message[0].contains, Some("bar".to_string()));
    assert_eq!(store.on_message[0].response, Some("foo".to_string()));
    assert_eq!(store.remove_trigger("bar"), 2);
    assert_eq!(store.on_message.len(), 1);
    assert_eq!(store.on_message[0].contains, Some("y".to_string()));
    assert_eq!(store.remove_trigger("bar"), 0);
}

#[test]
fn line_breaks_count_against_the_page_budget() {
    let pages = pages_of(&vec![chars(&"a".repeat(449)), chars(&"b".repeat(450))], PAGE_BUDGET);
    assert_eq!(pages.len(), 2);
    assert_eq!(pages[0].chars().count(), 450);
    assert_eq!(pages[1].chars().count(), 451);
    let pages = pages_of(&vec![chars(&"a".repeat(449)), chars(&"b".repeat(449))], PAGE_BUDGET);
    assert_eq!(pages.len(), 1);
    assert_eq!(pages[0].chars().count(), 900);
    let pages = pages_of(&vec![chars(&"c".repeat(900))], PAGE_BUDGET);
    assert_eq!(pages.len(), 2);
}

#[test]
fn store_edits_give_their_replies() {
    let mut store = ActionFile::default();
    let r = store.apply(StoreEdit::Add { response: "foo".to_string(), trigger: "bar".to_string() });
    assert_eq!(r, "");
    assert_eq!(store.on_message.len(), 1);
    let r = store.apply(StoreEdit::Del { trigger: "bar".to_string() });
    assert_eq!(r, "Removed 1 element");
    assert!(store.on_message.is_empty());
}
