//! The builtin commands: their replies, and the reading of their arguments.
use vstd::prelude::*;

use crate::action::{Action, ActionError, ActionList, Builtin, Matcher, Reaction};
use crate::pattern::{escape, escaped, regex_compiles, Pattern};
pub use crate::listing::init_list;
use crate::text::{
    append_chars, append_decimal, append_str, chars_of, decimal, has_newline, newline_from,
    parse_usize, parsed_usize, starts_with, string_of, string_of_range,
};

verus! {

/// `s` with a backslash before every `[`, so that chat markup shows it as is.
pub open spec fn bb_escaped(s: Seq<char>) -> Seq<char>
    decreases s.len(),
{
    if s.len() == 0 {
        seq![]
    } else if s.last() == '[' {
        bb_escaped(s.drop_last()) + seq!['\\', '[']
    } else {
        bb_escaped(s.drop_last()).push(s.last())
    }
}

/// Escapes `[` for chat markup.
pub fn escape_bb(s: &str) -> (r: String)
    ensures
        r@ == bb_escaped(s@),
{
    let cs = chars_of(s);
    let mut out: Vec<char> = Vec::new();
    let mut i: usize = 0;
    while i < cs.len()
        invariant
            i <= cs@.len(),
            cs@ == s@,
            out@ == bb_escaped(cs@.take(i as int)),
        decreases cs@.len() - i,
    {
        assert(cs@.take(i + 1).drop_last() =~= cs@.take(i as int));
        if cs[i] == '[' {
            out.push('\\');
            out.push('[');
        } else {
            out.push(cs[i]);
        }
        i += 1;
        assert(out@ =~= bb_escaped(cs@.take(i as int)));
    }
    assert(cs@.take(cs@.len() as int) =~= cs@);
    string_of(out.as_slice())
}

/// The usage text of the bot, for the command prefix `prefix`.
pub open spec fn help_text(prefix: Seq<char>) -> Seq<char> {
    let p = bb_escaped(prefix);
    "This is a [URL=https://github.com/ReSpeak/SimpleBot]SimpleBot[/URL].\nUse [i]"@ + p
        + "add <reaction> on <trigger>[/i] to add new actions\nor [i]"@ + p
        + "del <trigger>[/i] to remove them.\n[i]"@ + p
        + "list[/i] lists all commands and actions.\n[i]"@ + p
        + "quit[/i] disconnects the bot."@
}

/// The usage text of the bot.
pub fn help(prefix: &str) -> (r: Option<String>)
    ensures
        r matches Some(t) && t@ == help_text(prefix@),
{
    let p = chars_of(escape_bb(prefix).as_str());
    let mut out: Vec<char> = Vec::new();
    append_str(&mut out, "This is a [URL=https://github.com/ReSpeak/SimpleBot]SimpleBot[/URL].\nUse [i]");
    append_chars(&mut out, p.as_slice());
    append_str(&mut out, "add <reaction> on <trigger>[/i] to add new actions\nor [i]");
    append_chars(&mut out, p.as_slice());
    append_str(&mut out, "del <trigger>[/i] to remove them.\n[i]");
    append_chars(&mut out, p.as_slice());
    append_str(&mut out, "list[/i] lists all commands and actions.\n[i]");
    append_chars(&mut out, p.as_slice());
    append_str(&mut out, "quit[/i] disconnects the bot.");
    Some(string_of(out.as_slice()))
}

/// The license and copyright notice of the bot.
pub open spec fn copyright_text() -> Seq<char> {
    "This is a [URL=https://github.com/ReSpeak/SimpleBot]SimpleBot[/URL].\nThis software is licensed under MIT and Apache License, Version 2.0.\nSee the website for more information.\n© 2018–2020 Flakebi"@
}

/// The license and copyright notice; it has to stay, as the MIT and Apache
/// licenses ask for it.
pub fn copyright() -> (r: Option<String>)
    ensures
        r matches Some(t) && t@ == copyright_text(),
{
    Some("This is a [URL=https://github.com/ReSpeak/SimpleBot]SimpleBot[/URL].\nThis software is licensed under MIT and Apache License, Version 2.0.\nSee the website for more information.\n© 2018–2020 Flakebi".to_owned())
}

/// The reply to a malformed `add` command.
pub open spec fn add_usage_text(prefix: Seq<char>) -> Seq<char> {
    "Usage: "@ + bb_escaped(prefix) + "add <response> on <trigger>"@
}

/// The reply to a malformed `del` command.
pub open spec fn del_usage_text(prefix: Seq<char>) -> Seq<char> {
    "Usage: "@ + bb_escaped(prefix) + "del <trigger>"@
}

/// The reply to a malformed `add` command.
pub fn add_usage(prefix: &str) -> (r: String)
    ensures
        r@ == add_usage_text(prefix@),
{
    let mut out: Vec<char> = Vec::new();
    append_str(&mut out, "Usage: ");
    append_str(&mut out, escape_bb(prefix).as_str());
    append_str(&mut out, "add <response> on <trigger>");
    string_of(out.as_slice())
}

/// The reply to a malformed `del` command.
pub fn del_usage(prefix: &str) -> (r: String)
    ensures
        r@ == del_usage_text(prefix@),
{
    let mut out: Vec<char> = Vec::new();
    append_str(&mut out, "Usage: ");
    append_str(&mut out, escape_bb(prefix).as_str());
    append_str(&mut out, "del <trigger>");
    string_of(out.as_slice())
}

/// The reply when the dynamic store cannot be read or written.
pub fn failure_reply() -> (r: String)
    ensures
        r@ == "Failed"@,
{
    "Failed".to_owned()
}

/// The reply after `count` rules were removed.
pub open spec fn removed_text(count: nat) -> Seq<char> {
    "Removed "@ + decimal(count) + if count == 1 {
        " element"@
    } else {
        " elements"@
    }
}

/// The reply after `count` rules were removed.
pub fn removed_message(count: usize) -> (r: String)
    ensures
        r@ == removed_text(count as nat),
{
    let mut out: Vec<char> = Vec::new();
    append_str(&mut out, "Removed ");
    append_decimal(&mut out, count);
    if count == 1 {
        append_str(&mut out, " element");
    } else {
        append_str(&mut out, " elements");
    }
    string_of(out.as_slice())
}

/// The text after `prefix` and the command word `word` at the start of
/// `text`, where that rest is a single line.
pub open spec fn after_command(prefix: Seq<char>, word: Seq<char>, text: Seq<char>) -> Option<
    Seq<char>,
> {
    let head = prefix + word;
    if head.len() <= text.len() && text.take(head.len() as int) == head && !has_newline(
        text.skip(head.len() as int),
    ) {
        Some(text.skip(head.len() as int))
    } else {
        None
    }
}

/// The separator between response and trigger in an `add` command.
pub open spec fn on_separator() -> Seq<char> {
    seq![' ', 'o', 'n', ' ']
}

/// Whether the separator starts at `k` in `s`.
pub open spec fn separator_at(s: Seq<char>, k: int) -> bool {
    0 <= k && k + 4 <= s.len() && s.subrange(k, k + 4) == on_separator()
}

/// The last start of the separator in `s` at `k` or before, or -1.
pub open spec fn last_separator(s: Seq<char>, k: int) -> int
    decreases k + 1,
{
    if k < 0 {
        -1
    } else if separator_at(s, k) {
        k
    } else {
        last_separator(s, k - 1)
    }
}

/// Response and trigger of `<prefix>add <response> on <trigger>`; the
/// trigger follows the last ` on `.
pub open spec fn add_parts(prefix: Seq<char>, text: Seq<char>) -> Option<(Seq<char>, Seq<char>)> {
    match after_command(prefix, seq!['a', 'd', 'd', ' '], text) {
        None => None,
        Some(rest) => {
            let k = last_separator(rest, rest.len() - 4);
            if k < 0 {
                None
            } else {
                Some((rest.take(k), rest.skip(k + 4)))
            }
        },
    }
}

/// The trigger of `<prefix>del <trigger>`.
pub open spec fn del_trigger(prefix: Seq<char>, text: Seq<char>) -> Option<Seq<char>> {
    after_command(prefix, seq!['d', 'e', 'l', ' '], text)
}

/// Where the rest of a command starts, if `text` starts with `prefix` and the
/// command word and the rest is a single line.
fn command_rest(p: &Vec<char>, text: &Vec<char>, word: &Vec<char>) -> (r: Option<usize>)
    ensures
        r matches Some(h) ==> after_command(p@, word@, text@) == Some(text@.skip(h as int)) && h
            == p@.len() + word@.len(),
        r is None ==> after_command(p@, word@, text@) is None,
{
    let mut head = p.clone();
    append_chars(&mut head, word.as_slice());
    if !starts_with(text.as_slice(), head.as_slice()) {
        return None;
    }
    let h = head.len();
    if newline_from(text.as_slice(), h) {
        return None;
    }
    Some(h)
}

/// Reads `<prefix>add <response> on <trigger>`.
pub fn parse_add(prefix: &str, text: &str) -> (r: Option<(String, String)>)
    ensures
        r matches Some((resp, trig)) ==> add_parts(prefix@, text@) == Some((resp@, trig@)),
        r is None ==> add_parts(prefix@, text@) is None,
{
    let p = chars_of(prefix);
    let t = chars_of(text);
    let word = vec!['a', 'd', 'd', ' '];
    assert(word@ =~= seq!['a', 'd', 'd', ' ']);
    let h = match command_rest(&p, &t, &word) {
        None => {
            return None;
        },
        Some(h) => h,
    };
    let ghost rest = t@.skip(h as int);
    assert(after_command(prefix@, seq!['a', 'd', 'd', ' '], text@) == Some(rest));
    let n = t.len();
    if n - h < 4 {
        assert(last_separator(rest, rest.len() - 4) == -1);
        return None;
    }
    let mut k: usize = n - h - 4;
    loop
        invariant
            h <= n == t@.len(),
            rest == t@.skip(h as int),
            after_command(prefix@, seq!['a', 'd', 'd', ' '], text@) == Some(rest),
            k + 4 <= rest.len(),
            last_separator(rest, rest.len() - 4) == last_separator(rest, k as int),
        decreases k,
    {
        let at = h + k;
        if t[at] == ' ' && t[at + 1] == 'o' && t[at + 2] == 'n' && t[at + 3] == ' ' {
            assert(rest.subrange(k as int, k + 4) =~= on_separator());
            let resp = string_of_range(t.as_slice(), h, at);
            let trig = string_of_range(t.as_slice(), at + 4, n);
            assert(resp@ =~= rest.take(k as int));
            assert(trig@ =~= rest.skip(k + 4));
            return Some((resp, trig));
        }
        assert(!separator_at(rest, k as int)) by {
            if separator_at(rest, k as int) {
                assert(rest.subrange(k as int, k + 4)[0] == rest[k as int]);
                assert(rest.subrange(k as int, k + 4)[1] == rest[k + 1]);
                assert(rest.subrange(k as int, k + 4)[2] == rest[k + 2]);
                assert(rest.subrange(k as int, k + 4)[3] == rest[k + 3]);
            }
        }
        if k == 0 {
            assert(last_separator(rest, -1) == -1);
            return None;
        }
        k -= 1;
    }
}

/// Reads `<prefix>del <trigger>`.
pub fn parse_del(prefix: &str, text: &str) -> (r: Option<String>)
    ensures
        r matches Some(trig) ==> del_trigger(prefix@, text@) == Some(trig@),
        r is None ==> del_trigger(prefix@, text@) is None,
{
    let p = chars_of(prefix);
    let t = chars_of(text);
    let word = vec!['d', 'e', 'l', ' '];
    assert(word@ =~= seq!['d', 'e', 'l', ' ']);
    match command_rest(&p, &t, &word) {
        None => None,
        Some(h) => {
            let trig = string_of_range(t.as_slice(), h, t.len());
            assert(trig@ =~= t@.skip(h as int));
            Some(trig)
        },
    }
}

/// The position of the last space in `s` before `k`, or -1.
pub open spec fn last_space(s: Seq<char>, k: int) -> int
    decreases k,
{
    if k <= 0 {
        -1
    } else if s[k - 1] == ' ' {
        k - 1
    } else {
        last_space(s, k - 1)
    }
}

/// The page (counted from 0) that a `list` command asks for: the number
/// after its last space, counted from 1; the first page where there is none.
pub open spec fn requested_page(text: Seq<char>) -> nat {
    let i = last_space(text, text.len() as int);
    if i < 0 {
        0
    } else {
        match parsed_usize(text.skip(i + 1)) {
            Some(n) => if n == 0 {
                0
            } else {
                (n - 1) as nat
            },
            None => 0,
        }
    }
}

/// The page shown for `text`: the requested one, or the last one where it is
/// out of range.
pub open spec fn shown_page(text: Seq<char>, count: nat) -> nat {
    if requested_page(text) >= count {
        (count - 1) as nat
    } else {
        requested_page(text)
    }
}

/// The reply to a `list` command.
pub open spec fn list_text(pages: Seq<Seq<char>>, prefix: Seq<char>, text: Seq<char>) -> Seq<char> {
    let p = shown_page(text, pages.len());
    if pages.len() > 1 {
        "Page "@ + decimal(p + 1) + "/"@ + decimal(pages.len()) + ", use [i]"@ + bb_escaped(prefix)
            + "list <page>[/i] to show more."@ + pages[p as int]
    } else {
        pages[p as int]
    }
}

fn page_request(t: &Vec<char>) -> (r: usize)
    ensures
        r == requested_page(t@),
{
    let mut k: usize = t.len();
    while k > 0 && t[k - 1] != ' '
        invariant
            k <= t@.len(),
            last_space(t@, t@.len() as int) == last_space(t@, k as int),
        decreases k,
    {
        k -= 1;
    }
    if k == 0 {
        return 0;
    }
    let mut digits: Vec<char> = Vec::new();
    let mut i: usize = k;
    while i < t.len()
        invariant
            k <= i <= t@.len(),
            digits@ == t@.subrange(k as int, i as int),
        decreases t@.len() - i,
    {
        digits.push(t[i]);
        i += 1;
        assert(digits@ =~= t@.subrange(k as int, i as int));
    }
    assert(digits@ =~= t@.skip(k as int));
    match parse_usize(digits.as_slice()) {
        Some(n) => if n == 0 {
            0
        } else {
            n - 1
        },
        None => 0,
    }
}

/// One page of the listing of all triggers, chosen by the number at the end
/// of the command text.
pub fn list(pages: &Vec<String>, prefix: &str, text: &str) -> (r: Option<String>)
    requires
        pages@.len() >= 1,
    ensures
        r matches Some(s) && s@ == list_text(pages@.map_values(|p: String| p@), prefix@, text@),
{
    let t = chars_of(text);
    let mut page = page_request(&t);
    if page >= pages.len() {
        page = pages.len() - 1;
    }
    let ghost views = pages@.map_values(|p: String| p@);
    if pages.len() > 1 {
        let mut out: Vec<char> = Vec::new();
        append_str(&mut out, "Page ");
        append_decimal(&mut out, page + 1);
        append_str(&mut out, "/");
        append_decimal(&mut out, pages.len());
        append_str(&mut out, ", use [i]");
        append_str(&mut out, escape_bb(prefix).as_str());
        append_str(&mut out, "list <page>[/i] to show more.");
        append_str(&mut out, pages[page].as_str());
        assert(views[page as int] == pages@[page as int]@);
        Some(string_of(out.as_slice()))
    } else {
        assert(views[page as int] == pages@[page as int]@);
        Some(pages[page].clone())
    }
}

} // verus!

verus! {

/// The command word of a builtin, with `$` where nothing may follow it.
pub open spec fn builtin_word(b: Builtin) -> Seq<char> {
    match b {
        Builtin::Help => "help"@,
        Builtin::Copyright => "copy"@,
        Builtin::List => "list"@,
        Builtin::Add => "add"@,
        Builtin::Del => "del"@,
        Builtin::Reload => "reload$"@,
        Builtin::Quit => "quit$"@,
    }
}

/// The pattern that triggers builtin `b`: the escaped prefix and the command
/// word at the start of the message.
pub open spec fn builtin_source(prefix: Seq<char>, b: Builtin) -> Seq<char> {
    seq!['^'] + escaped(prefix) + builtin_word(b)
}

/// The builtins in the order they are registered.
pub open spec fn builtin_order() -> Seq<Builtin> {
    seq![
        Builtin::Help,
        Builtin::Copyright,
        Builtin::List,
        Builtin::Add,
        Builtin::Del,
        Builtin::Reload,
        Builtin::Quit,
    ]
}

/// `a` is the rule of builtin `b` for the command prefix `prefix`.
pub open spec fn is_builtin_rule(a: Action, prefix: Seq<char>, b: Builtin) -> bool {
    &&& a.matchers@.len() == 1
    &&& a.matchers@[0] matches Matcher::Regex(p) && p@ == builtin_source(prefix, b)
    &&& a.reaction == Some(Reaction::Function(b))
}

/// Whether all builtin patterns for `prefix` compile.
pub open spec fn builtins_compile(prefix: Seq<char>) -> bool {
    forall|k: int| 0 <= k < 7 ==> regex_compiles(#[trigger] builtin_source(prefix, builtin_order()[k]))
}

fn builtin_word_str(b: Builtin) -> (r: &'static str)
    ensures
        r@ == builtin_word(b),
{
    match b {
        Builtin::Help => "help",
        Builtin::Copyright => "copy",
        Builtin::List => "list",
        Builtin::Add => "add",
        Builtin::Del => "del",
        Builtin::Reload => "reload$",
        Builtin::Quit => "quit$",
    }
}

fn builtin_rule(escaped_prefix: &Vec<char>, b: Builtin) -> (r: Result<Action, ActionError>)
    ensures
        r is Ok <==> regex_compiles(seq!['^'] + escaped_prefix@ + builtin_word(b)),
        r matches Ok(a) ==> a.matchers@.len() == 1 && (a.matchers@[0] matches Matcher::Regex(p)
            && p@ == seq!['^'] + escaped_prefix@ + builtin_word(b)) && a.reaction == Some(
            Reaction::Function(b),
        ),
        r matches Err(e) ==> e is InvalidPattern,
{
    let mut source: Vec<char> = Vec::new();
    source.push('^');
    append_chars(&mut source, escaped_prefix.as_slice());
    append_str(&mut source, builtin_word_str(b));
    let text = string_of(source.as_slice());
    assert(text@ =~= seq!['^'] + escaped_prefix@ + builtin_word(b));
    match Pattern::new(text.as_str()) {
        Ok(p) => {
            let mut matchers: Vec<Matcher> = Vec::new();
            matchers.push(Matcher::Regex(p));
            Ok(Action { matchers, reaction: Some(Reaction::Function(b)) })
        },
        Err(_) => Err(ActionError::InvalidPattern(text)),
    }
}

/// Appends the builtin commands, in `builtin_order`, for the command prefix
/// `prefix`; where a pattern does not compile, nothing is appended.
pub fn init(actions: &mut ActionList, prefix: &str) -> (r: Result<(), ActionError>)
    ensures
        r is Ok <==> builtins_compile(prefix@),
        r is Ok ==> final(actions).0@.len() == old(actions).0@.len() + 7 && final(actions).0@.take(
            old(actions).0@.len() as int,
        ) == old(actions).0@ && forall|k: int|
            0 <= k < 7 ==> is_builtin_rule(
                #[trigger] final(actions).0@[old(actions).0@.len() + k],
                prefix@,
                builtin_order()[k],
            ),
        r is Err ==> final(actions).0@ == old(actions).0@,
        r matches Err(e) ==> e is InvalidPattern,
{
    let ep = chars_of(escape(prefix).as_str());
    let order = [
        Builtin::Help,
        Builtin::Copyright,
        Builtin::List,
        Builtin::Add,
        Builtin::Del,
        Builtin::Reload,
        Builtin::Quit,
    ];
    assert(order@ =~= builtin_order());
    let mut added: Vec<Action> = Vec::new();
    let mut k: usize = 0;
    while k < 7
        invariant
            k <= 7,
            order@ == builtin_order(),
            ep@ == escaped(prefix@),
            added@.len() == k,
            forall|j: int| 0 <= j < k ==> regex_compiles(#[trigger] builtin_source(prefix@, builtin_order()[j])),
            forall|j: int| 0 <= j < k ==> is_builtin_rule(#[trigger] added@[j], prefix@, builtin_order()[j]),
        decreases 7 - k,
    {
        match builtin_rule(&ep, order[k]) {
            Ok(a) => {
                added.push(a);
            },
            Err(e) => {
                assert(!regex_compiles(builtin_source(prefix@, builtin_order()[k as int])));
                return Err(e);
            },
        }
        k += 1;
    }
    let ghost before = actions.0@;
    let ghost rules = added@;
    actions.0.append(&mut added);
    assert(actions.0@ == before + rules);
    assert(actions.0@.take(before.len() as int) =~= before);
    assert forall|j: int| 0 <= j < 7 implies is_builtin_rule(
        #[trigger] actions.0@[before.len() + j],
        prefix@,
        builtin_order()[j],
    ) by {
        assert(actions.0@[before.len() + j] == rules[j]);
    }
    Ok(())
}

} // verus!
