//! What performing a reaction takes: the process to start for commands and
//! shell scripts, and how the end of that process becomes a result.
use vstd::prelude::*;
use vstd::utf8::{decode_utf8, valid_utf8};

use crate::action::{Builtin, Reaction};
use crate::message::{mode_name, target_name, ChatMode, Message, Target};
use crate::text::{chars_of, string_of};

verus! {

/// The base64 text (standard alphabet, padded) of `bytes`.
pub uninterp spec fn base64_of(bytes: Seq<u8>) -> Seq<char>;

/// Whether the base64 text of `n` bytes has a length that fits in `usize`.
pub open spec fn base64_fits(n: nat) -> bool {
    4 * ((n + 2) / 3) <= usize::MAX
}

/// Relies on `base64::encode`, with the standard configuration: four
/// characters for each started group of three bytes (padding included); it
/// panics only where that length overflows `usize`.
#[verifier::external_body]
fn encode_base64(bytes: &[u8]) -> (r: String)
    requires
        base64_fits(bytes@.len()),
    ensures
        r@ == base64_of(bytes@),
        r@.len() == 4 * ((bytes@.len() + 2) / 3),
{
    base64::encode(bytes)
}

/// Relies on `std::str::from_utf8`: succeeds exactly on valid UTF-8 and then
/// gives the decoded characters.
#[verifier::external_body]
fn decode_text(bytes: &[u8]) -> (r: Option<String>)
    ensures
        r is Some <==> valid_utf8(bytes@),
        r matches Some(t) ==> t@ == decode_utf8(bytes@),
{
    match std::str::from_utf8(bytes) {
        Ok(t) => Some(t.to_owned()),
        Err(_) => None,
    }
}

/// The views of a sequence of strings.
pub open spec fn views(v: Seq<String>) -> Seq<Seq<char>> {
    v.map_values(|a: String| a@)
}

/// `s` cut at every space, empty pieces included.
pub open spec fn split_spaces(s: Seq<char>) -> Seq<Seq<char>>
    decreases s.len(),
{
    if s.len() == 0 {
        seq![seq![]]
    } else {
        let p = split_spaces(s.drop_last());
        if s.last() == ' ' {
            p.push(seq![])
        } else {
            p.update(p.len() - 1, p.last().push(s.last()))
        }
    }
}

proof fn lemma_split_nonempty(s: Seq<char>)
    ensures
        split_spaces(s).len() >= 1,
    decreases s.len(),
{
    if s.len() > 0 {
        lemma_split_nonempty(s.drop_last());
    }
}

/// The message context handed to a process after its own arguments: the
/// target label, the text, the sender's name and, where known, the sender's
/// identity in base64.
pub open spec fn context_args(msg: Message) -> Seq<Seq<char>> {
    seq![target_name(msg.target), msg.message@, msg.invoker_name@] + match msg.invoker_uid {
        Some(u) => seq![base64_of(u@)],
        None => seq![],
    }
}

/// Whether the sender identity of `msg`, if any, can be encoded.
pub open spec fn uid_fits(msg: Message) -> bool {
    msg.invoker_uid matches Some(u) ==> base64_fits(u@.len())
}

/// A program to start, with its arguments.
#[derive(Clone, Debug, PartialEq, Eq)]
pub struct Invocation {
    pub program: String,
    pub args: Vec<String>,
}

/// What performing a reaction takes.
#[derive(Clone, Debug, PartialEq, Eq)]
pub enum Execution {
    /// The result is known at once.
    Done(Option<String>),
    /// Start this process and pass its end to `process_result`.
    Spawn(Invocation),
    /// Perform this builtin command.
    Call(Builtin),
}

/// How a started process ended.
#[derive(Clone, Debug, PartialEq, Eq)]
pub enum ProcessOutput {
    /// The process could not be started or waited for.
    Failed,
    /// The process ran to its end.
    Exited { success: bool, stdout: Vec<u8> },
}

/// The result of a process run: a failure to run or output that is not text
/// suppresses the reply, a non-zero exit declines, and otherwise the output
/// is the result.
pub open spec fn process_reply(out: ProcessOutput) -> Option<Seq<char>> {
    match out {
        ProcessOutput::Failed => Some(seq![]),
        ProcessOutput::Exited { success, stdout } => {
            if !success {
                None
            } else if valid_utf8(stdout@) {
                Some(decode_utf8(stdout@))
            } else {
                Some(seq![])
            }
        },
    }
}

/// The program and arguments for a command or shell reaction; a shell script
/// runs under `sh` on unix-like systems and under `cmd` elsewhere.
pub open spec fn invocation_of(r: Reaction, msg: Message, unix: bool) -> (Seq<char>, Seq<Seq<char>>) {
    match r {
        Reaction::Shell(s) => if unix {
            ("sh"@, seq!["-c"@, s@, "sh"@] + context_args(msg))
        } else {
            ("cmd"@, seq!["/C"@, s@] + context_args(msg))
        },
        _ => {
            let parts = split_spaces(
                match r {
                    Reaction::Command(s) => s@,
                    _ => seq![],
                },
            );
            (parts[0], parts.skip(1) + context_args(msg))
        },
    }
}

/// What performing reaction `r` on `msg` takes.
pub open spec fn execution_of(r: Reaction, msg: Message, unix: bool, e: Execution) -> bool {
    match r {
        Reaction::Plain(s) => e == Execution::Done(Some(s)),
        Reaction::Function(b) => e == Execution::Call(b),
        _ => e matches Execution::Spawn(inv) && (inv.program@, views(inv.args@)) == invocation_of(
            r,
            msg,
            unix,
        ),
    }
}

/// Whatever the process printed, as a result.
pub fn process_result(out: &ProcessOutput) -> (r: Option<String>)
    ensures
        r matches Some(s) ==> process_reply(*out) == Some(s@),
        r is None ==> process_reply(*out) is None,
{
    match out {
        ProcessOutput::Failed => Some(String::new()),
        ProcessOutput::Exited { success, stdout } => {
            if !*success {
                None
            } else {
                match decode_text(stdout.as_slice()) {
                    Some(t) => Some(t),
                    None => Some(String::new()),
                }
            }
        },
    }
}

/// The pieces of `s` between spaces.
fn split_at_spaces(s: &str) -> (r: Vec<String>)
    ensures
        views(r@) == split_spaces(s@),
{
    let cs = chars_of(s);
    let mut pieces: Vec<String> = Vec::new();
    let mut cur: Vec<char> = Vec::new();
    let mut i: usize = 0;
    while i < cs.len()
        invariant
            i <= cs@.len(),
            cs@ == s@,
            views(pieces@).push(cur@) == split_spaces(cs@.subrange(0, i as int)),
        decreases cs@.len() - i,
    {
        let c = cs[i];
        let ghost before = cs@.subrange(0, i as int);
        let ghost after = cs@.subrange(0, i + 1);
        assert(after.drop_last() =~= before);
        proof {
            lemma_split_nonempty(before);
        }
        if c == ' ' {
            let piece = string_of(cur.as_slice());
            pieces.push(piece);
            cur = Vec::new();
            assert(views(pieces@).push(cur@) =~= split_spaces(after));
        } else {
            cur.push(c);
            assert(views(pieces@).push(cur@) =~= split_spaces(after));
        }
        i += 1;
    }
    assert(cs@.subrange(0, cs@.len() as int) =~= cs@);
    pieces.push(string_of(cur.as_slice()));
    pieces
}

/// Appends the message context arguments.
fn push_context(args: &mut Vec<String>, msg: &Message)
    requires
        uid_fits(*msg),
    ensures
        views(final(args)@) == views(old(args)@) + context_args(*msg),
{
    args.push(Reaction::get_target(&msg.target).to_owned());
    args.push(msg.message.clone());
    args.push(msg.invoker_name.clone());
    match &msg.invoker_uid {
        Some(u) => args.push(encode_base64(u.as_slice())),
        None => {},
    }
    assert(views(args@) =~= views(old(args)@) + context_args(*msg));
}

impl Reaction {
    /// The label of a message target.
    pub fn get_target(t: &Target) -> (r: &'static str)
        ensures
            r@ == target_name(*t),
    {
        match t {
            Target::Server => "server",
            Target::Channel => "channel",
            Target::Client(_) => "client",
            Target::Poke(_) => "poke",
        }
    }

    /// The label of a chat mode filter.
    pub fn get_mode(m: &Option<ChatMode>) -> (r: &'static str)
        ensures
            r@ == mode_name(*m),
    {
        match m {
            Some(ChatMode::Server) => "server",
            Some(ChatMode::Channel) => "channel",
            Some(ChatMode::Client) => "client",
            None => "poke",
        }
    }

    /// What performing this reaction on `msg` takes: a fixed reply, a process
    /// to start, or a builtin command; `unix` tells which system shell runs
    /// shell scripts.
    pub fn execute(&self, msg: &Message, unix: bool) -> (r: Execution)
        requires
            uid_fits(*msg),
        ensures
            execution_of(*self, *msg, unix, r),
    {
        match self {
            Reaction::Plain(s) => Execution::Done(Some(s.clone())),
            Reaction::Function(b) => Execution::Call(*b),
            Reaction::Command(s) => {
                let parts = split_at_spaces(s.as_str());
                proof {
                    lemma_split_nonempty(s@);
                }
                let mut args: Vec<String> = Vec::new();
                let mut k: usize = 1;
                while k < parts.len()
                    invariant
                        1 <= k <= parts@.len(),
                        views(parts@) == split_spaces(s@),
                        views(args@) == views(parts@).subrange(1, k as int),
                    decreases parts@.len() - k,
                {
                    let ghost prev = args@;
                    let piece = parts[k].clone();
                    assert(piece@ == views(parts@)[k as int]);
                    args.push(piece);
                    assert(args@ == prev.push(piece));
                    assert(views(args@) =~= views(prev).push(piece@));
                    assert(views(args@) =~= views(parts@).subrange(1, k + 1));
                    k += 1;
                }
                push_context(&mut args, msg);
                let program = parts[0].clone();
                assert(views(parts@).subrange(1, parts@.len() as int) =~= split_spaces(s@).skip(1));
                Execution::Spawn(Invocation { program, args })
            },
            Reaction::Shell(s) => {
                let mut args: Vec<String> = Vec::new();
                if unix {
                    args.push("-c".to_owned());
                    args.push(s.clone());
                    args.push("sh".to_owned());
                    assert(views(args@) =~= seq!["-c"@, s@, "sh"@]);
                    push_context(&mut args, msg);
                    Execution::Spawn(Invocation { program: "sh".to_owned(), args })
                } else {
                    args.push("/C".to_owned());
                    args.push(s.clone());
                    assert(views(args@) =~= seq!["/C"@, s@]);
                    push_context(&mut args, msg);
                    Execution::Spawn(Invocation { program: "cmd".to_owned(), args })
                }
            },
        }
    }
}

} // verus!
