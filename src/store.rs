//! Rule files: the rules of the settings and the dynamic store that users
//! change at runtime.
use vstd::prelude::*;

use crate::action::ActionDefinition;
use crate::builtins::{removed_message, removed_text};
use crate::text::same_text;

verus! {

/// A file of rule definitions, naming further files whose rules follow them.
#[derive(Clone, Debug, Default, PartialEq, Eq)]
pub struct ActionFile {
    /// Further rule files, relative to this one; their rules come after the
    /// ones of this file.
    pub includes: Vec<String>,
    pub on_message: Vec<ActionDefinition>,
}

/// The definition that `add <response> on <trigger>` stores.
pub open spec fn added_definition(response: String, trigger: String) -> ActionDefinition {
    ActionDefinition {
        contains: Some(trigger),
        regex: None,
        chat: None,
        response: Some(response),
        command: None,
        shell: None,
    }
}

/// Whether `d` stays when the rules with the literal trigger `t` are removed.
pub open spec fn keeps(d: ActionDefinition, t: Seq<char>) -> bool {
    !(d.contains matches Some(c) && c@ == t)
}

/// `defs` without the definitions whose literal trigger is `t`, in order.
pub open spec fn without_trigger(defs: Seq<ActionDefinition>, t: Seq<char>) -> Seq<
    ActionDefinition,
>
    decreases defs.len(),
{
    if defs.len() == 0 {
        defs
    } else {
        let p = without_trigger(defs.drop_last(), t);
        if keeps(defs.last(), t) {
            p.push(defs.last())
        } else {
            p
        }
    }
}

proof fn lemma_without_len(defs: Seq<ActionDefinition>, t: Seq<char>)
    ensures
        without_trigger(defs, t).len() <= defs.len(),
    decreases defs.len(),
{
    if defs.len() > 0 {
        lemma_without_len(defs.drop_last(), t);
    }
}

/// A change of the dynamic store asked for by a builtin command.
#[derive(Clone, Debug, PartialEq, Eq)]
pub enum StoreEdit {
    /// Store the rule that answers `response` to the literal `trigger`.
    Add { response: String, trigger: String },
    /// Remove the rules with the literal trigger `trigger`.
    Del { trigger: String },
}

impl ActionFile {
    /// Makes the change and gives the reply for it: none for an added rule,
    /// the count for removed ones.
    pub fn apply(&mut self, edit: StoreEdit) -> (r: String)
        ensures
            final(self).includes == old(self).includes,
            edit matches StoreEdit::Add { response, trigger } ==> final(self).on_message@
                == old(self).on_message@.push(added_definition(response, trigger)) && r@.len()
                == 0,
            edit matches StoreEdit::Del { trigger } ==> final(self).on_message@ == without_trigger(
                old(self).on_message@,
                trigger@,
            ) && r@ == removed_text(
                (old(self).on_message@.len() - final(self).on_message@.len()) as nat,
            ),
    {
        match edit {
            StoreEdit::Add { response, trigger } => {
                self.add_response(response, trigger);
                String::new()
            },
            StoreEdit::Del { trigger } => {
                let count = self.remove_trigger(trigger.as_str());
                removed_message(count)
            },
        }
    }

    /// Appends the rule that answers `response` to the literal `trigger`.
    pub fn add_response(&mut self, response: String, trigger: String)
        ensures
            final(self).includes == old(self).includes,
            final(self).on_message@ == old(self).on_message@.push(
                added_definition(response, trigger),
            ),
    {
        self.on_message.push(
            ActionDefinition {
                contains: Some(trigger),
                regex: None,
                chat: None,
                response: Some(response),
                command: None,
                shell: None,
            },
        );
    }

    /// Removes every rule whose literal trigger is `trigger`, and tells how
    /// many there were.
    pub fn remove_trigger(&mut self, trigger: &str) -> (r: usize)
        ensures
            final(self).includes == old(self).includes,
            final(self).on_message@ == without_trigger(old(self).on_message@, trigger@),
            r == old(self).on_message@.len() - final(self).on_message@.len(),
    {
        let ghost orig = self.on_message@;
        let total = self.on_message.len();
        let mut i: usize = 0;
        let mut j: usize = 0;
        while i < self.on_message.len()
            invariant
                self.includes == old(self).includes,
                orig == old(self).on_message@,
                orig.len() == total,
                i <= j <= orig.len(),
                i <= self.on_message@.len(),
                self.on_message@.len() - i == orig.len() - j,
                self.on_message@.take(i as int) == without_trigger(orig.take(j as int), trigger@),
                self.on_message@.skip(i as int) == orig.skip(j as int),
            decreases self.on_message@.len() - i,
        {
            assert(orig.take(j + 1).drop_last() =~= orig.take(j as int));
            assert(orig[j as int] == self.on_message@[i as int]) by {
                assert(self.on_message@.skip(i as int)[0] == orig.skip(j as int)[0]);
            }
            let ghost cur = self.on_message@;
            let remove = match &self.on_message[i].contains {
                Some(c) => same_text(c.as_str(), trigger),
                None => false,
            };
            if remove {
                self.on_message.remove(i);
                assert(self.on_message@.take(i as int) =~= cur.take(i as int));
                assert forall|k: int| 0 <= k < orig.skip(j + 1).len() implies self.on_message@.skip(
                    i as int,
                )[k] == #[trigger] orig.skip(j + 1)[k] by {
                    assert(cur.skip(i as int)[k + 1] == orig.skip(j as int)[k + 1]);
                }
                assert(self.on_message@.skip(i as int) =~= orig.skip(j + 1));
            } else {
                assert(self.on_message@.take(i + 1) =~= cur.take(i as int).push(orig[j as int]));
                assert forall|k: int| 0 <= k < orig.skip(j + 1).len() implies self.on_message@.skip(
                    i + 1,
                )[k] == #[trigger] orig.skip(j + 1)[k] by {
                    assert(cur.skip(i as int)[k + 1] == orig.skip(j as int)[k + 1]);
                }
                assert(self.on_message@.skip(i + 1) =~= orig.skip(j + 1));
                i += 1;
            }
            j += 1;
        }
        assert(orig.take(j as int) =~= orig);
        assert(self.on_message@.take(i as int) =~= self.on_message@);
        proof {
            lemma_without_len(orig, trigger@);
        }
        j - i
    }
}

} // verus!
