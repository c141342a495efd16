//! Evaluation of a message against an ordered rule list.
//!
//! Reactions that need outside work (a process, a builtin command) are handed
//! back to the caller as `Step::Run`; the caller performs them and hands the
//! outcome to `ActionList::resume`. `reply` is the result of the whole walk
//! for given reaction outcomes.
use vstd::prelude::*;

use crate::action::{action_matches, matcher_holds, Action, ActionList, Reaction};
use crate::message::Message;
use crate::reaction::{process_reply, ProcessOutput};

verus! {

/// What the caller does next while a message is being evaluated.
#[derive(Clone, Debug, PartialEq, Eq)]
pub enum Step {
    /// Perform the reaction of the rule at this index, then call `resume`.
    Run(usize),
    /// Evaluation is over, with this reply.
    Finish(Option<String>),
}

/// The mathematical form of a `Step`.
pub enum StepModel {
    Run(int),
    Finish(Option<Seq<char>>),
}

impl View for Step {
    type V = StepModel;

    open spec fn view(&self) -> StepModel {
        match self {
            Step::Run(i) => StepModel::Run(*i as int),
            Step::Finish(None) => StepModel::Finish(None),
            Step::Finish(Some(s)) => StepModel::Finish(Some(s@)),
        }
    }
}

/// The reply that a conclusive reaction result stands for: an empty text
/// suppresses the reply.
pub open spec fn conclusive(s: Seq<char>) -> Option<Seq<char>> {
    if s.len() == 0 {
        None
    } else {
        Some(s)
    }
}

/// The result of reaction `r`, where `outcome` is what performing it gave.
pub open spec fn reaction_result(r: Reaction, outcome: Option<Seq<char>>) -> Option<Seq<char>> {
    match r {
        Reaction::Plain(s) => Some(s@),
        _ => outcome,
    }
}

/// The reply to `msg` from the rules at `from` and after, where `outcome(i)`
/// is what performing the reaction of rule `i` gives.
pub open spec fn reply(
    rules: Seq<Action>,
    msg: Message,
    outcome: spec_fn(int) -> Option<Seq<char>>,
    from: int,
) -> Option<Seq<char>>
    decreases rules.len() - from,
{
    if from < 0 || from >= rules.len() {
        None
    } else if !action_matches(rules[from], msg) {
        reply(rules, msg, outcome, from + 1)
    } else {
        match rules[from].reaction {
            None => None,
            Some(r) => match reaction_result(r, outcome(from)) {
                None => reply(rules, msg, outcome, from + 1),
                Some(s) => conclusive(s),
            },
        }
    }
}

/// The index of the first rule at `from` or after whose matchers all hold,
/// or the length of the list.
pub open spec fn first_match(rules: Seq<Action>, msg: Message, from: int) -> int
    decreases rules.len() - from,
{
    if from < 0 || from >= rules.len() {
        rules.len() as int
    } else if action_matches(rules[from], msg) {
        from
    } else {
        first_match(rules, msg, from + 1)
    }
}

/// The step the engine takes when it searches from rule `from`.
pub open spec fn step_from(rules: Seq<Action>, msg: Message, from: int) -> StepModel {
    let i = first_match(rules, msg, from);
    if i >= rules.len() {
        StepModel::Finish(None)
    } else {
        match rules[i].reaction {
            None => StepModel::Finish(None),
            Some(Reaction::Plain(s)) => StepModel::Finish(conclusive(s@)),
            Some(_) => StepModel::Run(i),
        }
    }
}

/// The step the engine takes once the reaction of rule `at` gave `outcome`.
pub open spec fn step_after(
    rules: Seq<Action>,
    msg: Message,
    at: int,
    outcome: Option<Seq<char>>,
) -> StepModel {
    match outcome {
        None => step_from(rules, msg, at + 1),
        Some(s) => StepModel::Finish(conclusive(s)),
    }
}

/// Rule `j` lets evaluation go on: it does not match, or its reaction gave no
/// result.
pub open spec fn passes_over(
    rules: Seq<Action>,
    msg: Message,
    outcome: spec_fn(int) -> Option<Seq<char>>,
    j: int,
) -> bool {
    !action_matches(rules[j], msg) || (rules[j].reaction matches Some(r) && reaction_result(
        r,
        outcome(j),
    ) is None)
}

/// Rule `i` matches and its reaction gives the non-empty text `s`.
pub open spec fn answers(
    rules: Seq<Action>,
    msg: Message,
    outcome: spec_fn(int) -> Option<Seq<char>>,
    i: int,
    s: Seq<char>,
) -> bool {
    &&& action_matches(rules[i], msg)
    &&& rules[i].reaction matches Some(r) && reaction_result(r, outcome(i)) == Some(s)
    &&& s.len() > 0
}

/// Rules that all let evaluation go on can be skipped.
pub proof fn lemma_skip_passed(
    rules: Seq<Action>,
    msg: Message,
    outcome: spec_fn(int) -> Option<Seq<char>>,
    from: int,
    i: int,
)
    requires
        0 <= from <= i <= rules.len(),
        forall|j: int| from <= j < i ==> passes_over(rules, msg, outcome, j),
    ensures
        reply(rules, msg, outcome, from) == reply(rules, msg, outcome, i),
    decreases i - from,
{
    if from < i {
        assert(passes_over(rules, msg, outcome, from));
        lemma_skip_passed(rules, msg, outcome, from + 1, i);
    }
}

/// The reply is the text of the first rule that matches and answers, where
/// every earlier rule let evaluation go on; and only then is there a reply.
pub proof fn lemma_first_answer_wins(
    rules: Seq<Action>,
    msg: Message,
    outcome: spec_fn(int) -> Option<Seq<char>>,
    s: Seq<char>,
)
    ensures
        reply(rules, msg, outcome, 0) == Some(s) <==> exists|i: int|
            0 <= i < rules.len() && #[trigger] answers(rules, msg, outcome, i, s) && forall|j: int|
                0 <= j < i ==> passes_over(rules, msg, outcome, j),
{
    if reply(rules, msg, outcome, 0) == Some(s) {
        let i = lemma_reply_has_answer(rules, msg, outcome, 0, s);
    }
    if exists|i: int|
        0 <= i < rules.len() && #[trigger] answers(rules, msg, outcome, i, s) && forall|j: int|
            0 <= j < i ==> passes_over(rules, msg, outcome, j) {
        let i = choose|i: int|
            0 <= i < rules.len() && #[trigger] answers(rules, msg, outcome, i, s) && forall|j: int|
                0 <= j < i ==> passes_over(rules, msg, outcome, j);
        lemma_skip_passed(rules, msg, outcome, 0, i);
    }
}

proof fn lemma_reply_has_answer(
    rules: Seq<Action>,
    msg: Message,
    outcome: spec_fn(int) -> Option<Seq<char>>,
    from: int,
    s: Seq<char>,
) -> (i: int)
    requires
        0 <= from,
        reply(rules, msg, outcome, from) == Some(s),
    ensures
        from <= i < rules.len(),
        answers(rules, msg, outcome, i, s),
        forall|j: int| from <= j < i ==> passes_over(rules, msg, outcome, j),
    decreases rules.len() - from,
{
    if !action_matches(rules[from], msg) {
        lemma_reply_has_answer(rules, msg, outcome, from + 1, s)
    } else {
        let r = rules[from].reaction->0;
        if reaction_result(r, outcome(from)) is None {
            lemma_reply_has_answer(rules, msg, outcome, from + 1, s)
        } else {
            from
        }
    }
}

/// Once rule `i` has answered, the outcomes of the rules after it play no
/// part: any outcomes that agree up to rule `i` give the same reply.
pub proof fn lemma_later_rules_unused(
    rules: Seq<Action>,
    msg: Message,
    outcome: spec_fn(int) -> Option<Seq<char>>,
    other: spec_fn(int) -> Option<Seq<char>>,
    i: int,
    s: Seq<char>,
)
    requires
        0 <= i < rules.len(),
        answers(rules, msg, outcome, i, s),
        forall|j: int| 0 <= j < i ==> passes_over(rules, msg, outcome, j),
        forall|j: int| 0 <= j <= i ==> #[trigger] other(j) == outcome(j),
    ensures
        reply(rules, msg, outcome, 0) == Some(s),
        reply(rules, msg, other, 0) == Some(s),
{
    assert forall|j: int| 0 <= j < i implies passes_over(rules, msg, other, j) by {
        assert(passes_over(rules, msg, outcome, j));
    }
    lemma_skip_passed(rules, msg, outcome, 0, i);
    lemma_skip_passed(rules, msg, other, 0, i);
}

/// A matching rule without a reaction ends evaluation without a reply, once
/// every earlier rule has let evaluation go on, whatever the later rules are.
pub proof fn lemma_silent_rule_stops(
    rules: Seq<Action>,
    msg: Message,
    outcome: spec_fn(int) -> Option<Seq<char>>,
    i: int,
)
    requires
        0 <= i < rules.len(),
        action_matches(rules[i], msg),
        rules[i].reaction is None,
        forall|j: int| 0 <= j < i ==> passes_over(rules, msg, outcome, j),
    ensures
        reply(rules, msg, outcome, 0) is None,
{
    lemma_skip_passed(rules, msg, outcome, 0, i);
}

/// The indices of the rules whose reactions are performed while evaluating
/// from rule `from`, in order.
pub open spec fn performed(
    rules: Seq<Action>,
    msg: Message,
    outcome: spec_fn(int) -> Option<Seq<char>>,
    from: int,
) -> Seq<int>
    decreases rules.len() - from,
{
    if from < 0 || from >= rules.len() {
        seq![]
    } else if !action_matches(rules[from], msg) {
        performed(rules, msg, outcome, from + 1)
    } else {
        match rules[from].reaction {
            None => seq![],
            Some(r) => match reaction_result(r, outcome(from)) {
                None => seq![from] + performed(rules, msg, outcome, from + 1),
                Some(_) => seq![from],
            },
        }
    }
}

proof fn lemma_performed_upto(
    rules: Seq<Action>,
    msg: Message,
    outcome: spec_fn(int) -> Option<Seq<char>>,
    from: int,
    i: int,
    s: Seq<char>,
)
    requires
        0 <= from <= i < rules.len(),
        answers(rules, msg, outcome, i, s),
        forall|j: int| from <= j < i ==> passes_over(rules, msg, outcome, j),
    ensures
        performed(rules, msg, outcome, from).len() > 0,
        performed(rules, msg, outcome, from).last() == i,
        forall|k: int|
            0 <= k < performed(rules, msg, outcome, from).len() ==> from <= #[trigger] performed(
                rules,
                msg,
                outcome,
                from,
            )[k] <= i && action_matches(rules[performed(rules, msg, outcome, from)[k]], msg),
        forall|j: int|
            from <= j < i && #[trigger] action_matches(rules[j], msg) ==> performed(
                rules,
                msg,
                outcome,
                from,
            ).contains(j),
    decreases i - from,
{
    let p = performed(rules, msg, outcome, from);
    if from < i {
        assert(passes_over(rules, msg, outcome, from));
        lemma_performed_upto(rules, msg, outcome, from + 1, i, s);
        let q = performed(rules, msg, outcome, from + 1);
        if action_matches(rules[from], msg) {
            assert(p == seq![from] + q);
            assert forall|j: int|
                from <= j < i && #[trigger] action_matches(rules[j], msg) implies p.contains(j) by {
                if j == from {
                    assert(p[0] == from);
                } else {
                    assert(q.contains(j));
                    let k = choose|k: int| 0 <= k < q.len() && q[k] == j;
                    assert(p[k + 1] == j);
                }
            }
            assert forall|k: int| 0 <= k < p.len() implies from <= #[trigger] p[k] <= i
                && action_matches(rules[p[k]], msg) by {
                if k > 0 {
                    assert(p[k] == q[k - 1]);
                }
            }
        }
    }
}

/// Reactions are performed in rule order, only for rules that match, and
/// none after the rule that answers: when rule `i` answers after every
/// earlier rule let evaluation go on, the performed reactions are those of
/// the matching rules up to `i`, ending with `i`.
pub proof fn lemma_no_reaction_after_answer(
    rules: Seq<Action>,
    msg: Message,
    outcome: spec_fn(int) -> Option<Seq<char>>,
    i: int,
    s: Seq<char>,
)
    requires
        0 <= i < rules.len(),
        answers(rules, msg, outcome, i, s),
        forall|j: int| 0 <= j < i ==> passes_over(rules, msg, outcome, j),
    ensures
        performed(rules, msg, outcome, 0).last() == i,
        forall|k: int|
            0 <= k < performed(rules, msg, outcome, 0).len() ==> #[trigger] performed(
                rules,
                msg,
                outcome,
                0,
            )[k] <= i && action_matches(rules[performed(rules, msg, outcome, 0)[k]], msg),
        forall|j: int|
            0 <= j < i && #[trigger] action_matches(rules[j], msg) ==> performed(
                rules,
                msg,
                outcome,
                0,
            ).contains(j),
        reply(rules, msg, outcome, 0) == Some(s),
{
    lemma_performed_upto(rules, msg, outcome, 0, i, s);
    lemma_skip_passed(rules, msg, outcome, 0, i);
}

/// A matching command or shell rule whose process exits with a failure
/// status hands the message on to the next rule, whatever it printed.
pub proof fn lemma_failed_exit_goes_on(
    rules: Seq<Action>,
    msg: Message,
    outcome: spec_fn(int) -> Option<Seq<char>>,
    i: int,
    stdout: Vec<u8>,
)
    requires
        0 <= i < rules.len(),
        action_matches(rules[i], msg),
        rules[i].reaction matches Some(r) && (r is Command || r is Shell),
        outcome(i) == process_reply(ProcessOutput::Exited { success: false, stdout }),
    ensures
        reply(rules, msg, outcome, i) == reply(rules, msg, outcome, i + 1),
{
}

/// The steps of the engine compute `reply`: a finished search gives the
/// reply, and a `Run` of rule `i` leaves the reply to what its reaction gives,
/// as `step_after` goes on.
pub proof fn lemma_steps_compute_reply(
    rules: Seq<Action>,
    msg: Message,
    outcome: spec_fn(int) -> Option<Seq<char>>,
    from: int,
)
    requires
        0 <= from,
    ensures
        step_from(rules, msg, from) matches StepModel::Finish(r) ==> reply(rules, msg, outcome, from)
            == r,
        step_from(rules, msg, from) matches StepModel::Run(i) ==> from <= i < rules.len()
            && reply(rules, msg, outcome, from) == match outcome(i) {
            None => reply(rules, msg, outcome, i + 1),
            Some(s) => conclusive(s),
        },
    decreases rules.len() - from,
{
    if from < rules.len() && !action_matches(rules[from], msg) {
        lemma_steps_compute_reply(rules, msg, outcome, from + 1);
    }
}

impl Action {
    /// Whether all matchers of this rule hold of `msg`.
    pub fn matches(&self, msg: &Message) -> (r: bool)
        ensures
            r == action_matches(*self, *msg),
    {
        let mut k: usize = 0;
        while k < self.matchers.len()
            invariant
                k <= self.matchers@.len(),
                forall|j: int| 0 <= j < k ==> matcher_holds(#[trigger] self.matchers@[j], *msg),
            decreases self.matchers@.len() - k,
        {
            if !self.matchers[k].matches(msg) {
                return false;
            }
            k += 1;
        }
        true
    }
}

impl ActionList {
    /// Starts evaluating `msg` at the first rule.
    pub fn handle(&self, msg: &Message) -> (r: Step)
        ensures
            r@ == step_from(self.0@, *msg, 0),
    {
        self.advance(msg, 0)
    }

    /// Searches for the next rule to act on, starting at rule `from`.
    pub fn advance(&self, msg: &Message, from: usize) -> (r: Step)
        ensures
            r@ == step_from(self.0@, *msg, from as int),
    {
        let mut i: usize = from;
        while i < self.0.len()
            invariant
                from <= i,
                first_match(self.0@, *msg, from as int) == first_match(self.0@, *msg, i as int),
            decreases self.0@.len() - i,
        {
            if self.0[i].matches(msg) {
                let r = match &self.0[i].reaction {
                    None => Step::Finish(None),
                    Some(Reaction::Plain(s)) => {
                        if s.as_str().is_empty() {
                            Step::Finish(None)
                        } else {
                            let t = s.clone();
                            assert(t@ == s@);
                            Step::Finish(Some(t))
                        }
                    },
                    Some(_) => Step::Run(i),
                };
                return r;
            }
            i += 1;
        }
        Step::Finish(None)
    }

    /// Goes on after the reaction of rule `at` gave `outcome`: `None` tries
    /// the following rules, an empty text ends without a reply, any other
    /// text is the reply.
    pub fn resume(&self, msg: &Message, at: usize, outcome: Option<String>) -> (r: Step)
        requires
            at < self.0@.len(),
        ensures
            r@ == step_after(self.0@, *msg, at as int, match outcome {
                Some(s) => Some(s@),
                None => None,
            }),
    {
        proof {
            broadcast use vstd::std_specs::vec::axiom_spec_len;
            assert(self.0@.len() == self.0.len());
        }
        match outcome {
            None => self.advance(msg, at + 1),
            Some(s) => {
                if s.as_str().is_empty() {
                    Step::Finish(None)
                } else {
                    Step::Finish(Some(s))
                }
            },
        }
    }
}

} // verus!
