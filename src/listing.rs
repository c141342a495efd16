//! The listing of all active triggers shown by the `list` command: one
//! readable line per rule, sorted, without repeats, packed into pages.
use vstd::prelude::*;

use crate::action::{Action, ActionList, Matcher};
use crate::message::mode_name;
use crate::reaction::views;
use crate::text::{append_chars, append_str, chars_of, string_of};

verus! {

/// `s` without the anchors `^` and `$`.
pub open spec fn without_anchors(s: Seq<char>) -> Seq<char>
    decreases s.len(),
{
    if s.len() == 0 {
        s
    } else if s[0] == '^' || s[0] == '$' {
        without_anchors(s.skip(1))
    } else {
        seq![s[0]] + without_anchors(s.skip(1))
    }
}

/// `s` with each occurrence of the pair `a b`, from left to right and not
/// overlapping, replaced by `with`.
pub open spec fn replace_pair(s: Seq<char>, a: char, b: char, with: Seq<char>) -> Seq<char>
    decreases s.len(),
{
    if s.len() == 0 {
        s
    } else if s.len() >= 2 && s[0] == a && s[1] == b {
        with + replace_pair(s.skip(2), a, b, with)
    } else {
        seq![s[0]] + replace_pair(s.skip(1), a, b, with)
    }
}

/// A pattern source as a reader would write the trigger: without anchors and
/// word boundaries, and with the escapes of `\` and `.` undone.
pub open spec fn readable(source: Seq<char>) -> Seq<char> {
    let s1 = without_anchors(source);
    let s2 = replace_pair(s1, '\\', 'b', seq![]);
    let s3 = replace_pair(s2, '\\', '\\', seq!['\\']);
    replace_pair(s3, '\\', '.', seq!['.'])
}

/// The text for one matcher.
pub open spec fn matcher_text(m: Matcher) -> Seq<char> {
    match m {
        Matcher::Regex(p) => readable(p@),
        Matcher::Mode(mode) => " (only in "@ + mode_name(mode) + " mode)"@,
    }
}

/// The texts of the first `n` matchers of a rule, one after the other.
pub open spec fn matchers_text(ms: Seq<Matcher>, n: int) -> Seq<char>
    decreases n,
{
    if n <= 0 {
        seq![]
    } else {
        matchers_text(ms, n - 1) + matcher_text(ms[n - 1])
    }
}

/// The line that describes a rule.
pub open spec fn describe(a: Action) -> Seq<char> {
    matchers_text(a.matchers@, a.matchers@.len() as int)
}

fn strip_anchors(v: &Vec<char>) -> (r: Vec<char>)
    ensures
        r@ == without_anchors(v@),
{
    let mut out: Vec<char> = Vec::new();
    let mut i: usize = 0;
    assert(v@.skip(0) =~= v@);
    assert(out@ + without_anchors(v@) =~= without_anchors(v@));
    while i < v.len()
        invariant
            i <= v@.len(),
            out@ + without_anchors(v@.skip(i as int)) == without_anchors(v@),
        decreases v@.len() - i,
    {
        let ghost rest = v@.skip(i as int);
        assert(rest.skip(1) =~= v@.skip(i + 1));
        if v[i] != '^' && v[i] != '$' {
            let ghost before = out@;
            out.push(v[i]);
            assert(out@ + without_anchors(v@.skip(i + 1)) =~= before + without_anchors(rest));
        }
        i += 1;
    }
    assert(v@.skip(v@.len() as int) =~= seq![]);
    assert(out@ + without_anchors(v@.skip(i as int)) =~= out@);
    out
}

fn replace_pairs(v: &Vec<char>, a: char, b: char, with: &Vec<char>) -> (r: Vec<char>)
    ensures
        r@ == replace_pair(v@, a, b, with@),
{
    let mut out: Vec<char> = Vec::new();
    let mut i: usize = 0;
    assert(v@.skip(0) =~= v@);
    assert(out@ + replace_pair(v@, a, b, with@) =~= replace_pair(v@, a, b, with@));
    while i < v.len()
        invariant
            i <= v@.len(),
            out@ + replace_pair(v@.skip(i as int), a, b, with@) == replace_pair(v@, a, b, with@),
        decreases v@.len() - i,
    {
        let ghost rest = v@.skip(i as int);
        let ghost before = out@;
        if i + 1 < v.len() && v[i] == a && v[i + 1] == b {
            assert(rest.skip(2) =~= v@.skip(i + 2));
            append_chars(&mut out, with.as_slice());
            assert(out@ + replace_pair(v@.skip(i + 2), a, b, with@) =~= before + replace_pair(
                rest,
                a,
                b,
                with@,
            ));
            i += 2;
        } else {
            assert(rest.skip(1) =~= v@.skip(i + 1));
            out.push(v[i]);
            assert(out@ + replace_pair(v@.skip(i + 1), a, b, with@) =~= before + replace_pair(
                rest,
                a,
                b,
                with@,
            ));
            i += 1;
        }
    }
    assert(v@.skip(v@.len() as int) =~= seq![]);
    assert(out@ + replace_pair(v@.skip(i as int), a, b, with@) =~= out@);
    out
}

/// The readable form of a pattern source.
pub fn readable_source(source: &str) -> (r: Vec<char>)
    ensures
        r@ == readable(source@),
{
    let s1 = strip_anchors(&chars_of(source));
    let nothing: Vec<char> = Vec::new();
    assert(nothing@ =~= seq![]);
    let s2 = replace_pairs(&s1, '\\', 'b', &nothing);
    let backslash = vec!['\\'];
    let dot = vec!['.'];
    assert(backslash@ =~= seq!['\\']);
    assert(dot@ =~= seq!['.']);
    let s3 = replace_pairs(&s2, '\\', '\\', &backslash);
    replace_pairs(&s3, '\\', '.', &dot)
}

/// The line that describes rule `a`.
pub fn describe_action(a: &Action) -> (r: Vec<char>)
    ensures
        r@ == describe(*a),
{
    let mut out: Vec<char> = Vec::new();
    let mut k: usize = 0;
    while k < a.matchers.len()
        invariant
            k <= a.matchers@.len(),
            out@ == matchers_text(a.matchers@, k as int),
        decreases a.matchers@.len() - k,
    {
        match &a.matchers[k] {
            Matcher::Regex(p) => {
                let t = readable_source(p.as_str());
                append_chars(&mut out, t.as_slice());
            },
            Matcher::Mode(m) => {
                append_str(&mut out, " (only in ");
                append_str(&mut out, crate::action::Reaction::get_mode(m));
                append_str(&mut out, " mode)");
            },
        }
        k += 1;
    }
    out
}

} // verus!

verus! {

/// The number of characters a listing page is packed to.
pub const PAGE_BUDGET: usize = 900;

/// Lexicographic order of character sequences by code point, the order of
/// `str`'s comparison.
pub open spec fn lex_lt(a: Seq<char>, b: Seq<char>) -> bool
    decreases a.len(),
{
    if b.len() == 0 {
        false
    } else if a.len() == 0 {
        true
    } else if a[0] != b[0] {
        a[0] < b[0]
    } else {
        lex_lt(a.skip(1), b.skip(1))
    }
}

proof fn lemma_lex_transitive(a: Seq<char>, b: Seq<char>, c: Seq<char>)
    requires
        lex_lt(a, b),
        lex_lt(b, c),
    ensures
        lex_lt(a, c),
    decreases a.len(),
{
    if a.len() > 0 && a[0] == b[0] && b[0] == c[0] {
        lemma_lex_transitive(a.skip(1), b.skip(1), c.skip(1));
    }
}

proof fn lemma_lex_total(a: Seq<char>, b: Seq<char>)
    requires
        a != b,
    ensures
        lex_lt(a, b) || lex_lt(b, a),
    decreases a.len(),
{
    if a.len() > 0 && b.len() > 0 && a[0] == b[0] {
        if a.skip(1) == b.skip(1) {
            assert(a =~= seq![a[0]] + a.skip(1));
            assert(b =~= seq![b[0]] + b.skip(1));
        }
        lemma_lex_total(a.skip(1), b.skip(1));
    } else if a.len() > 0 && b.len() > 0 {
    } else if a.len() == 0 && b.len() == 0 {
        assert(a =~= b);
    }
}

proof fn lemma_lex_common_prefix(a: Seq<char>, b: Seq<char>, i: int)
    requires
        0 <= i <= a.len(),
        i <= b.len(),
        forall|j: int| 0 <= j < i ==> a[j] == b[j],
    ensures
        lex_lt(a, b) == lex_lt(a.skip(i), b.skip(i)),
    decreases i,
{
    if i > 0 {
        lemma_lex_common_prefix(a.skip(1), b.skip(1), i - 1);
        assert(a.skip(1).skip(i - 1) =~= a.skip(i));
        assert(b.skip(1).skip(i - 1) =~= b.skip(i));
    } else {
        assert(a.skip(0) =~= a);
        assert(b.skip(0) =~= b);
    }
}

/// Whether `a` comes before `b`.
fn lex_less(a: &Vec<char>, b: &Vec<char>) -> (r: bool)
    ensures
        r == lex_lt(a@, b@),
{
    let mut i: usize = 0;
    while i < a.len() && i < b.len() && a[i] == b[i]
        invariant
            i <= a@.len(),
            i <= b@.len(),
            forall|j: int| 0 <= j < i ==> a@[j] == b@[j],
        decreases a@.len() - i,
    {
        i += 1;
    }
    proof {
        lemma_lex_common_prefix(a@, b@, i as int);
    }
    if i == b.len() {
        false
    } else if i == a.len() {
        true
    } else {
        a[i] < b[i]
    }
}

/// Strictly ascending: sorted, with no entry twice.
pub open spec fn strictly_sorted(s: Seq<Seq<char>>) -> bool {
    forall|j: int, k: int| 0 <= j < k < s.len() ==> lex_lt(#[trigger] s[j], #[trigger] s[k])
}

/// `sorted` holds exactly the entries of `s`, each once, in ascending order.
pub open spec fn sorted_set_of(sorted: Seq<Seq<char>>, s: Seq<Seq<char>>) -> bool {
    &&& strictly_sorted(sorted)
    &&& forall|x: Seq<char>| #[trigger] sorted.contains(x) <==> s.contains(x)
}

/// The views of a sequence of character vectors.
pub open spec fn char_views(s: Seq<Vec<char>>) -> Seq<Seq<char>> {
    s.map_values(|v: Vec<char>| v@)
}

/// The lines sorted, each once.
pub fn sort_unique(lines: Vec<Vec<char>>) -> (r: Vec<Vec<char>>)
    ensures
        sorted_set_of(char_views(r@), char_views(lines@)),
{
    let mut out: Vec<Vec<char>> = Vec::new();
    let mut i: usize = 0;
    while i < lines.len()
        invariant
            i <= lines@.len(),
            strictly_sorted(char_views(out@)),
            forall|x: Seq<char>| #[trigger]
                char_views(out@).contains(x) <==> char_views(lines@.take(i as int)).contains(x),
        decreases lines@.len() - i,
    {
        let x = &lines[i];
        let ghost xv = x@;
        let ghost ov = char_views(out@);
        let ghost prev = char_views(lines@.take(i as int));
        let ghost next = char_views(lines@.take(i + 1));
        let mut p: usize = 0;
        let mut searching = true;
        while searching && p < out.len()
            invariant
                p <= out@.len(),
                ov == char_views(out@),
                xv == x@,
                forall|j: int| 0 <= j < p ==> lex_lt(#[trigger] ov[j], xv),
                !searching ==> p < out@.len() && !lex_lt(ov[p as int], xv),
            decreases out@.len() - p + if searching { 1int } else { 0 },
        {
            assert(ov[p as int] == out@[p as int]@);
            if lex_less(&out[p], x) {
                p += 1;
            } else {
                searching = false;
            }
        }
        let present = p < out.len() && !lex_less(x, &out[p]);
        proof {
            assert(next =~= prev.push(xv));
            if p < out@.len() {
                assert(ov[p as int] == out@[p as int]@);
                if !present {
                    assert(lex_lt(xv, ov[p as int]));
                }
            }
        }
        if present {
            proof {
                if ov[p as int] != xv {
                    lemma_lex_total(ov[p as int], xv);
                }
                assert(ov[p as int] == xv);
                assert(ov.contains(xv));
                assert forall|y: Seq<char>| #[trigger]
                    char_views(out@).contains(y) <==> next.contains(y) by {
                    if next.contains(y) {
                        if y != xv {
                            let k = choose|k: int| 0 <= k < next.len() && #[trigger] next[k] == y;
                            assert(prev[k] == y);
                        }
                    }
                    if char_views(out@).contains(y) {
                        let k = choose|k: int| 0 <= k < ov.len() && #[trigger] ov[k] == y;
                        assert(prev.contains(y));
                        let m = choose|m: int| 0 <= m < prev.len() && #[trigger] prev[m] == y;
                        assert(next[m] == y);
                    }
                }
            }
        } else {
            let ghost old_out = out@;
            out.insert(p, x.clone());
            proof {
                let nv = char_views(out@);
                assert(nv =~= ov.insert(p as int, xv));
                assert forall|j: int, k: int| 0 <= j < k < nv.len() implies lex_lt(
                    #[trigger] nv[j],
                    #[trigger] nv[k],
                ) by {
                    if k < p {
                        assert(nv[j] == ov[j] && nv[k] == ov[k]);
                    } else if k == p {
                        assert(nv[j] == ov[j]);
                    } else if j < p {
                        assert(nv[j] == ov[j] && nv[k] == ov[k - 1]);
                        assert(lex_lt(ov[j], xv));
                        if k - 1 > p {
                            assert(lex_lt(ov[p as int], ov[k - 1]));
                            lemma_lex_transitive(xv, ov[p as int], ov[k - 1]);
                        }
                        lemma_lex_transitive(ov[j], xv, ov[k - 1]);
                    } else if j == p {
                        assert(nv[k] == ov[k - 1]);
                        if k - 1 > p {
                            assert(lex_lt(ov[p as int], ov[k - 1]));
                            lemma_lex_transitive(xv, ov[p as int], ov[k - 1]);
                        }
                    } else {
                        assert(nv[j] == ov[j - 1] && nv[k] == ov[k - 1]);
                    }
                }
                assert forall|y: Seq<char>| #[trigger]
                    nv.contains(y) <==> next.contains(y) by {
                    if nv.contains(y) && y != xv {
                        let k = choose|k: int| 0 <= k < nv.len() && #[trigger] nv[k] == y;
                        if k < p {
                            assert(ov[k] == y);
                        } else {
                            assert(ov[k - 1] == y);
                        }
                        assert(ov.contains(y));
                        let m = choose|m: int| 0 <= m < prev.len() && #[trigger] prev[m] == y;
                        assert(next[m] == y);
                    }
                    if nv.contains(y) && y == xv {
                        assert(next[i as int] == y);
                    }
                    if next.contains(y) {
                        if y == xv {
                            assert(nv[p as int] == y);
                        } else {
                            let k = choose|k: int| 0 <= k < next.len() && #[trigger] next[k] == y;
                            assert(prev[k] == y);
                            assert(ov.contains(y));
                            let m = choose|m: int| 0 <= m < ov.len() && #[trigger] ov[m] == y;
                            if m < p {
                                assert(nv[m] == y);
                            } else {
                                assert(nv[m + 1] == y);
                            }
                        }
                    }
                }
            }
        }
        i += 1;
    }
    assert(lines@.take(lines@.len() as int) =~= lines@);
    out
}

} // verus!

verus! {

/// The pages of the listing: each line goes on the current page after a
/// line break, unless the page, the line break and the line together exceed
/// `budget`
/// characters; then it starts a new page.
pub open spec fn paginate(lines: Seq<Seq<char>>, budget: nat) -> Seq<Seq<char>>
    decreases lines.len(),
{
    if lines.len() == 0 {
        seq![seq![]]
    } else {
        let prev = paginate(lines.drop_last(), budget);
        let m = lines.last();
        let pages = if prev.last().len() + 1 + m.len() > budget {
            prev.push(seq![])
        } else {
            prev
        };
        pages.update(pages.len() - 1, pages.last() + seq!['\n'] + m)
    }
}

/// The characters of all lines, each with its line break.
pub open spec fn total_length(lines: Seq<Seq<char>>) -> nat
    decreases lines.len(),
{
    if lines.len() == 0 {
        0
    } else {
        total_length(lines.drop_last()) + 1 + lines.last().len()
    }
}

proof fn lemma_paginate_len(lines: Seq<Seq<char>>, budget: nat)
    ensures
        paginate(lines, budget).len() >= 1,
        lines.len() > 0 ==> paginate(lines, budget).len() >= paginate(
            lines.drop_last(),
            budget,
        ).len(),
    decreases lines.len(),
{
    if lines.len() > 0 {
        lemma_paginate_len(lines.drop_last(), budget);
    }
}

proof fn lemma_one_page(lines: Seq<Seq<char>>, budget: nat)
    requires
        paginate(lines, budget).len() == 1,
    ensures
        paginate(lines, budget)[0].len() == total_length(lines),
        lines.len() > 0 ==> total_length(lines) <= budget,
    decreases lines.len(),
{
    if lines.len() > 0 {
        lemma_paginate_len(lines, budget);
        lemma_paginate_len(lines.drop_last(), budget);
        lemma_one_page(lines.drop_last(), budget);
    }
}

/// A listing whose lines, each with its line break, come to more than the
/// budget is split into more than one page.
pub proof fn lemma_long_listing_splits(lines: Seq<Seq<char>>, budget: nat)
    requires
        total_length(lines) > budget,
    ensures
        paginate(lines, budget).len() >= 2,
{
    lemma_paginate_len(lines, budget);
    if paginate(lines, budget).len() == 1 {
        lemma_one_page(lines, budget);
        if lines.len() == 0 {
            assert(total_length(lines) == 0);
        }
    }
}

/// Where every line fits the budget together with its line break, every page
/// holds at most `budget` characters.
pub proof fn lemma_pages_fit(lines: Seq<Seq<char>>, budget: nat)
    requires
        forall|k: int| 0 <= k < lines.len() ==> (#[trigger] lines[k]).len() < budget,
    ensures
        forall|p: int|
            0 <= p < paginate(lines, budget).len() ==> (#[trigger] paginate(lines, budget)[p]).len()
                <= budget,
    decreases lines.len(),
{
    if lines.len() > 0 {
        assert forall|k: int| 0 <= k < lines.drop_last().len() implies (
        #[trigger] lines.drop_last()[k]).len() < budget by {
            assert(lines.drop_last()[k] == lines[k]);
        }
        lemma_pages_fit(lines.drop_last(), budget);
        lemma_paginate_len(lines.drop_last(), budget);
        assert(lines.last() == lines[lines.len() - 1]);
    }
}

/// Packs the lines into pages (see `paginate`).
pub fn pages_of(lines: &Vec<Vec<char>>, budget: usize) -> (r: Vec<String>)
    ensures
        views(r@) == paginate(char_views(lines@), budget as nat),
{
    let mut done: Vec<String> = Vec::new();
    let mut cur: Vec<char> = Vec::new();
    let mut i: usize = 0;
    while i < lines.len()
        invariant
            i <= lines@.len(),
            views(done@).push(cur@) == paginate(char_views(lines@.take(i as int)), budget as nat),
        decreases lines@.len() - i,
    {
        let m = &lines[i];
        let ghost prev = paginate(char_views(lines@.take(i as int)), budget as nat);
        assert(char_views(lines@.take(i + 1)).drop_last() =~= char_views(lines@.take(i as int)));
        assert(char_views(lines@.take(i + 1)).last() == m@);
        if m.len() >= budget || cur.len() > budget - m.len() - 1 {
            let ghost before = views(done@);
            done.push(string_of(cur.as_slice()));
            cur = Vec::new();
            assert(views(done@) =~= before.push(prev.last()));
            assert(views(done@).push(cur@) =~= prev.push(seq![]));
        }
        let ghost pages = views(done@).push(cur@);
        let ghost old_cur = cur@;
        cur.push('\n');
        append_chars(&mut cur, m.as_slice());
        assert(cur@ =~= old_cur + seq!['\n'] + m@);
        assert(pages.last() == old_cur);
        assert(views(done@).push(cur@) =~= pages.update(pages.len() - 1, pages.last() + seq!['\n'] + m@));
        i += 1;
    }
    assert(lines@.take(lines@.len() as int) =~= lines@);
    let ghost before = views(done@);
    done.push(string_of(cur.as_slice()));
    assert(views(done@) =~= before.push(cur@));
    done
}

/// The lines describing the rules, in rule order.
pub open spec fn descriptions(rules: Seq<Action>) -> Seq<Seq<char>> {
    rules.map_values(|a: Action| describe(a))
}

/// The pages of the trigger listing of `actions`: the rule descriptions,
/// sorted and each once, packed into pages of `PAGE_BUDGET` characters.
pub fn init_list(actions: &ActionList) -> (r: Vec<String>)
    ensures
        r@.len() >= 1,
        exists|sorted: Seq<Seq<char>>|
            sorted_set_of(sorted, descriptions(actions.0@)) && views(r@) == paginate(
                sorted,
                PAGE_BUDGET as nat,
            ),
{
    let mut lines: Vec<Vec<char>> = Vec::new();
    let mut k: usize = 0;
    while k < actions.0.len()
        invariant
            k <= actions.0@.len(),
            char_views(lines@) == descriptions(actions.0@.take(k as int)),
        decreases actions.0@.len() - k,
    {
        let d = describe_action(&actions.0[k]);
        let ghost before = char_views(lines@);
        lines.push(d);
        assert(char_views(lines@) =~= before.push(d@));
        assert(descriptions(actions.0@.take(k + 1)) =~= descriptions(actions.0@.take(k as int)).push(
            describe(actions.0@[k as int]),
        ));
        k += 1;
    }
    assert(actions.0@.take(actions.0@.len() as int) =~= actions.0@);
    let sorted = sort_unique(lines);
    let r = pages_of(&sorted, PAGE_BUDGET);
    proof {
        lemma_paginate_len(char_views(sorted@), PAGE_BUDGET as nat);
        assert(views(r@).len() == r@.len());
    }
    r
}

} // verus!
