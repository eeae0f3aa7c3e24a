//! Inline ignore directives: `foxguard: ignore` and `foxguard-ignore`,
//! optionally followed by a bracketed list of rule ids, in a comment.

use vstd::prelude::*;

use std::collections::HashMap;

use crate::finding::{findings_view, Finding, FindingView, Language};
use crate::text::{
    all_ws, all_ws_range, chars_of, lines, lines_of, contains_char, copy_range, first_from, find_from, find_from_exec, first_from_exec, is_white_space, is_white_space_char,
    lemma_first_from_bounds, occurs_at, split_char, split_from, str_eq, string_from, trim,
    trim_bounds,
};
use vstd::seq_lib::seq_to_set_distributes_over_add;

verus! {

broadcast use vstd::seq_lib::group_seq_properties;

/// Which rules an inline directive silences.
pub struct InlineIgnoreSpec {
    pub all_rules: bool,
    pub rule_ids: Vec<String>,
}

/// What an `InlineIgnoreSpec` means: every rule, or the rules of a set of ids.
#[verifier::ext_equal]
pub struct IgnoreView {
    pub all_rules: bool,
    pub rule_ids: Set<Seq<char>>,
}

impl View for InlineIgnoreSpec {
    type V = IgnoreView;

    open spec fn view(&self) -> IgnoreView {
        IgnoreView {
            all_rules: self.all_rules,
            rule_ids: self.rule_ids@.map_values(|s: String| s@).to_set(),
        }
    }
}

/// Whether a directive silences the rule `rule_id`.
pub open spec fn ignore_matches(v: IgnoreView, rule_id: Seq<char>) -> bool {
    v.all_rules || v.rule_ids.contains(rule_id)
}

/// Two directives on the same line act together.
pub open spec fn merge_views(a: IgnoreView, b: IgnoreView) -> IgnoreView {
    IgnoreView { all_rules: a.all_rules || b.all_rules, rule_ids: a.rule_ids.union(b.rule_ids) }
}

/// The directive that silences every rule.
pub open spec fn all_rules_view() -> IgnoreView {
    IgnoreView { all_rules: true, rule_ids: Set::empty() }
}

impl Default for InlineIgnoreSpec {
    /// A directive that silences nothing.
    fn default() -> (r: Self)
        ensures
            r@ == (IgnoreView { all_rules: false, rule_ids: Set::empty() }),
            r.wf(),
    {
        let r = InlineIgnoreSpec { all_rules: false, rule_ids: Vec::new() };
        assert(r@.rule_ids =~= Set::empty());
        assert(r.rule_ids@.map_values(|s: String| s@) =~= Seq::<Seq<char>>::empty());
        r
    }
}

/// The rule ids of `ids` without repeats, the first of each kept in order.
fn unique_ids(ids: Vec<String>) -> (r: Vec<String>)
    ensures
        r@.map_values(|s: String| s@).to_set() == ids@.map_values(|s: String| s@).to_set(),
        r@.map_values(|s: String| s@).no_duplicates(),
{
    let ghost all = ids@.map_values(|s: String| s@);
    let mut out: Vec<String> = Vec::new();
    assert(all.take(0) =~= Seq::<Seq<char>>::empty());
    assert(out@.map_values(|s: String| s@) =~= Seq::<Seq<char>>::empty());
    for id in it: ids
        invariant
            all == it.seq().map_values(|s: String| s@),
            out@.map_values(|s: String| s@).to_set() == all.take(it.index() as int).to_set(),
            out@.map_values(|s: String| s@).no_duplicates(),
    {
        let ghost i = it.index();
        let ghost o = out@.map_values(|s: String| s@);
        assert(id@ == all[i as int]);
        assert(all.take(i + 1) =~= all.take(i as int).push(all[i as int]));
        proof {
            all.take(i as int).lemma_push_to_set_commute(all[i as int]);
        }
        let n = out.len();
        let mut k: usize = 0;
        let mut seen = false;
        while k < n
            invariant
                n == out@.len(),
                o == out@.map_values(|s: String| s@),
                0 <= k <= n,
                seen == exists|q: int| 0 <= q < k && o[q] == id@,
            decreases n - k,
        {
            let same = str_eq(out[k].as_str(), id.as_str());
            assert(o[k as int] == out@[k as int]@);
            if same {
                seen = true;
            }
            k = k + 1;
        }
        if seen {
            proof {
                let q = choose|q: int| 0 <= q < n && o[q] == id@;
                assert(o.contains(id@));
                assert(o.to_set().contains(id@));
                assert(o.to_set().insert(id@) =~= o.to_set());
            }
        } else {
            out.push(id);
            proof {
                assert(out@.map_values(|s: String| s@) =~= o.push(all[i as int]));
                o.lemma_push_to_set_commute(all[i as int]);
                assert forall|a: int, b: int|
                    0 <= a < b < o.len() + 1 implies o.push(all[i as int])[a] != o.push(
                    all[i as int],
                )[b] by {
                    if b == o.len() {
                        assert(o[a] != id@);
                    }
                }
            }
        }
    }
    assert(all.take(all.len() as int) =~= all);
    out
}

impl InlineIgnoreSpec {
    /// No rule id is listed twice.
    pub open spec fn wf(&self) -> bool {
        self.rule_ids@.map_values(|s: String| s@).no_duplicates()
    }

    /// Whether this directive silences the rule `rule_id`.
    pub fn matches(&self, rule_id: &str) -> (r: bool)
        ensures
            r == ignore_matches(self@, rule_id@),
    {
        if self.all_rules {
            return true;
        }
        let n = self.rule_ids.len();
        let mut i: usize = 0;
        while i < n
            invariant
                n == self.rule_ids@.len(),
                0 <= i <= n,
                forall|k: int| 0 <= k < i ==> self.rule_ids@[k]@ != rule_id@,
            decreases n - i,
        {
            if str_eq(self.rule_ids[i].as_str(), rule_id) {
                assert(self.rule_ids@.map_values(|s: String| s@)[i as int] == rule_id@);
                return true;
            }
            i = i + 1;
        }
        proof {
            let ids = self.rule_ids@.map_values(|s: String| s@);
            if ids.to_set().contains(rule_id@) {
                assert(ids.contains(rule_id@));
                let k = choose|k: int| 0 <= k < ids.len() && ids[k] == rule_id@;
                assert(self.rule_ids@[k]@ == rule_id@);
            }
        }
        false
    }

    /// Adds what `other` silences to what this directive silences, listing
    /// each rule id once.
    pub fn merge(&mut self, other: Self)
        ensures
            final(self)@ == merge_views(old(self)@, other@),
            final(self).wf(),
    {
        let mut other = other;
        let ghost a = self.rule_ids@;
        let ghost b = other.rule_ids@;
        self.all_rules = self.all_rules || other.all_rules;
        let mut ids: Vec<String> = Vec::new();
        std::mem::swap(&mut ids, &mut self.rule_ids);
        ids.append(&mut other.rule_ids);
        proof {
            assert(ids@.map_values(|s: String| s@) =~= a.map_values(|s: String| s@)
                + b.map_values(|s: String| s@));
            seq_to_set_distributes_over_add(
                a.map_values(|s: String| s@),
                b.map_values(|s: String| s@),
            );
        }
        self.rule_ids = unique_ids(ids);
    }
}

/// The word that opens every directive.
pub open spec fn foxguard_word() -> Seq<char> {
    seq!['f', 'o', 'x', 'g', 'u', 'a', 'r', 'd']
}

/// The word that closes the directive's keyword.
pub open spec fn ignore_word() -> Seq<char> {
    seq!['i', 'g', 'n', 'o', 'r', 'e']
}

/// A character that may stand between the two words.
pub open spec fn is_separator_char(c: char) -> bool {
    is_white_space(c) || c == ':' || c == '-'
}

/// What may stand between `foxguard` and `ignore`: white space, a colon and
/// white space (`\s*:\s*`), or a hyphen and white space (`-\s*`).
pub open spec fn is_separator(s: Seq<char>) -> bool {
    ||| exists|p: int|
        0 <= p < s.len() && s[p] == ':' && all_ws(s.take(p)) && all_ws(#[trigger] s.skip(p + 1))
    ||| (s.len() > 0 && s[0] == '-' && all_ws(s.skip(1)))
}

/// `tail` is a bracketed rule list `[list]` followed by white space, where
/// `list` holds no `]`.
pub open spec fn is_rule_list_tail(tail: Seq<char>, list: Seq<char>) -> bool {
    &&& tail.len() >= list.len() + 2
    &&& tail[0] == '['
    &&& tail.subrange(1, list.len() + 1 as int) == list
    &&& !list.contains(']')
    &&& tail[list.len() + 1 as int] == ']'
    &&& all_ws(tail.skip(list.len() + 2 as int))
}

/// What may follow `ignore`: only white space (`Some(None)`), or a
/// bracketed rule list and white space (`Some(Some(list))`).
pub open spec fn directive_tail(tail: Seq<char>) -> Option<Option<Seq<char>>> {
    if all_ws(tail) {
        Some(None)
    } else if exists|list: Seq<char>| is_rule_list_tail(tail, list) {
        Some(Some(choose|list: Seq<char>| is_rule_list_tail(tail, list)))
    } else {
        None
    }
}

/// `t` is a directive whose word `ignore` starts at `k`.
pub open spec fn directive_at(t: Seq<char>, k: int) -> bool {
    &&& 8 <= k && k + 6 <= t.len()
    &&& t.take(8) == foxguard_word()
    &&& is_separator(t.subrange(8, k))
    &&& t.subrange(k, k + 6) == ignore_word()
    &&& directive_tail(t.skip(k + 6)) is Some
}

/// The directive that the comment text `t` spells, if it spells one:
/// `^foxguard(?:\s*:\s*|-\s*)ignore(?:\[([^\]]*)\])?\s*$`. The inner option is
/// the bracketed rule list, when there is one.
pub open spec fn directive(t: Seq<char>) -> Option<Option<Seq<char>>> {
    if exists|k: int| directive_at(t, k) {
        directive_tail(t.skip((choose|k: int| directive_at(t, k)) + 6))
    } else {
        None
    }
}

proof fn lemma_separator_chars(s: Seq<char>)
    requires
        is_separator(s),
    ensures
        forall|j: int| 0 <= j < s.len() ==> is_separator_char(#[trigger] s[j]),
{
    if exists|p: int|
        0 <= p < s.len() && s[p] == ':' && all_ws(s.take(p)) && all_ws(#[trigger] s.skip(p + 1)) {
        let p = choose|p: int|
            0 <= p < s.len() && s[p] == ':' && all_ws(s.take(p)) && all_ws(
                #[trigger] s.skip(p + 1),
            );
        assert forall|j: int| 0 <= j < s.len() implies is_separator_char(#[trigger] s[j]) by {
            if j < p {
                assert(s.take(p)[j] == s[j]);
            } else if j > p {
                assert(s.skip(p + 1)[j - p - 1] == s[j]);
            }
        }
    } else {
        assert forall|j: int| 0 <= j < s.len() implies is_separator_char(#[trigger] s[j]) by {
            if j > 0 {
                assert(s.skip(1)[j - 1] == s[j]);
            }
        }
    }
}

/// The word `ignore` of a directive starts at the first character after
/// `foxguard` that cannot belong to a separator.
proof fn lemma_directive_start(t: Seq<char>, k: int, e: int)
    requires
        directive_at(t, k),
        8 <= e <= t.len(),
        forall|j: int| 8 <= j < e ==> is_separator_char(#[trigger] t[j]),
        e < t.len() ==> !is_separator_char(t[e]),
    ensures
        k == e,
{
    assert(t.subrange(k, k + 6)[0] == t[k]);
    assert(t[k] == 'i');
    lemma_separator_chars(t.subrange(8, k));
    if e < k {
        assert(t.subrange(8, k)[e - 8] == t[e]);
    }
}

proof fn lemma_first_from_is(s: Seq<char>, c: char, i: int, j: int)
    requires
        0 <= i <= j < s.len(),
        s[j] == c,
        forall|k: int| i <= k < j ==> s[k] != c,
    ensures
        first_from(s, c, i) == j,
    decreases j - i,
{
    if i < j {
        lemma_first_from_is(s, c, i + 1, j);
    }
}

proof fn lemma_rule_list_unique(tail: Seq<char>, l1: Seq<char>, l2: Seq<char>)
    requires
        is_rule_list_tail(tail, l1),
        is_rule_list_tail(tail, l2),
    ensures
        l1 == l2,
{
    if l1.len() < l2.len() {
        assert(l2[l1.len() as int] == tail[l1.len() + 1 as int]);
        assert(l2.contains(']'));
    } else if l2.len() < l1.len() {
        assert(l1[l2.len() as int] == tail[l2.len() + 1 as int]);
        assert(l1.contains(']'));
    }
}

/// Whether `c` may belong to the separator between the two words.
fn separator_char(c: char) -> (r: bool)
    ensures
        r == is_separator_char(c),
{
    is_white_space_char(c) || c == ':' || c == '-'
}

/// The colon form of a separator (`\s*:\s*`) is read past its leading white
/// space: it holds exactly when the first other character, at `a`, is the
/// colon and only white space follows it.
proof fn lemma_colon_form(t: Seq<char>, lo: int, a: int, hi: int)
    requires
        0 <= lo <= a <= hi <= t.len(),
        forall|j: int| lo <= j < a ==> is_white_space(#[trigger] t[j]),
        a < hi ==> !is_white_space(t[a]),
    ensures
        (exists|p: int|
            0 <= p < t.subrange(lo, hi).len() && t.subrange(lo, hi)[p] == ':' && all_ws(
                t.subrange(lo, hi).take(p),
            ) && all_ws(#[trigger] t.subrange(lo, hi).skip(p + 1))) <==> (a < hi && t[a] == ':'
            && all_ws(t.subrange(a + 1, hi))),
{
    let s = t.subrange(lo, hi);
    if a < hi && t[a] == ':' && all_ws(t.subrange(a + 1, hi)) {
        let p = a - lo;
        assert(s.take(p) =~= t.subrange(lo, a));
        assert(s.skip(p + 1) =~= t.subrange(a + 1, hi));
        assert(s[p] == ':');
    }
    if exists|p: int|
        0 <= p < s.len() && s[p] == ':' && all_ws(s.take(p)) && all_ws(#[trigger] s.skip(p + 1)) {
        let p = choose|p: int|
            0 <= p < s.len() && s[p] == ':' && all_ws(s.take(p)) && all_ws(
                #[trigger] s.skip(p + 1),
            );
        if lo + p < a {
            assert(s[p] == t[lo + p]);
            assert(is_white_space(t[lo + p]));
        } else if lo + p > a {
            assert(s.take(p)[a - lo] == t[a]);
        } else {
            assert(s.skip(p + 1) =~= t.subrange(a + 1, hi));
        }
    }
}

/// Whether `t[lo..hi]` is a separator.
fn separator_ok(t: &[char], lo: usize, hi: usize) -> (r: bool)
    requires
        lo <= hi <= t@.len(),
    ensures
        r == is_separator(t@.subrange(lo as int, hi as int)),
{
    let ghost s = t@.subrange(lo as int, hi as int);
    let mut a = lo;
    while a < hi && is_white_space_char(t[a])
        invariant
            lo <= a <= hi <= t@.len(),
            forall|j: int| lo <= j < a ==> is_white_space(#[trigger] t@[j]),
        decreases hi - a,
    {
        a = a + 1;
    }
    let colon = a < hi && t[a] == ':' && all_ws_range(t, a + 1, hi);
    let hyphen = hi > lo && t[lo] == '-' && all_ws_range(t, lo + 1, hi);
    proof {
        lemma_colon_form(t@, lo as int, a as int, hi as int);
        if hi > lo {
            assert(s.skip(1) =~= t@.subrange(lo + 1, hi as int));
            assert(s[0] == t@[lo as int]);
        }
    }
    colon || hyphen
}

/// Reads what follows `ignore` in a comment text: `t[p..]`.
#[verifier::rlimit(60)]
fn parse_tail(t: &[char], p: usize) -> (r: Option<(bool, usize, usize)>)
    requires
        p <= t@.len(),
    ensures
        match r {
            None => directive_tail(t@.skip(p as int)) is None,
            Some((false, _, _)) => directive_tail(t@.skip(p as int)) == Some(None::<Seq<char>>),
            Some((true, a, b)) => a <= b <= t@.len() && directive_tail(t@.skip(p as int)) == Some(
                Some(t@.subrange(a as int, b as int)),
            ),
        },
{
    let n = t.len();
    let ghost tail = t@.skip(p as int);
    assert(tail =~= t@.subrange(p as int, n as int));
    if all_ws_range(t, p, n) {
        return Some((false, 0, 0));
    }
    if t[p] != '[' {
        proof {
            if exists|list: Seq<char>| is_rule_list_tail(tail, list) {
                assert(tail[0] == t@[p as int]);
            }
        }
        return None;
    }
    let q = first_from_exec(t, ']', p + 1);
    proof {
        lemma_first_from_bounds(t@, ']', p + 1);
        if exists|list: Seq<char>| is_rule_list_tail(tail, list) {
            let list = choose|list: Seq<char>| is_rule_list_tail(tail, list);
            assert forall|k: int| p + 1 <= k < p + 1 + list.len() implies t@[k] != ']' by {
                assert(tail.subrange(1, list.len() + 1 as int)[k - p - 1] == t@[k]);
            }
            assert(tail[list.len() + 1 as int] == t@[p + 1 + list.len()]);
            lemma_first_from_is(t@, ']', p + 1, p + 1 + list.len());
            assert(tail.skip(list.len() + 2 as int) =~= t@.subrange(q + 1, n as int));
        }
    }
    if q >= n || !all_ws_range(t, q + 1, n) {
        return None;
    }
    proof {
        let list = t@.subrange(p + 1, q as int);
        assert(tail.subrange(1, list.len() + 1 as int) =~= list);
        assert(tail.skip(list.len() + 2 as int) =~= t@.subrange(q + 1, n as int));
        if list.contains(']') {
            let k = choose|k: int| 0 <= k < list.len() && list[k] == ']';
            assert(t@[p + 1 + k] == ']');
        }
        assert(is_rule_list_tail(tail, list));
        let chosen = choose|l: Seq<char>| is_rule_list_tail(tail, l);
        lemma_rule_list_unique(tail, list, chosen);
    }
    Some((true, p + 1, q))
}

/// Reads the directive that the comment text `t` spells, if any. A result
/// `Some((true, a, b))` means the directive names the rule list `t[a..b]`;
/// `Some((false, _, _))` means it names no list.
pub fn parse_directive(t: &[char]) -> (r: Option<(bool, usize, usize)>)
    ensures
        match r {
            None => directive(t@) is None,
            Some((false, _, _)) => directive(t@) == Some(None::<Seq<char>>),
            Some((true, a, b)) => a <= b <= t@.len() && directive(t@) == Some(
                Some(t@.subrange(a as int, b as int)),
            ),
        },
{
    let n = t.len();
    let fox: Vec<char> = vec!['f', 'o', 'x', 'g', 'u', 'a', 'r', 'd'];
    let ign: Vec<char> = vec!['i', 'g', 'n', 'o', 'r', 'e'];
    assert(fox@ =~= foxguard_word());
    assert(ign@ =~= ignore_word());
    assert(t@.take(8) =~= t@.subrange(0, 8));
    if !occurs_at(t, fox.as_slice(), 0) {
        return None;
    }
    let mut e: usize = 8;
    while e < n && separator_char(t[e])
        invariant
            8 <= e <= n,
            n == t@.len(),
            forall|j: int| 8 <= j < e ==> is_separator_char(#[trigger] t@[j]),
        decreases n - e,
    {
        e = e + 1;
    }
    proof {
        if exists|k: int| directive_at(t@, k) {
            let k = choose|k: int| directive_at(t@, k);
            lemma_directive_start(t@, k, e as int);
        }
    }
    if !separator_ok(t, 8, e) || !occurs_at(t, ign.as_slice(), e) {
        return None;
    }
    let r = parse_tail(t, e + 6);
    if r.is_some() {
        assert(directive_at(t@, e as int));
    }
    r
}

/// The non-empty trimmed texts among `pieces`, in order.
pub open spec fn nonempty_trimmed(pieces: Seq<Seq<char>>) -> Seq<Seq<char>>
    decreases pieces.len(),
{
    if pieces.len() == 0 {
        seq![]
    } else {
        let first = trim(pieces[0]);
        let rest = nonempty_trimmed(pieces.drop_first());
        if first.len() > 0 {
            seq![first] + rest
        } else {
            rest
        }
    }
}

/// The rule ids that a bracketed rule list names: its comma-separated
/// pieces, trimmed, without the empty ones.
pub open spec fn rule_list(list: Seq<char>) -> Seq<Seq<char>> {
    nonempty_trimmed(split_char(trim(list), ','))
}

/// What a directive silences, given its bracketed rule list if it has one:
/// every rule when there is no list or the list names no rule.
pub open spec fn ignore_spec_of(captured: Option<Seq<char>>) -> IgnoreView {
    match captured {
        None => all_rules_view(),
        Some(list) => if rule_list(list).len() == 0 {
            all_rules_view()
        } else {
            IgnoreView { all_rules: false, rule_ids: rule_list(list).to_set() }
        },
    }
}

/// The directive that silences what the bracketed list `t[lo..hi]` names,
/// or every rule when `list` is `None`.
pub fn build_ignore_spec(t: &[char], list: Option<(usize, usize)>) -> (r: InlineIgnoreSpec)
    requires
        list matches Some((lo, hi)) ==> lo <= hi <= t@.len(),
    ensures
        r@ == ignore_spec_of(
            match list {
                Some((lo, hi)) => Some(t@.subrange(lo as int, hi as int)),
                None => None,
            },
        ),
        r.wf(),
{
    let (lo, hi) = match list {
        None => {
            let r = InlineIgnoreSpec { all_rules: true, rule_ids: Vec::new() };
            assert(r@.rule_ids =~= Set::empty());
            assert(r.rule_ids@.map_values(|s: String| s@) =~= Seq::<Seq<char>>::empty());
            return r;
        },
        Some(range) => range,
    };
    let (a, b) = trim_bounds(t, lo, hi);
    let mut r: Vec<char> = Vec::new();
    let mut k = a;
    while k < b
        invariant
            a <= k <= b <= t@.len(),
            r@ == t@.subrange(a as int, k as int),
        decreases b - k,
    {
        r.push(t[k]);
        assert(t@.subrange(a as int, k + 1) =~= t@.subrange(a as int, k as int).push(t@[k as int]));
        k = k + 1;
    }
    let n = r.len();
    let ghost whole = rule_list(t@.subrange(lo as int, hi as int));
    assert(whole == nonempty_trimmed(split_from(r@, ',', 0)));
    let mut ids: Vec<String> = Vec::new();
    let mut i: usize = 0;
    loop
        invariant_except_break
            n == r@.len(),
            0 <= i <= n,
            ids@.map_values(|s: String| s@) + nonempty_trimmed(split_from(r@, ',', i as int))
                == whole,
        ensures
            ids@.map_values(|s: String| s@) == whole,
        decreases n - i,
    {
        let j = first_from_exec(r.as_slice(), ',', i);
        let end = if j < n {
            j
        } else {
            n
        };
        let (x, y) = trim_bounds(r.as_slice(), i, end);
        let ghost before = ids@.map_values(|s: String| s@);
        let ghost piece = r@.subrange(i as int, end as int);
        let ghost rest = if j < n {
            split_from(r@, ',', j + 1)
        } else {
            seq![]
        };
        assert(split_from(r@, ',', i as int) =~= seq![piece] + rest);
        assert((seq![piece] + rest).drop_first() =~= rest);
        if x < y {
            ids.push(string_from(r.as_slice(), x, y));
            assert(ids@.map_values(|s: String| s@) =~= before + seq![trim(piece)]);
        }
        if j >= n {
            assert(nonempty_trimmed(rest) =~= seq![]);
            assert(ids@.map_values(|s: String| s@) =~= whole);
            break;
        }
        i = j + 1;
    }
    if ids.len() == 0 {
        let r = InlineIgnoreSpec { all_rules: true, rule_ids: ids };
        assert(r@.rule_ids =~= Set::empty());
        assert(r.rule_ids@.map_values(|s: String| s@) =~= Seq::<Seq<char>>::empty());
        r
    } else {
        InlineIgnoreSpec { all_rules: false, rule_ids: unique_ids(ids) }
    }
}

/// The comment markers of a language, in the order the scan tries them.
pub open spec fn comment_markers_spec(language: Language) -> Seq<Seq<char>> {
    match language {
        Language::Python | Language::Ruby => seq![seq!['#']],
        Language::Php => seq![seq!['/', '/'], seq!['#']],
        _ => seq![seq!['/', '/']],
    }
}

/// The comment markers of a language.
pub fn comment_markers(language: Language) -> (r: Vec<Vec<char>>)
    ensures
        r@.map_values(|m: Vec<char>| m@) == comment_markers_spec(language),
{
    match language {
        Language::Python | Language::Ruby => {
            let r = vec![vec!['#']];
            assert(r@[0]@ =~= seq!['#']);
            assert(r@.map_values(|m: Vec<char>| m@) =~= comment_markers_spec(language));
            r
        },
        Language::Php => {
            let r = vec![vec!['/', '/'], vec!['#']];
            assert(r@[0]@ =~= seq!['/', '/']);
            assert(r@[1]@ =~= seq!['#']);
            assert(r@.map_values(|m: Vec<char>| m@) =~= comment_markers_spec(language));
            r
        },
        _ => {
            let r = vec![vec!['/', '/']];
            assert(r@[0]@ =~= seq!['/', '/']);
            assert(r@.map_values(|m: Vec<char>| m@) =~= comment_markers_spec(language));
            r
        },
    }
}

/// The positions where `m` occurs in `s` from `start` on, found left to
/// right without overlap, as repeated `str::find` calls find them.
pub open spec fn occurrences(s: Seq<char>, m: Seq<char>, start: int) -> Seq<int>
    decreases s.len() + 1 - start,
{
    if m.len() == 0 || start < 0 || start > s.len() {
        seq![]
    } else {
        match find_from(s, m, start) {
            Some(i) => if i >= start && i + m.len() <= s.len() {
                seq![i] + occurrences(s, m, i + m.len())
            } else {
                seq![]
            },
            None => seq![],
        }
    }
}

/// Position `p` of `line` starts the `j`-th comment marker of `language`.
pub open spec fn marker_at(line: Seq<char>, language: Language, j: int, p: int) -> bool {
    0 <= j < comment_markers_spec(language).len() && occurrences(
        line,
        comment_markers_spec(language)[j],
        0,
    ).contains(p)
}

/// The length of the comment marker that starts at `p`, or 0.
pub open spec fn marker_len_at(line: Seq<char>, language: Language, p: int) -> int {
    if exists|j: int| marker_at(line, language, j, p) {
        comment_markers_spec(language)[choose|j: int| marker_at(line, language, j, p)].len() as int
    } else {
        0
    }
}

/// What the comment text `text` silences, if it is a directive.
pub open spec fn comment_directive(text: Seq<char>) -> Option<IgnoreView> {
    match directive(trim(text)) {
        Some(captured) => Some(ignore_spec_of(captured)),
        None => None,
    }
}

/// The directive in the comment that starts at position `p` behind a
/// comment marker, with whether only white space precedes the marker.
pub open spec fn marker_result(line: Seq<char>, language: Language, p: int) -> Option<
    (bool, IgnoreView),
> {
    let len = marker_len_at(line, language, p);
    if len > 0 {
        match comment_directive(line.skip(p + len)) {
            Some(v) => Some((all_ws(line.take(p)), v)),
            None => None,
        }
    } else {
        None
    }
}

/// The first directive behind a comment marker at or after `p`.
pub open spec fn marker_scan(line: Seq<char>, language: Language, p: int) -> Option<
    (bool, IgnoreView),
>
    decreases line.len() - p,
{
    if p < 0 || p >= line.len() {
        None
    } else {
        match marker_result(line, language, p) {
            Some(r) => Some(r),
            None => marker_scan(line, language, p + 1),
        }
    }
}

/// The position of the `*/` that closes a block comment opened by `/*` at
/// `i`, as `/\*(.*?)\*/` matches it: the first `*/` after the opening, with
/// no line feed before it.
pub open spec fn block_close(line: Seq<char>, i: int) -> Option<int> {
    if 0 <= i && i + 2 <= line.len() && line[i] == '/' && line[i + 1] == '*' {
        match find_from(line, seq!['*', '/'], i + 2) {
            Some(j) => if i + 2 <= j && j + 2 <= line.len() && !line.subrange(i + 2, j).contains(
                '\n',
            ) {
                Some(j)
            } else {
                None
            },
            None => None,
        }
    } else {
        None
    }
}

/// The first directive in a block comment found at or after `s`, scanning
/// the block comments left to right without overlap.
pub open spec fn block_scan(line: Seq<char>, s: int) -> Option<(bool, IgnoreView)>
    decreases line.len() - s,
{
    if s < 0 || s >= line.len() {
        None
    } else {
        match block_close(line, s) {
            Some(j) => if s + 2 <= j && j + 2 <= line.len() {
                match comment_directive(line.subrange(s + 2, j)) {
                    Some(v) => Some((all_ws(line.take(s)), v)),
                    None => block_scan(line, j + 2),
                }
            } else {
                None
            },
            None => block_scan(line, s + 1),
        }
    }
}

/// The directive of a line: the first one behind a line-comment marker,
/// else the first one in a block comment. The flag tells whether nothing
/// but white space precedes the comment.
pub open spec fn inline_ignore_of(line: Seq<char>, language: Language) -> Option<
    (bool, IgnoreView),
> {
    match marker_scan(line, language, 0) {
        Some(r) => Some(r),
        None => block_scan(line, 0),
    }
}

/// The meaning of a parsed directive.
pub open spec fn parsed_view(r: Option<(bool, InlineIgnoreSpec)>) -> Option<(bool, IgnoreView)> {
    match r {
        Some((b, spec)) => Some((b, spec@)),
        None => None,
    }
}

proof fn lemma_markers_nonempty(language: Language, j: int)
    requires
        0 <= j < comment_markers_spec(language).len(),
    ensures
        comment_markers_spec(language)[j].len() > 0,
{
}

proof fn lemma_occurrence_matches(s: Seq<char>, m: Seq<char>, start: int, p: int)
    requires
        occurrences(s, m, start).contains(p),
    ensures
        0 <= p && p + m.len() <= s.len() && s.subrange(p, p + m.len()) == m,
    decreases s.len() + 1 - start,
{
    lemma_find_from(s, m, start);
    let i = find_from(s, m, start)->0;
    if p != i {
        assert(occurrences(s, m, start) =~= seq![i] + occurrences(s, m, i + m.len()));
        assert(occurrences(s, m, i + m.len()).contains(p));
        lemma_occurrence_matches(s, m, i + m.len(), p);
    }
}

proof fn lemma_find_from(s: Seq<char>, m: Seq<char>, start: int)
    ensures
        find_from(s, m, start) matches Some(i) ==> start <= i && i + m.len() <= s.len()
            && s.subrange(i, i + m.len()) == m,
    decreases s.len() + 1 - start,
{
    if !(start < 0 || start + m.len() > s.len()) && s.subrange(start, start + m.len()) != m {
        lemma_find_from(s, m, start + 1);
    }
}

/// The positions where the marker `m` occurs in `line`.
fn marker_positions(line: &[char], m: &[char]) -> (r: Vec<usize>)
    requires
        m@.len() > 0,
    ensures
        r@.map_values(|p: usize| p as int) == occurrences(line@, m@, 0),
{
    let mut out: Vec<usize> = Vec::new();
    let mut start: usize = 0;
    let ml = m.len();
    let ll = line.len();
    loop
        invariant_except_break
            m@.len() > 0,
            ml == m@.len(),
            ll == line@.len(),
            start <= line@.len(),
            out@.map_values(|p: usize| p as int) + occurrences(line@, m@, start as int)
                == occurrences(line@, m@, 0),
        ensures
            out@.map_values(|p: usize| p as int) == occurrences(line@, m@, 0),
        decreases line@.len() + 1 - start,
    {
        let ghost before = out@.map_values(|p: usize| p as int);
        match find_from_exec(line, m, start) {
            None => {
                assert(before + seq![] =~= before);
                break;
            },
            Some(i) => {
                proof {
                    lemma_find_from(line@, m@, start as int);
                }
                assert(i + m@.len() <= line@.len());
                assert(occurrences(line@, m@, start as int) =~= seq![i as int] + occurrences(
                    line@,
                    m@,
                    i + m@.len(),
                ));
                out.push(i);
                assert(out@.map_values(|p: usize| p as int) =~= before + seq![i as int]);
                start = i + ml;
            },
        }
    }
    out
}

/// For each position of `line`, the length of the comment marker that
/// starts there, or 0.
fn marker_table(line: &[char], language: Language) -> (r: Vec<usize>)
    ensures
        r@.len() == line@.len(),
        forall|p: int| 0 <= p < line@.len() ==> r@[p] == marker_len_at(line@, language, p),
{
    let markers = comment_markers(language);
    let ghost ms = comment_markers_spec(language);
    let n = line.len();
    let mut table: Vec<usize> = Vec::new();
    let mut k: usize = 0;
    while k < n
        invariant
            k <= n,
            table@.len() == k,
            forall|p: int| 0 <= p < k ==> table@[p] == 0,
        decreases n - k,
    {
        table.push(0);
        k = k + 1;
    }
    proof {
        assert forall|j1: int, j2: int, p: int|
            marker_at(line@, language, j1, p) && marker_at(line@, language, j2, p) implies j1
            == j2 by {
            lemma_occurrence_matches(line@, ms[j1], 0, p);
            lemma_occurrence_matches(line@, ms[j2], 0, p);
            assert(line@.subrange(p, p + ms[j1].len())[0] == line@[p]);
            assert(line@.subrange(p, p + ms[j2].len())[0] == line@[p]);
        }
    }
    let mut j: usize = 0;
    while j < markers.len()
        invariant
            markers@.map_values(|m: Vec<char>| m@) == ms,
            ms == comment_markers_spec(language),
            0 <= j <= markers@.len(),
            table@.len() == n,
            n == line@.len(),
            forall|j1: int, j2: int, p: int|
                marker_at(line@, language, j1, p) && marker_at(line@, language, j2, p) ==> j1
                    == j2,
            forall|p: int|
                0 <= p < n ==> table@[p] == (if exists|jj: int|
                    0 <= jj < j && #[trigger] marker_at(line@, language, jj, p) {
                    ms[choose|jj: int| 0 <= jj < j && marker_at(line@, language, jj, p)].len()
                } else {
                    0
                }),
        decreases markers@.len() - j,
    {
        let m = &markers[j];
        assert(m@ == markers@.map_values(|m: Vec<char>| m@)[j as int]);
        proof {
            lemma_markers_nonempty(language, j as int);
        }
        let positions = marker_positions(line, m.as_slice());
        let mut q: usize = 0;
        let ghost old_table = table@;
        while q < positions.len()
            invariant
                markers@.map_values(|m: Vec<char>| m@) == ms,
                ms == comment_markers_spec(language),
                0 <= j < markers@.len(),
                m@ == ms[j as int],
                positions@.map_values(|p: usize| p as int) == occurrences(line@, m@, 0),
                0 <= q <= positions@.len(),
                table@.len() == n,
                n == line@.len(),
                old_table.len() == n,
                forall|p: int|
                    0 <= p < n ==> table@[p] as int == (if exists|k: int|
                        0 <= k < q && #[trigger] positions@[k] == p {
                        m@.len() as int
                    } else {
                        old_table[p] as int
                    }),
            decreases positions@.len() - q,
        {
            let pos = positions[q];
            proof {
                assert(positions@.map_values(|p: usize| p as int)[q as int] == pos as int);
                assert(occurrences(line@, m@, 0).contains(pos as int));
                lemma_occurrence_matches(line@, m@, 0, pos as int);
            }
            table.set(pos, m.len());
            q = q + 1;
        }
        proof {
            assert forall|p: int| 0 <= p < n implies table@[p] == (if exists|jj: int|
                0 <= jj < j + 1 && #[trigger] marker_at(line@, language, jj, p) {
                ms[choose|jj: int| 0 <= jj < j + 1 && marker_at(line@, language, jj, p)].len()
            } else {
                0
            }) by {
                let occ = occurrences(line@, m@, 0);
                if marker_at(line@, language, j as int, p) {
                    assert(occ.contains(p));
                    let k = choose|k: int| 0 <= k < occ.len() && occ[k] == p;
                    assert(positions@[k] as int == occ[k]);
                    let jj = choose|jj: int| 0 <= jj < j + 1 && marker_at(line@, language, jj, p);
                    assert(jj == j);
                } else {
                    if exists|k: int| 0 <= k < positions@.len() && #[trigger] positions@[k] == p {
                        let k = choose|k: int|
                            0 <= k < positions@.len() && #[trigger] positions@[k] == p;
                        assert(occ[k] == positions@[k] as int);
                        assert(occ.contains(p));
                    }
                    if exists|jj: int| 0 <= jj < j + 1 && #[trigger] marker_at(line@, language, jj, p) {
                        let jj = choose|jj: int|
                            0 <= jj < j + 1 && #[trigger] marker_at(line@, language, jj, p);
                        assert(jj < j);
                        assert(exists|jj: int|
                            0 <= jj < j && #[trigger] marker_at(line@, language, jj, p));
                        let j2 = choose|jj: int| 0 <= jj < j && marker_at(line@, language, jj, p);
                        assert(jj == j2);
                    } else {
                        assert(!exists|jj: int|
                            0 <= jj < j && #[trigger] marker_at(line@, language, jj, p));
                    }
                }
            }
        }
        j = j + 1;
    }
    proof {
        assert forall|p: int| 0 <= p < line@.len() implies table@[p] == marker_len_at(
            line@,
            language,
            p,
        ) by {
            if exists|jj: int| #[trigger] marker_at(line@, language, jj, p) {
                let jj = choose|jj: int| #[trigger] marker_at(line@, language, jj, p);
                assert(exists|j2: int|
                    0 <= j2 < markers@.len() && #[trigger] marker_at(line@, language, j2, p));
                let j2 = choose|j2: int|
                    0 <= j2 < markers@.len() && marker_at(line@, language, j2, p);
                assert(jj == j2);
            }
        }
    }
    table
}

proof fn lemma_marker_len_bound(line: Seq<char>, language: Language, p: int)
    requires
        marker_len_at(line, language, p) > 0,
    ensures
        0 <= p && p + marker_len_at(line, language, p) <= line.len(),
{
    let j = choose|j: int| marker_at(line, language, j, p);
    lemma_occurrence_matches(line, comment_markers_spec(language)[j], 0, p);
}

/// What the comment text `t[lo..hi]` silences, if it is a directive.
fn comment_directive_exec(t: &[char], lo: usize, hi: usize) -> (r: Option<InlineIgnoreSpec>)
    requires
        lo <= hi <= t@.len(),
    ensures
        match r {
            Some(spec) => comment_directive(t@.subrange(lo as int, hi as int)) == Some(spec@),
            None => comment_directive(t@.subrange(lo as int, hi as int)) is None,
        },
        r matches Some(spec) ==> spec.wf(),
{
    let (a, b) = trim_bounds(t, lo, hi);
    let c = copy_range(t, a, b);
    match parse_directive(c.as_slice()) {
        None => None,
        Some((false, _, _)) => Some(build_ignore_spec(c.as_slice(), None)),
        Some((true, x, y)) => Some(build_ignore_spec(c.as_slice(), Some((x, y)))),
    }
}

/// The directive of a line given as characters, with whether only white
/// space precedes its comment.
pub fn parse_ignore_chars(line: &[char], language: Language) -> (r: Option<(bool, InlineIgnoreSpec)>)
    ensures
        parsed_view(r) == inline_ignore_of(line@, language),
        r matches Some((_, spec)) ==> spec.wf(),
{
    let n = line.len();
    let table = marker_table(line, language);
    let mut p: usize = 0;
    while p < n
        invariant
            n == line@.len(),
            p <= n,
            table@.len() == n,
            forall|q: int| 0 <= q < n ==> table@[q] == marker_len_at(line@, language, q),
            marker_scan(line@, language, 0) == marker_scan(line@, language, p as int),
        decreases n - p,
    {
        let len = table[p];
        if len > 0 {
            proof {
                lemma_marker_len_bound(line@, language, p as int);
                assert(line@.skip(p + len) =~= line@.subrange(p + len, n as int));
                assert(line@.take(p as int) =~= line@.subrange(0, p as int));
            }
            match comment_directive_exec(line, p + len, n) {
                Some(spec) => {
                    let comment_only = all_ws_range(line, 0, p);
                    return Some((comment_only, spec));
                },
                None => {},
            }
        }
        p = p + 1;
    }
    let mut s: usize = 0;
    while s < n
        invariant
            n == line@.len(),
            s <= n,
            marker_scan(line@, language, 0) is None,
            block_scan(line@, 0) == block_scan(line@, s as int),
        decreases n - s,
    {
        match block_close_exec(line, s) {
            Some(j) => {
                assert(line@.take(s as int) =~= line@.subrange(0, s as int));
                match comment_directive_exec(line, s + 2, j) {
                    Some(spec) => {
                        let comment_only = all_ws_range(line, 0, s);
                        return Some((comment_only, spec));
                    },
                    None => {
                        s = j + 2;
                    },
                }
            },
            None => {
                s = s + 1;
            },
        }
    }
    None
}

/// The position of the `*/` that closes a block comment opened at `s`.
fn block_close_exec(line: &[char], s: usize) -> (r: Option<usize>)
    requires
        s < line@.len(),
    ensures
        match r {
            Some(j) => block_close(line@, s as int) == Some(j as int) && s + 2 <= j && j + 2
                <= line@.len(),
            None => block_close(line@, s as int) is None,
        },
{
    let n = line.len();
    if n - s >= 2 && line[s] == '/' && line[s + 1] == '*' {
        let close: Vec<char> = vec!['*', '/'];
        assert(close@ =~= seq!['*', '/']);
        proof {
            lemma_find_from(line@, seq!['*', '/'], s + 2);
        }
        match find_from_exec(line, close.as_slice(), s + 2) {
            Some(j) => {
                if !contains_char(line, s + 2, j, '\n') {
                    return Some(j);
                }
            },
            None => {},
        }
    }
    None
}

/// The directive of a line, if it holds one, with whether only white space
/// precedes its comment (then it silences the next code line rather than
/// its own).
pub fn parse_inline_ignore(line: &str, language: Language) -> (r: Option<(bool, InlineIgnoreSpec)>)
    ensures
        parsed_view(r) == inline_ignore_of(line@, language),
        r matches Some((_, spec)) ==> spec.wf(),
{
    let chars = chars_of(line);
    parse_ignore_chars(chars.as_slice(), language)
}

/// `s` begins with `m`.
pub open spec fn starts_with(s: Seq<char>, m: Seq<char>) -> bool {
    m.len() <= s.len() && s.take(m.len() as int) == m
}

/// A trimmed line that begins with a comment marker of `language`.
pub open spec fn is_comment_only(trimmed: Seq<char>, language: Language) -> bool {
    exists|j: int|
        0 <= j < comment_markers_spec(language).len() && starts_with(
            trimmed,
            #[trigger] comment_markers_spec(language)[j],
        )
}

/// A line that holds code: neither blank nor only a line comment.
pub open spec fn is_code_line(line: Seq<char>, language: Language) -> bool {
    trim(line).len() > 0 && !is_comment_only(trim(line), language)
}

/// The 1-based number of the first code line at or after index `i`.
pub open spec fn next_code_line_spec(ls: Seq<Seq<char>>, language: Language, i: int) -> Option<int>
    decreases ls.len() - i,
{
    if i < 0 || i >= ls.len() {
        None
    } else if is_code_line(ls[i], language) {
        Some(i + 1)
    } else {
        next_code_line_spec(ls, language, i + 1)
    }
}

/// The line (1-based) that the directive on line index `idx` silences, and
/// what it silences: its own line, or for a comment alone on its line the
/// next code line.
pub open spec fn line_target(ls: Seq<Seq<char>>, language: Language, idx: int) -> Option<
    (int, IgnoreView),
> {
    match inline_ignore_of(ls[idx], language) {
        Some((comment_only, v)) => if comment_only {
            match next_code_line_spec(ls, language, idx + 1) {
                Some(t) => Some((t, v)),
                None => None,
            }
        } else {
            Some((idx + 1, v))
        },
        None => None,
    }
}

/// The directives of the first `k` lines, keyed by the line they silence;
/// directives that silence the same line act together.
pub open spec fn directives_upto(ls: Seq<Seq<char>>, language: Language, k: int) -> Map<
    usize,
    IgnoreView,
>
    decreases k,
{
    if k <= 0 {
        Map::empty()
    } else {
        let m = directives_upto(ls, language, k - 1);
        match line_target(ls, language, k - 1) {
            Some((t, v)) => {
                let key = t as usize;
                m.insert(
                    key,
                    if m.contains_key(key) {
                        merge_views(m[key], v)
                    } else {
                        v
                    },
                )
            },
            None => m,
        }
    }
}

/// The directives of a source text, keyed by the line they silence.
pub open spec fn ignore_directives(source: Seq<char>, language: Language) -> Map<usize, IgnoreView> {
    directives_upto(lines(source), language, lines(source).len() as int)
}

/// The meaning of a table of directives.
pub open spec fn directives_view(d: Map<usize, InlineIgnoreSpec>) -> Map<usize, IgnoreView> {
    d.map_values(|s: InlineIgnoreSpec| s@)
}

/// Whether the trimmed line `trimmed` begins with a comment marker.
pub fn is_comment_only_line(trimmed: &[char], language: Language) -> (r: bool)
    ensures
        r == is_comment_only(trimmed@, language),
{
    let markers = comment_markers(language);
    let ghost ms = comment_markers_spec(language);
    let mut j: usize = 0;
    while j < markers.len()
        invariant
            markers@.map_values(|m: Vec<char>| m@) == ms,
            ms == comment_markers_spec(language),
            0 <= j <= markers@.len(),
            forall|k: int| 0 <= k < j ==> !starts_with(trimmed@, #[trigger] ms[k]),
        decreases markers@.len() - j,
    {
        let m = &markers[j];
        assert(m@ == markers@.map_values(|m: Vec<char>| m@)[j as int]);
        if occurs_at(trimmed, m.as_slice(), 0) {
            assert(trimmed@.take(m@.len() as int) =~= trimmed@.subrange(0, m@.len() as int));
            assert(starts_with(trimmed@, ms[j as int]));
            return true;
        }
        assert(trimmed@.take(m@.len() as int) =~= trimmed@.subrange(0, m@.len() as int));
        j = j + 1;
    }
    false
}

/// The 1-based number of the first code line among `lines[line_number..]`.
pub fn next_code_line(lines: &Vec<Vec<char>>, line_number: usize, language: Language) -> (r:
    Option<usize>)
    ensures
        r == (match next_code_line_spec(
            lines@.map_values(|l: Vec<char>| l@),
            language,
            line_number as int,
        ) {
            Some(t) => Some(t as usize),
            None => None::<usize>,
        }),
        r matches Some(t) ==> line_number < t <= lines@.len(),
{
    let ghost ls = lines@.map_values(|l: Vec<char>| l@);
    let mut i = line_number;
    while i < lines.len()
        invariant
            ls == lines@.map_values(|l: Vec<char>| l@),
            line_number <= i,
            next_code_line_spec(ls, language, line_number as int) == next_code_line_spec(
                ls,
                language,
                i as int,
            ),
        decreases lines@.len() - i,
    {
        let line = &lines[i];
        assert(line@ == ls[i as int]);
        let (a, b) = trim_bounds(line.as_slice(), 0, line.len());
        assert(line@.subrange(0, line@.len() as int) =~= line@);
        if a < b {
            let t = copy_range(line.as_slice(), a, b);
            if !is_comment_only_line(t.as_slice(), language) {
                return Some(i + 1);
            }
        }
        i = i + 1;
    }
    None
}

/// The inline directives of a source text, keyed by the 1-based line they
/// silence.
pub fn inline_ignore_directives(source: &str, language: Language) -> (r: HashMap<
    usize,
    InlineIgnoreSpec,
>)
    ensures
        directives_view(r@) == ignore_directives(source@, language),
        forall|k: usize| #[trigger] r@.contains_key(k) ==> r@[k].wf(),
{
    broadcast use vstd::std_specs::hash::group_hash_axioms;

    let chars = chars_of(source);
    let source_lines = lines_of(chars.as_slice());
    let ghost ls = source_lines@.map_values(|l: Vec<char>| l@);
    let mut directives: HashMap<usize, InlineIgnoreSpec> = HashMap::new();
    let mut index: usize = 0;
    while index < source_lines.len()
        invariant
            ls == source_lines@.map_values(|l: Vec<char>| l@),
            ls == lines(source@),
            index <= source_lines@.len(),
            directives_view(directives@) == directives_upto(ls, language, index as int),
            forall|k: usize| #[trigger] directives@.contains_key(k) ==> directives@[k].wf(),
        decreases source_lines@.len() - index,
    {
        let line = &source_lines[index];
        assert(line@ == ls[index as int]);
        let ghost before = directives_view(directives@);
        match parse_ignore_chars(line.as_slice(), language) {
            None => {},
            Some((comment_only, spec)) => {
                let target = if comment_only {
                    next_code_line(&source_lines, index + 1, language)
                } else {
                    Some(index + 1)
                };
                match target {
                    None => {},
                    Some(t) => {
                        let ghost v = spec@;
                        match directives.remove(&t) {
                            Some(existing) => {
                                let mut merged = existing;
                                merged.merge(spec);
                                directives.insert(t, merged);
                            },
                            None => {
                                directives.insert(t, spec);
                            },
                        }
                        assert(directives_view(directives@) =~= before.insert(
                            t,
                            if before.contains_key(t) {
                                merge_views(before[t], v)
                            } else {
                                v
                            },
                        ));
                    },
                }
            },
        }
        index = index + 1;
    }
    directives
}

/// A finding lies on a line whose directive silences its rule.
pub open spec fn suppressed(f: FindingView, d: Map<usize, IgnoreView>) -> bool {
    exists|l: usize| f.line <= l <= f.end_line && #[trigger] d.contains_key(l) && ignore_matches(d[l], f.rule_id)
}

/// Whether a directive silences the finding `f`.
pub fn is_suppressed(f: &Finding, directives: &HashMap<usize, InlineIgnoreSpec>) -> (r: bool)
    ensures
        r == suppressed(f@, directives_view(directives@)),
{
    broadcast use vstd::std_specs::hash::group_hash_axioms;

    let ghost d = directives_view(directives@);
    if f.line > f.end_line {
        return false;
    }
    let mut l = f.line;
    loop
        invariant
            d == directives_view(directives@),
            f.line <= l <= f.end_line,
            forall|k: usize|
                f.line <= k < l ==> !(#[trigger] d.contains_key(k) && ignore_matches(d[k], f@.rule_id)),
        decreases f.end_line - l,
    {
        match directives.get(&l) {
            Some(spec) => {
                if spec.matches(f.rule_id.as_str()) {
                    assert(d.contains_key(l));
                    return true;
                }
            },
            None => {},
        }
        if l == f.end_line {
            return false;
        }
        l = l + 1;
    }
}

/// The findings that no directive silences, in their order.
pub fn apply_inline_ignores(
    findings: Vec<Finding>,
    directives: &HashMap<usize, InlineIgnoreSpec>,
) -> (r: Vec<Finding>)
    ensures
        findings_view(r@) == findings_view(findings@).filter(
            |f: FindingView| !suppressed(f, directives_view(directives@)),
        ),
{
    let ghost pred = |f: FindingView| !suppressed(f, directives_view(directives@));
    let ghost all = findings_view(findings@);
    let mut kept: Vec<Finding> = Vec::new();
    for f in it: findings
        invariant
            all == findings_view(it.seq()),
            findings_view(kept@) == all.take(it.index() as int).filter(pred),
            pred == (|f: FindingView| !suppressed(f, directives_view(directives@))),
    {
        let ghost i = it.index();
        assert(f@ == all[i as int]);
        assert(all.take(i + 1) =~= all.take(i as int).push(all[i as int]));
        proof {
            all.take(i as int).lemma_filter_push(all[i as int], pred);
        }
        let ghost before = findings_view(kept@);
        if !is_suppressed(&f, directives) {
            kept.push(f);
            assert(findings_view(kept@) =~= before.push(all[i as int]));
        }
    }
    assert(all.take(all.len() as int) =~= all);
    kept
}


/// Two directives for the same line together silence a rule exactly when
/// one of them does.
pub proof fn law_merge_matches(a: IgnoreView, b: IgnoreView, rule_id: Seq<char>)
    ensures
        ignore_matches(merge_views(a, b), rule_id) == (ignore_matches(a, rule_id)
            || ignore_matches(b, rule_id)),
{
}

/// Once the directive on line index `idx` targets line `t`, the directives
/// of every longer prefix of the file still silence there what it silences.
proof fn lemma_directive_persists(
    ls: Seq<Seq<char>>,
    language: Language,
    idx: int,
    t: int,
    v: IgnoreView,
    k: int,
    rule_id: Seq<char>,
)
    requires
        0 <= idx < k <= ls.len(),
        line_target(ls, language, idx) == Some((t, v)),
        ignore_matches(v, rule_id),
    ensures
        directives_upto(ls, language, k).contains_key(t as usize),
        ignore_matches(directives_upto(ls, language, k)[t as usize], rule_id),
    decreases k,
{
    if k > idx + 1 {
        lemma_directive_persists(ls, language, idx, t, v, k - 1, rule_id);
    }
}

/// The central promise of inline directives: when the directive on line
/// index `idx` of a file targets line `t` (its own line, or the next code
/// line for a comment alone on its line), every finding that spans line `t`
/// and whose rule the directive names is silenced by the file's directives.
pub proof fn law_directive_silences_target(
    source: Seq<char>,
    language: Language,
    idx: int,
    t: int,
    v: IgnoreView,
    f: FindingView,
)
    requires
        0 <= idx < lines(source).len(),
        line_target(lines(source), language, idx) == Some((t, v)),
        f.line <= t <= f.end_line,
        ignore_matches(v, f.rule_id),
    ensures
        suppressed(f, ignore_directives(source, language)),
{
    let ls = lines(source);
    lemma_directive_persists(ls, language, idx, t, v, ls.len() as int, f.rule_id);
    let d = ignore_directives(source, language);
    let l = t as usize;
    assert(f.line <= l <= f.end_line && d.contains_key(l) && ignore_matches(d[l], f.rule_id));
}

/// A sequence whose elements all pass `pred` filters to itself.
proof fn lemma_filter_all(s: Seq<FindingView>, pred: spec_fn(FindingView) -> bool)
    requires
        forall|q: int| 0 <= q < s.len() ==> pred(#[trigger] s[q]),
    ensures
        s.filter(pred) == s,
    decreases s.len(),
{
    reveal_with_fuel(Seq::filter, 1);
    if s.len() > 0 {
        lemma_filter_all(s.drop_last(), pred);
        assert(s.drop_last().push(s.last()) =~= s);
    }
}

/// Without directives every finding is kept.
pub proof fn law_no_directives_keeps_all(findings: Seq<FindingView>)
    ensures
        findings.filter(|f: FindingView| !suppressed(f, Map::<usize, IgnoreView>::empty()))
            == findings,
{
    lemma_filter_all(findings, |f: FindingView| !suppressed(f, Map::<usize, IgnoreView>::empty()));
}

/// Applying the directives of a file a second time silences nothing more.
pub proof fn law_ignores_idempotent(findings: Seq<FindingView>, d: Map<usize, IgnoreView>)
    ensures
        findings.filter(|f: FindingView| !suppressed(f, d)).filter(
            |f: FindingView| !suppressed(f, d),
        ) == findings.filter(|f: FindingView| !suppressed(f, d)),
{
    let pred = |f: FindingView| !suppressed(f, d);
    let once = findings.filter(pred);
    assert forall|q: int| 0 <= q < once.len() implies pred(#[trigger] once[q]) by {
        findings.lemma_filter_pred(pred, q);
    }
    lemma_filter_all(once, pred);
}

} // verus!
