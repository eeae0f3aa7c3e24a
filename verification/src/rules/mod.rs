//! The built-in rules and what they share: reading node kinds, fields and
//! texts, and building findings.

pub mod javascript;
pub mod pattern;
pub mod python;
pub mod source;

use vstd::prelude::*;

use crate::finding::{findings_view, Finding, FindingView, Severity};
use crate::syntax::{child_by_field_name, child_ok, field_child, node_text, node_wf, SyntaxNode, SyntaxTree};
use crate::text::str_eq;
use source::{source_line, substr, get_source_line};

verus! {

/// The pattern that flags names of secrets.
pub open spec fn secret_pattern() -> Seq<char> {
    "(?i)(password|secret|api_?key|token|auth|credential|private_?key)"@
}

/// The pattern that flags SQL statements.
pub open spec fn sql_pattern() -> Seq<char> {
    "(?i)(SELECT|INSERT|UPDATE|DELETE|DROP|ALTER|CREATE|EXEC)\\s"@
}

/// The optional CWE of a rule as characters.
pub open spec fn cwe_view(cwe: Option<&str>) -> Option<Seq<char>> {
    match cwe {
        Some(c) => Some(c@),
        None => None,
    }
}

/// The finding that a rule reports at a node: 1-based positions, no file
/// yet, and the whole source line where the node starts.
pub open spec fn finding_at(
    rule_id: Seq<char>,
    severity: Severity,
    cwe: Option<Seq<char>>,
    description: Seq<char>,
    node: SyntaxNode,
    source: &str,
) -> FindingView {
    FindingView {
        rule_id,
        severity,
        cwe,
        description,
        file: seq![],
        line: (node.start_row + 1) as usize,
        column: (node.start_column + 1) as usize,
        end_line: (node.end_row + 1) as usize,
        end_column: (node.end_column + 1) as usize,
        snippet: source_line(source, node.start_byte as int),
    }
}

/// The finding that a rule reports at `node`.
pub fn make_finding(
    rule_id: &str,
    severity: Severity,
    cwe: Option<&str>,
    description: String,
    node: &SyntaxNode,
    source: &str,
) -> (r: Finding)
    requires
        crate::rules::source::valid_range(source, node.start_byte as int, node.end_byte as int),
        node.start_row < usize::MAX,
        node.start_column < usize::MAX,
        node.end_row < usize::MAX,
        node.end_column < usize::MAX,
    ensures
        r@ == finding_at(rule_id@, severity, cwe_view(cwe), description@, *node, source),
{
    Finding {
        rule_id: rule_id.to_owned(),
        severity,
        cwe: match cwe {
            Some(c) => Some(c.to_owned()),
            None => None,
        },
        description,
        file: String::new(),
        line: node.start_row + 1,
        column: node.start_column + 1,
        end_line: node.end_row + 1,
        end_column: node.end_column + 1,
        snippet: get_source_line(source, node.start_byte),
    }
}

/// The kind of node `i`.
pub open spec fn kind_of(tree: SyntaxTree, i: usize) -> Seq<char> {
    tree.nodes@[i as int].kind@
}

/// The text of node `i`.
pub open spec fn text_of(source: &str, tree: SyntaxTree, i: usize) -> Seq<char> {
    node_text(source, tree.nodes@[i as int])
}

/// Node `i` has a child of the given kind.
pub open spec fn has_child_kind(tree: SyntaxTree, i: usize, kind: Seq<char>) -> bool {
    exists|k: int|
        0 <= k < tree.nodes@[i as int].children@.len() && kind_of(
            tree,
            #[trigger] tree.nodes@[i as int].children@[k],
        ) == kind
}

/// The text of node `i` of a well-formed tree.
pub fn node_str<'a>(source: &'a str, tree: &SyntaxTree, i: usize) -> (r: &'a str)
    requires
        tree.wf(source),
        i < tree.nodes@.len(),
    ensures
        r@ == text_of(source, *tree, i),
{
    assert(node_wf(tree.nodes@, i as int, source));
    let node = &tree.nodes[i];
    substr(source, node.start_byte, node.end_byte)
}

/// Whether node `i` is of the given kind.
pub fn kind_is(tree: &SyntaxTree, i: usize, kind: &str) -> (r: bool)
    requires
        i < tree.nodes@.len(),
    ensures
        r == (kind_of(*tree, i) == kind@),
{
    str_eq(tree.nodes[i].kind.as_str(), kind)
}

/// Whether node `i` has a child of the given kind.
pub fn has_child_of_kind(tree: &SyntaxTree, source: &str, i: usize, kind: &str) -> (r: bool)
    requires
        tree.wf(source),
        i < tree.nodes@.len(),
    ensures
        r == has_child_kind(*tree, i, kind@),
{
    assert(node_wf(tree.nodes@, i as int, source));
    let node = &tree.nodes[i];
    let n = node.children.len();
    let mut k: usize = 0;
    while k < n
        invariant
            tree.wf(source),
            i < tree.nodes@.len(),
            node == tree.nodes@[i as int],
            node_wf(tree.nodes@, i as int, source),
            n == node.children@.len(),
            0 <= k <= n,
            forall|j: int| 0 <= j < k ==> kind_of(*tree, #[trigger] node.children@[j]) != kind@,
        decreases n - k,
    {
        let c = node.children[k];
        assert(child_ok(tree.nodes@, i as int, node.children@[k as int]));
        if kind_is(tree, c, kind) {
            return true;
        }
        k = k + 1;
    }
    false
}

/// `s` with every leading copy of `p` removed, as `str::trim_start_matches`
/// removes a prefix pattern.
pub open spec fn strip_prefix_rep(s: Seq<u8>, p: Seq<u8>) -> Seq<u8>
    decreases s.len(),
{
    if 0 < p.len() <= s.len() && s.take(p.len() as int) == p {
        strip_prefix_rep(s.skip(p.len() as int), p)
    } else {
        s
    }
}

/// A quote byte: `"` or `'`, and the backtick when `backtick` holds.
pub open spec fn is_quote(b: u8, backtick: bool) -> bool {
    b == 34u8 || b == 39u8 || (backtick && b == 96u8)
}

/// `s` without its leading quote bytes.
pub open spec fn trim_quotes_start(s: Seq<u8>, backtick: bool) -> Seq<u8>
    decreases s.len(),
{
    if s.len() > 0 && is_quote(s[0], backtick) {
        trim_quotes_start(s.drop_first(), backtick)
    } else {
        s
    }
}

/// `s` without its trailing quote bytes.
pub open spec fn trim_quotes_end(s: Seq<u8>, backtick: bool) -> Seq<u8>
    decreases s.len(),
{
    if s.len() > 0 && is_quote(s.last(), backtick) {
        trim_quotes_end(s.drop_last(), backtick)
    } else {
        s
    }
}

/// `s` without leading and trailing quote bytes, as `str::trim_matches`
/// with a quote predicate gives it.
pub open spec fn trim_quotes(s: Seq<u8>, backtick: bool) -> Seq<u8> {
    trim_quotes_end(trim_quotes_start(s, backtick), backtick)
}

/// The position in `b` after every leading copy of the two bytes `p0 p1`
/// from `lo` on has been removed.
pub fn strip_prefix_rep_exec(b: &[u8], lo: usize, p0: u8, p1: u8) -> (r: usize)
    requires
        lo <= b@.len(),
    ensures
        lo <= r <= b@.len(),
        b@.subrange(r as int, b@.len() as int) == strip_prefix_rep(
            b@.subrange(lo as int, b@.len() as int),
            seq![p0, p1],
        ),
{
    let n = b.len();
    let mut i = lo;
    while n - i >= 2 && b[i] == p0 && b[i + 1] == p1
        invariant
            n == b@.len(),
            lo <= i <= n,
            strip_prefix_rep(b@.subrange(lo as int, n as int), seq![p0, p1]) == strip_prefix_rep(
                b@.subrange(i as int, n as int),
                seq![p0, p1],
            ),
        decreases n - i,
    {
        assert(b@.subrange(i as int, n as int).take(2) =~= seq![p0, p1]);
        assert(b@.subrange(i as int, n as int).skip(2) =~= b@.subrange(i + 2, n as int));
        i = i + 2;
    }
    proof {
        let rest = b@.subrange(i as int, n as int);
        if 2 <= rest.len() && rest.take(2) == seq![p0, p1] {
            assert(rest.take(2)[0] == b@[i as int]);
            assert(rest.take(2)[1] == b@[i + 1]);
        }
    }
    i
}

/// Whether `b` is a quote byte.
fn quote_byte(b: u8, backtick: bool) -> (r: bool)
    ensures
        r == is_quote(b, backtick),
{
    b == 34u8 || b == 39u8 || (backtick && b == 96u8)
}

/// The bounds of `trim_quotes(b[lo..hi])` inside `b`.
pub fn trim_quotes_exec(b: &[u8], lo: usize, hi: usize, backtick: bool) -> (r: (usize, usize))
    requires
        lo <= hi <= b@.len(),
    ensures
        lo <= r.0 <= r.1 <= hi,
        b@.subrange(r.0 as int, r.1 as int) == trim_quotes(
            b@.subrange(lo as int, hi as int),
            backtick,
        ),
{
    let mut a = lo;
    while a < hi && quote_byte(b[a], backtick)
        invariant
            lo <= a <= hi <= b@.len(),
            trim_quotes_start(b@.subrange(lo as int, hi as int), backtick) == trim_quotes_start(
                b@.subrange(a as int, hi as int),
                backtick,
            ),
        decreases hi - a,
    {
        assert(b@.subrange(a as int, hi as int).drop_first() =~= b@.subrange(a + 1, hi as int));
        a = a + 1;
    }
    let mut c = hi;
    while c > a && quote_byte(b[c - 1], backtick)
        invariant
            lo <= a <= c <= hi <= b@.len(),
            trim_quotes_start(b@.subrange(lo as int, hi as int), backtick) == b@.subrange(
                a as int,
                hi as int,
            ),
            trim_quotes_end(b@.subrange(a as int, hi as int), backtick) == trim_quotes_end(
                b@.subrange(a as int, c as int),
                backtick,
            ),
        decreases c - a,
    {
        assert(b@.subrange(a as int, c as int).drop_last() =~= b@.subrange(a as int, c - 1));
        c = c - 1;
    }
    (a, c)
}

/// Appends `more` to `out`.
pub fn append_all(out: &mut Vec<Finding>, more: Vec<Finding>)
    ensures
        findings_view(final(out)@) == findings_view(old(out)@) + findings_view(more@),
{
    let mut more = more;
    let ghost a = out@;
    let ghost b = more@;
    out.append(&mut more);
    assert(findings_view(out@) =~= findings_view(a) + findings_view(b));
}


/// A finding of the rule `rule_id` with that severity and CWE, not yet
/// placed in a file.
pub open spec fn of_rule(
    f: FindingView,
    rule_id: Seq<char>,
    severity: Severity,
    cwe: Seq<char>,
) -> bool {
    &&& f.rule_id == rule_id
    &&& f.severity == severity
    &&& f.cwe == Some(cwe)
    &&& f.file == Seq::<char>::empty()
}

/// When every node's findings satisfy `p`, so do the findings of a walk.
pub proof fn lemma_flat_map_all(
    s: Seq<usize>,
    f: spec_fn(usize) -> Seq<FindingView>,
    p: spec_fn(FindingView) -> bool,
)
    requires
        forall|i: usize, q: int| 0 <= q < f(i).len() ==> p(#[trigger] f(i)[q]),
    ensures
        forall|q: int| 0 <= q < s.flat_map(f).len() ==> p(#[trigger] s.flat_map(f)[q]),
    decreases s.len(),
{
    if s.len() > 0 {
        lemma_flat_map_all(s.drop_first(), f, p);
        assert(s.map_values(f).drop_first() =~= s.drop_first().map_values(f));
        assert(s.flat_map(f) == f(s[0]) + s.drop_first().flat_map(f));
        assert forall|q: int| 0 <= q < s.flat_map(f).len() implies p(#[trigger] s.flat_map(f)[q]) by {
            if q >= f(s[0]).len() {
                assert(s.flat_map(f)[q] == s.drop_first().flat_map(f)[q - f(s[0]).len()]);
            }
        }
    }
}


/// The only argument of the call at node `i`: the one named child of its
/// `arguments` field, when there is exactly one.
pub open spec fn single_arg(tree: SyntaxTree, i: usize) -> Option<usize> {
    match field_child(tree.nodes@[i as int], "arguments"@) {
        Some(a) => if tree.nodes@[a as int].named_children@.len() == 1 {
            Some(tree.nodes@[a as int].named_children@[0])
        } else {
            None
        },
        None => None,
    }
}

/// The only argument of the call at node `i`, if it has exactly one.
pub fn single_argument(tree: &SyntaxTree, source: &str, i: usize) -> (r: Option<usize>)
    requires
        tree.wf(source),
        i < tree.nodes@.len(),
    ensures
        r == single_arg(*tree, i),
        r matches Some(a) ==> a < tree.nodes@.len(),
{
    assert(node_wf(tree.nodes@, i as int, source));
    let a = match child_by_field_name(&tree.nodes[i], "arguments") {
        Some(a) => a,
        None => return None,
    };
    assert(child_ok(tree.nodes@, i as int, a));
    assert(node_wf(tree.nodes@, a as int, source));
    let args = &tree.nodes[a];
    if args.named_children.len() != 1 {
        return None;
    }
    assert(child_ok(tree.nodes@, a as int, args.named_children@[0]));
    Some(args.named_children[0])
}


/// A walk's findings hold every finding of every node it visits.
pub proof fn lemma_flat_map_contains(
    s: Seq<usize>,
    f: spec_fn(usize) -> Seq<FindingView>,
    i: usize,
    x: FindingView,
)
    requires
        s.contains(i),
        f(i).contains(x),
    ensures
        s.flat_map(f).contains(x),
    decreases s.len(),
{
    assert(s.map_values(f).drop_first() =~= s.drop_first().map_values(f));
    assert(s.flat_map(f) == f(s[0]) + s.drop_first().flat_map(f));
    if s[0] == i {
        let q = choose|q: int| 0 <= q < f(i).len() && #[trigger] f(i)[q] == x;
        assert(s.flat_map(f)[q] == x);
    } else {
        let k = choose|k: int| 0 <= k < s.len() && #[trigger] s[k] == i;
        assert(s.drop_first()[k - 1] == i);
        lemma_flat_map_contains(s.drop_first(), f, i, x);
        let rest = s.drop_first().flat_map(f);
        let q = choose|q: int| 0 <= q < rest.len() && #[trigger] rest[q] == x;
        assert(s.flat_map(f)[f(s[0]).len() + q] == x);
    }
}

/// Every finding of a walk is a finding of some node it visits.
pub proof fn lemma_flat_map_origin(s: Seq<usize>, f: spec_fn(usize) -> Seq<FindingView>, x: FindingView)
    requires
        s.flat_map(f).contains(x),
    ensures
        exists|i: usize| s.contains(i) && #[trigger] f(i).contains(x),
    decreases s.len(),
{
    if s.len() == 0 {
        assert(s.flat_map(f) =~= Seq::<FindingView>::empty());
    } else {
        assert(s.map_values(f).drop_first() =~= s.drop_first().map_values(f));
        assert(s.flat_map(f) == f(s[0]) + s.drop_first().flat_map(f));
        let all = s.flat_map(f);
        let q = choose|q: int| 0 <= q < all.len() && #[trigger] all[q] == x;
        if q < f(s[0]).len() {
            assert(f(s[0])[q] == x);
            assert(s[0] == s[0]);
            assert(s.contains(s[0]) && f(s[0]).contains(x));
        } else {
            let rest = s.drop_first().flat_map(f);
            assert(rest[q - f(s[0]).len()] == x);
            lemma_flat_map_origin(s.drop_first(), f, x);
            let i = choose|i: usize| s.drop_first().contains(i) && #[trigger] f(i).contains(x);
            let k = choose|k: int| 0 <= k < s.drop_first().len() && #[trigger] s.drop_first()[k] == i;
            assert(s[k + 1] == i);
            assert(s.contains(i) && f(i).contains(x));
        }
    }
}

} // verus!
