//! The built-in rules for Python.

use vstd::prelude::*;
use vstd::string::StringSliceAdditionalSpecFns;
use vstd::utf8::encode_utf8;

use crate::finding::{findings_view, Finding, FindingView, Language, Severity};
use crate::ignore::starts_with;
use crate::rules::pattern::{compile_pattern, pattern_is_match, regex_compiles, regex_is_match, Pattern};
use crate::rules::{
    lemma_flat_map_contains, append_all, finding_at, has_child_kind, has_child_of_kind, kind_is, kind_of, lemma_flat_map_all,
    make_finding, node_str, of_rule, secret_pattern, single_arg, single_argument, sql_pattern,
    strip_prefix_rep, strip_prefix_rep_exec, text_of, trim_quotes, trim_quotes_exec,
};
use crate::syntax::{child_by_field_name, child_ok, field_child, node_wf, walk_order, walk_tree, SyntaxTree};
use crate::text::{chars_of, occurs_at, str_eq};

pub use crate::rules::source::get_source_line;

verus! {

/// A string literal without interpolation.
pub open spec fn is_fixed_string(tree: SyntaxTree, a: usize) -> bool {
    kind_of(tree, a) == "string"@ && !has_child_kind(tree, a, "interpolation"@)
}

/// A call whose only argument is a string literal without interpolation.
pub open spec fn literal_only_call(tree: SyntaxTree, i: usize) -> bool {
    single_arg(tree, i) matches Some(a) && is_fixed_string(tree, a)
}

/// What `py/no-eval` reports at node `i`: a call of `eval` or `exec`,
/// unless its only argument is a string literal without interpolation.
pub open spec fn no_eval_at(source: &str, tree: SyntaxTree, i: usize) -> Seq<FindingView> {
    let node = tree.nodes@[i as int];
    if kind_of(tree, i) == "call"@ && !literal_only_call(tree, i) {
        match field_child(node, "function"@) {
            Some(f) => {
                let t = text_of(source, tree, f);
                if t == "eval"@ || t == "exec"@ {
                    seq![
                        finding_at(
                            "py/no-eval"@,
                            Severity::Critical,
                            Some("CWE-95"@),
                            t + "() allows arbitrary code execution — avoid using it with untrusted input"@,
                            node,
                            source,
                        ),
                    ]
                } else {
                    seq![]
                }
            },
            None => seq![],
        }
    } else {
        seq![]
    }
}

/// A string literal long enough to be a secret: after `f"` and `f'`
/// prefixes and the quotes around it are removed, at least 4 bytes remain.
pub open spec fn secret_value_long_enough(text: Seq<char>) -> bool {
    let b = encode_utf8(text);
    let inner = trim_quotes(
        strip_prefix_rep(strip_prefix_rep(b, seq![102u8, 34u8]), seq![102u8, 39u8]),
        false,
    );
    inner.len() >= 4
}

/// What `py/no-hardcoded-secret` reports at node `i`: an assignment of a
/// long enough string literal to a name that looks like a secret.
pub open spec fn no_hardcoded_secret_at(source: &str, tree: SyntaxTree, i: usize) -> Seq<
    FindingView,
> {
    let node = tree.nodes@[i as int];
    if kind_of(tree, i) == "assignment"@ {
        match (field_child(node, "left"@), field_child(node, "right"@)) {
            (Some(l), Some(r)) => {
                let left = text_of(source, tree, l);
                if regex_is_match(secret_pattern(), left) && kind_of(tree, r) == "string"@
                    && secret_value_long_enough(text_of(source, tree, r)) {
                    seq![
                        finding_at(
                            "py/no-hardcoded-secret"@,
                            Severity::High,
                            Some("CWE-798"@),
                            "Hardcoded secret in '"@ + left
                                + "' — use environment variables or a secrets manager"@,
                            node,
                            source,
                        ),
                    ]
                } else {
                    seq![]
                }
            },
            _ => seq![],
        }
    } else {
        seq![]
    }
}

/// The finding of `py/no-sql-injection` at a node, with a description.
pub open spec fn sql_finding(source: &str, tree: SyntaxTree, i: usize, d: Seq<char>) -> FindingView {
    finding_at("py/no-sql-injection"@, Severity::Critical, Some("CWE-89"@), d, tree.nodes@[i as int], source)
}

/// An f-string that holds SQL.
pub open spec fn sql_fstring_at(source: &str, tree: SyntaxTree, i: usize) -> Seq<FindingView> {
    let t = text_of(source, tree, i);
    if kind_of(tree, i) == "string"@ && (starts_with(t, "f\""@) || starts_with(t, "f'"@)
        || starts_with(t, "f\"\"\""@)) && regex_is_match(sql_pattern(), t) {
        seq![sql_finding(source, tree, i, "SQL query built with f-string — use parameterized queries"@)]
    } else {
        seq![]
    }
}

/// A binary operation `op` whose left operand is a string literal that
/// holds SQL.
pub open spec fn sql_binary_at(source: &str, tree: SyntaxTree, i: usize, op: Seq<char>) -> bool {
    let node = tree.nodes@[i as int];
    &&& kind_of(tree, i) == "binary_operator"@
    &&& field_child(node, "operator"@) matches Some(o)
    &&& text_of(source, tree, o) == op
    &&& field_child(node, "left"@) matches Some(l)
    &&& kind_of(tree, l) == "string"@
    &&& regex_is_match(sql_pattern(), text_of(source, tree, l))
}

/// A `.format(...)` call on a string literal that holds SQL.
pub open spec fn sql_format_at(source: &str, tree: SyntaxTree, i: usize) -> bool {
    let node = tree.nodes@[i as int];
    &&& kind_of(tree, i) == "call"@
    &&& field_child(node, "function"@) matches Some(f)
    &&& kind_of(tree, f) == "attribute"@
    &&& field_child(tree.nodes@[f as int], "attribute"@) matches Some(a)
    &&& text_of(source, tree, a) == "format"@
    &&& field_child(tree.nodes@[f as int], "object"@) matches Some(o)
    &&& kind_of(tree, o) == "string"@
    &&& regex_is_match(sql_pattern(), text_of(source, tree, o))
}

/// What `py/no-sql-injection` reports at node `i`, checks in this order:
/// f-string, `%` formatting, `.format()`, concatenation with `+`.
pub open spec fn no_sql_injection_at(source: &str, tree: SyntaxTree, i: usize) -> Seq<FindingView> {
    sql_fstring_at(source, tree, i) + (if sql_binary_at(source, tree, i, "%"@) {
        seq![sql_finding(source, tree, i, "SQL query built with % formatting — use parameterized queries"@)]
    } else {
        seq![]
    }) + (if sql_format_at(source, tree, i) {
        seq![sql_finding(source, tree, i, "SQL query built with .format() — use parameterized queries"@)]
    } else {
        seq![]
    }) + (if sql_binary_at(source, tree, i, "+"@) {
        seq![
            sql_finding(
                source,
                tree,
                i,
                "SQL query built with string concatenation — use parameterized queries"@,
            ),
        ]
    } else {
        seq![]
    })
}

/// What `py/no-eval` reports on a tree: its findings at each node, in walk
/// order.
pub open spec fn eval_report(source: &str, tree: SyntaxTree) -> Seq<FindingView> {
    walk_order(tree).flat_map(|i: usize| no_eval_at(source, tree, i))
}

/// What `py/no-hardcoded-secret` reports on a tree once its pattern
/// compiles, in walk order.
pub open spec fn secret_report(source: &str, tree: SyntaxTree) -> Seq<FindingView> {
    walk_order(tree).flat_map(|i: usize| no_hardcoded_secret_at(source, tree, i))
}

/// What `py/no-sql-injection` reports on a tree once its pattern compiles,
/// in walk order.
pub open spec fn sql_report(source: &str, tree: SyntaxTree) -> Seq<FindingView> {
    walk_order(tree).flat_map(|i: usize| no_sql_injection_at(source, tree, i))
}

/// Whether the call at node `i` has a string literal without interpolation
/// as its only argument.
fn literal_only(tree: &SyntaxTree, source: &str, i: usize) -> (r: bool)
    requires
        tree.wf(source),
        i < tree.nodes@.len(),
    ensures
        r == literal_only_call(*tree, i),
{
    match single_argument(tree, source, i) {
        Some(a) => kind_is(tree, a, "string") && !has_child_of_kind(tree, source, a, "interpolation"),
        None => false,
    }
}

/// Flags `eval()` and `exec()` calls whose argument is not a fixed string.
pub struct NoEval;

impl NoEval {
    pub fn id(&self) -> (r: &'static str)
        ensures
            r@ == "py/no-eval"@,
    {
        "py/no-eval"
    }

    pub fn severity(&self) -> (r: Severity)
        ensures
            r == Severity::Critical,
    {
        Severity::Critical
    }

    pub fn cwe(&self) -> (r: Option<&'static str>)
        ensures
            r matches Some(c) && c@ == "CWE-95"@,
    {
        Some("CWE-95")
    }

    pub fn description(&self) -> (r: &'static str)
        ensures
            r@ == "Use of eval()/exec() allows arbitrary code execution"@,
    {
        "Use of eval()/exec() allows arbitrary code execution"
    }

    pub fn language(&self) -> (r: Language)
        ensures
            r == Language::Python,
    {
        Language::Python
    }

    fn check_node(&self, source: &str, tree: &SyntaxTree, i: usize) -> (r: Vec<Finding>)
        requires
            tree.wf(source),
            i < tree.nodes@.len(),
        ensures
            findings_view(r@) == no_eval_at(source, *tree, i),
    {
        let mut out: Vec<Finding> = Vec::new();
        assert(node_wf(tree.nodes@, i as int, source));
        let node = &tree.nodes[i];
        if kind_is(tree, i, "call") && !literal_only(tree, source, i) {
            if let Some(f) = child_by_field_name(node, "function") {
                assert(child_ok(tree.nodes@, i as int, f));
                let t = node_str(source, tree, f);
                if str_eq(t, "eval") || str_eq(t, "exec") {
                    let mut d = String::new();
                    d.push_str(t);
                    d.push_str(
                        "() allows arbitrary code execution — avoid using it with untrusted input",
                    );
                    out.push(make_finding(self.id(), self.severity(), self.cwe(), d, node, source));
                    assert(findings_view(out@) =~= no_eval_at(source, *tree, i));
                }
            }
        }
        assert(findings_view(out@) =~= no_eval_at(source, *tree, i));
        out
    }

    /// The `eval()`/`exec()` calls of the tree, but those with a fixed string
    /// as their only argument, in walk order.
    pub fn check(&self, source: &str, tree: &SyntaxTree) -> (r: Vec<Finding>)
        requires
            tree.wf(source),
        ensures
            findings_view(r@) == eval_report(source, *tree),
    {
        let ghost f = |i: usize| no_eval_at(source, *tree, i);
        let order = walk_tree(tree, source);
        let mut out: Vec<Finding> = Vec::new();
        let mut k: usize = 0;
        while k < order.len()
            invariant
                tree.wf(source),
                order@ == walk_order(*tree),
                forall|q: int| 0 <= q < order@.len() ==> order@[q] < tree.nodes@.len(),
                0 <= k <= order@.len(),
                f == (|i: usize| no_eval_at(source, *tree, i)),
                findings_view(out@) == order@.take(k as int).flat_map(f),
            decreases order@.len() - k,
        {
            let found = self.check_node(source, tree, order[k]);
            append_all(&mut out, found);
            proof {
                order@.lemma_flat_map_take_append(f, k as int);
            }
            k = k + 1;
        }
        assert(order@.take(order@.len() as int) =~= order@);
        out
    }
}

/// Whether a string literal with text `val` is long enough to be a secret.
fn value_long_enough(val: &str) -> (r: bool)
    ensures
        r == secret_value_long_enough(val@),
{
    let b = val.as_bytes();
    let n = b.len();
    assert(b@.subrange(0, n as int) =~= b@);
    let a = strip_prefix_rep_exec(b, 0, 102u8, 34u8);
    let a2 = strip_prefix_rep_exec(b, a, 102u8, 39u8);
    let (x, y) = trim_quotes_exec(b, a2, n, false);
    y - x >= 4
}

/// Flags string literals assigned to names that look like secrets.
pub struct NoHardcodedSecret;

impl NoHardcodedSecret {
    pub fn id(&self) -> (r: &'static str)
        ensures
            r@ == "py/no-hardcoded-secret"@,
    {
        "py/no-hardcoded-secret"
    }

    pub fn severity(&self) -> (r: Severity)
        ensures
            r == Severity::High,
    {
        Severity::High
    }

    pub fn cwe(&self) -> (r: Option<&'static str>)
        ensures
            r matches Some(c) && c@ == "CWE-798"@,
    {
        Some("CWE-798")
    }

    pub fn description(&self) -> (r: &'static str)
        ensures
            r@ == "Hardcoded secret or credential detected"@,
    {
        "Hardcoded secret or credential detected"
    }

    pub fn language(&self) -> (r: Language)
        ensures
            r == Language::Python,
    {
        Language::Python
    }

    fn check_node(&self, source: &str, tree: &SyntaxTree, i: usize, pat: &Pattern) -> (r: Vec<
        Finding,
    >)
        requires
            tree.wf(source),
            i < tree.nodes@.len(),
            pat.source() == secret_pattern(),
        ensures
            findings_view(r@) == no_hardcoded_secret_at(source, *tree, i),
    {
        let mut out: Vec<Finding> = Vec::new();
        assert(node_wf(tree.nodes@, i as int, source));
        let node = &tree.nodes[i];
        if kind_is(tree, i, "assignment") {
            let left = child_by_field_name(node, "left");
            let right = child_by_field_name(node, "right");
            if let (Some(l), Some(r)) = (left, right) {
                assert(child_ok(tree.nodes@, i as int, l));
                assert(child_ok(tree.nodes@, i as int, r));
                let left_text = node_str(source, tree, l);
                if pattern_is_match(pat, left_text) && kind_is(tree, r, "string") {
                    let val = node_str(source, tree, r);
                    if value_long_enough(val) {
                        let mut d = String::new();
                        d.push_str("Hardcoded secret in '");
                        d.push_str(left_text);
                        d.push_str("' — use environment variables or a secrets manager");
                        out.push(make_finding(self.id(), self.severity(), self.cwe(), d, node, source));
                    }
                }
            }
        }
        assert(findings_view(out@) =~= no_hardcoded_secret_at(source, *tree, i));
        out
    }

    /// The assignments of string literals to secret-looking names, in walk
    /// order, once the secret-name pattern compiles.
    pub fn check(&self, source: &str, tree: &SyntaxTree) -> (r: Vec<Finding>)
        requires
            tree.wf(source),
        ensures
            findings_view(r@) == if regex_compiles(secret_pattern()) {
                secret_report(source, *tree)
            } else {
                seq![]
            },
    {
        let pat = match compile_pattern(
            "(?i)(password|secret|api_?key|token|auth|credential|private_?key)",
        ) {
            Some(p) => p,
            None => {
                let empty: Vec<Finding> = Vec::new();
                assert(findings_view(empty@) =~= seq![]);
                return empty;
            },
        };
        let ghost f = |i: usize| no_hardcoded_secret_at(source, *tree, i);
        let order = walk_tree(tree, source);
        let mut out: Vec<Finding> = Vec::new();
        let mut k: usize = 0;
        while k < order.len()
            invariant
                tree.wf(source),
                pat.source() == secret_pattern(),
                order@ == walk_order(*tree),
                forall|q: int| 0 <= q < order@.len() ==> order@[q] < tree.nodes@.len(),
                0 <= k <= order@.len(),
                f == (|i: usize| no_hardcoded_secret_at(source, *tree, i)),
                findings_view(out@) == order@.take(k as int).flat_map(f),
            decreases order@.len() - k,
        {
            let found = self.check_node(source, tree, order[k], &pat);
            append_all(&mut out, found);
            proof {
                order@.lemma_flat_map_take_append(f, k as int);
            }
            k = k + 1;
        }
        assert(order@.take(order@.len() as int) =~= order@);
        out
    }
}

/// Whether node `i` is an f-string that holds SQL.
fn sql_fstring(source: &str, tree: &SyntaxTree, i: usize, pat: &Pattern) -> (r: bool)
    requires
        tree.wf(source),
        i < tree.nodes@.len(),
        pat.source() == sql_pattern(),
    ensures
        r == (sql_fstring_at(source, *tree, i).len() > 0),
{
    if !kind_is(tree, i, "string") {
        return false;
    }
    let t = node_str(source, tree, i);
    let c = chars_of(t);
    let p1 = chars_of("f\"");
    let p2 = chars_of("f'");
    let p3 = chars_of("f\"\"\"");
    assert(c@.take(p1@.len() as int) =~= c@.subrange(0, p1@.len() as int));
    assert(c@.take(p2@.len() as int) =~= c@.subrange(0, p2@.len() as int));
    assert(c@.take(p3@.len() as int) =~= c@.subrange(0, p3@.len() as int));
    if occurs_at(c.as_slice(), p1.as_slice(), 0) || occurs_at(c.as_slice(), p2.as_slice(), 0)
        || occurs_at(c.as_slice(), p3.as_slice(), 0) {
        pattern_is_match(pat, t)
    } else {
        false
    }
}

/// Whether node `i` is a binary operation `op` on a string literal that
/// holds SQL.
fn sql_binary(source: &str, tree: &SyntaxTree, i: usize, pat: &Pattern, op: &str) -> (r: bool)
    requires
        tree.wf(source),
        i < tree.nodes@.len(),
        pat.source() == sql_pattern(),
    ensures
        r == sql_binary_at(source, *tree, i, op@),
{
    assert(node_wf(tree.nodes@, i as int, source));
    let node = &tree.nodes[i];
    if !kind_is(tree, i, "binary_operator") {
        return false;
    }
    match child_by_field_name(node, "operator") {
        None => false,
        Some(o) => {
            assert(child_ok(tree.nodes@, i as int, o));
            if !str_eq(node_str(source, tree, o), op) {
                return false;
            }
            match child_by_field_name(node, "left") {
                None => false,
                Some(l) => {
                    assert(child_ok(tree.nodes@, i as int, l));
                    kind_is(tree, l, "string") && pattern_is_match(pat, node_str(source, tree, l))
                },
            }
        },
    }
}

/// Whether node `i` is a `.format()` call on a string literal that holds
/// SQL.
fn sql_format(source: &str, tree: &SyntaxTree, i: usize, pat: &Pattern) -> (r: bool)
    requires
        tree.wf(source),
        i < tree.nodes@.len(),
        pat.source() == sql_pattern(),
    ensures
        r == sql_format_at(source, *tree, i),
{
    assert(node_wf(tree.nodes@, i as int, source));
    let node = &tree.nodes[i];
    if !kind_is(tree, i, "call") {
        return false;
    }
    let f = match child_by_field_name(node, "function") {
        None => return false,
        Some(f) => f,
    };
    assert(child_ok(tree.nodes@, i as int, f));
    if !kind_is(tree, f, "attribute") {
        return false;
    }
    assert(node_wf(tree.nodes@, f as int, source));
    let func = &tree.nodes[f];
    let a = match child_by_field_name(func, "attribute") {
        None => return false,
        Some(a) => a,
    };
    assert(child_ok(tree.nodes@, f as int, a));
    if !str_eq(node_str(source, tree, a), "format") {
        return false;
    }
    let o = match child_by_field_name(func, "object") {
        None => return false,
        Some(o) => o,
    };
    assert(child_ok(tree.nodes@, f as int, o));
    kind_is(tree, o, "string") && pattern_is_match(pat, node_str(source, tree, o))
}

/// Flags SQL queries built with string formatting.
pub struct NoSqlInjection;

impl NoSqlInjection {
    pub fn id(&self) -> (r: &'static str)
        ensures
            r@ == "py/no-sql-injection"@,
    {
        "py/no-sql-injection"
    }

    pub fn severity(&self) -> (r: Severity)
        ensures
            r == Severity::Critical,
    {
        Severity::Critical
    }

    pub fn cwe(&self) -> (r: Option<&'static str>)
        ensures
            r matches Some(c) && c@ == "CWE-89"@,
    {
        Some("CWE-89")
    }

    pub fn description(&self) -> (r: &'static str)
        ensures
            r@ == "Potential SQL injection via string formatting"@,
    {
        "Potential SQL injection via string formatting"
    }

    pub fn language(&self) -> (r: Language)
        ensures
            r == Language::Python,
    {
        Language::Python
    }

    fn check_node(&self, source: &str, tree: &SyntaxTree, i: usize, pat: &Pattern) -> (r: Vec<
        Finding,
    >)
        requires
            tree.wf(source),
            i < tree.nodes@.len(),
            pat.source() == sql_pattern(),
        ensures
            findings_view(r@) == no_sql_injection_at(source, *tree, i),
    {
        let mut out: Vec<Finding> = Vec::new();
        assert(node_wf(tree.nodes@, i as int, source));
        let node = &tree.nodes[i];
        let ghost v0 = findings_view(out@);
        if sql_fstring(source, tree, i, pat) {
            out.push(
                make_finding(
                    self.id(),
                    self.severity(),
                    self.cwe(),
                    "SQL query built with f-string — use parameterized queries".to_owned(),
                    node,
                    source,
                ),
            );
        }
        assert(findings_view(out@) =~= sql_fstring_at(source, *tree, i));
        let ghost v1 = findings_view(out@);
        if sql_binary(source, tree, i, pat, "%") {
            out.push(
                make_finding(
                    self.id(),
                    self.severity(),
                    self.cwe(),
                    "SQL query built with % formatting — use parameterized queries".to_owned(),
                    node,
                    source,
                ),
            );
        }
        let ghost v2 = findings_view(out@);
        if sql_format(source, tree, i, pat) {
            out.push(
                make_finding(
                    self.id(),
                    self.severity(),
                    self.cwe(),
                    "SQL query built with .format() — use parameterized queries".to_owned(),
                    node,
                    source,
                ),
            );
        }
        let ghost v3 = findings_view(out@);
        if sql_binary(source, tree, i, pat, "+") {
            out.push(
                make_finding(
                    self.id(),
                    self.severity(),
                    self.cwe(),
                    "SQL query built with string concatenation — use parameterized queries".to_owned(),
                    node,
                    source,
                ),
            );
        }
        assert(findings_view(out@) =~= no_sql_injection_at(source, *tree, i));
        out
    }

    /// The SQL queries built by string formatting, in walk order, once the
    /// SQL pattern compiles.
    pub fn check(&self, source: &str, tree: &SyntaxTree) -> (r: Vec<Finding>)
        requires
            tree.wf(source),
        ensures
            findings_view(r@) == if regex_compiles(sql_pattern()) {
                sql_report(source, *tree)
            } else {
                seq![]
            },
    {
        let pat = match compile_pattern("(?i)(SELECT|INSERT|UPDATE|DELETE|DROP|ALTER|CREATE|EXEC)\\s") {
            Some(p) => p,
            None => {
                let empty: Vec<Finding> = Vec::new();
                assert(findings_view(empty@) =~= seq![]);
                return empty;
            },
        };
        let ghost f = |i: usize| no_sql_injection_at(source, *tree, i);
        let order = walk_tree(tree, source);
        let mut out: Vec<Finding> = Vec::new();
        let mut k: usize = 0;
        while k < order.len()
            invariant
                tree.wf(source),
                pat.source() == sql_pattern(),
                order@ == walk_order(*tree),
                forall|q: int| 0 <= q < order@.len() ==> order@[q] < tree.nodes@.len(),
                0 <= k <= order@.len(),
                f == (|i: usize| no_sql_injection_at(source, *tree, i)),
                findings_view(out@) == order@.take(k as int).flat_map(f),
            decreases order@.len() - k,
        {
            let found = self.check_node(source, tree, order[k], &pat);
            append_all(&mut out, found);
            proof {
                order@.lemma_flat_map_take_append(f, k as int);
            }
            k = k + 1;
        }
        assert(order@.take(order@.len() as int) =~= order@);
        out
    }
}


/// Every finding that a Python rule reports carries that rule's id,
/// severity and CWE, and lies in no file yet.
pub proof fn law_findings_carry_rule(source: &str, tree: SyntaxTree)
    ensures
        forall|q: int|
            0 <= q < eval_report(source, tree).len() ==> of_rule(
                #[trigger] eval_report(source, tree)[q],
                "py/no-eval"@,
                Severity::Critical,
                "CWE-95"@,
            ),
        forall|q: int|
            0 <= q < secret_report(source, tree).len() ==> of_rule(
                #[trigger] secret_report(source, tree)[q],
                "py/no-hardcoded-secret"@,
                Severity::High,
                "CWE-798"@,
            ),
        forall|q: int|
            0 <= q < sql_report(source, tree).len() ==> of_rule(
                #[trigger] sql_report(source, tree)[q],
                "py/no-sql-injection"@,
                Severity::Critical,
                "CWE-89"@,
            ),
{
    lemma_flat_map_all(
        walk_order(tree),
        |i: usize| no_eval_at(source, tree, i),
        |f: FindingView| of_rule(f, "py/no-eval"@, Severity::Critical, "CWE-95"@),
    );
    lemma_flat_map_all(
        walk_order(tree),
        |i: usize| no_hardcoded_secret_at(source, tree, i),
        |f: FindingView| of_rule(f, "py/no-hardcoded-secret"@, Severity::High, "CWE-798"@),
    );
    lemma_flat_map_all(
        walk_order(tree),
        |i: usize| no_sql_injection_at(source, tree, i),
        |f: FindingView| of_rule(f, "py/no-sql-injection"@, Severity::Critical, "CWE-89"@),
    );
}


/// A string literal whose text begins with `f"` or `f'` and which the SQL
/// pattern matches is reported by `py/no-sql-injection` as an f-string.
pub proof fn law_sql_fstring_reported(source: &str, tree: SyntaxTree, i: usize)
    requires
        walk_order(tree).contains(i),
        kind_of(tree, i) == "string"@,
        text_of(source, tree, i).len() >= 2,
        text_of(source, tree, i)[0] == 'f',
        text_of(source, tree, i)[1] == '"' || text_of(source, tree, i)[1] == '\'',
        regex_is_match(sql_pattern(), text_of(source, tree, i)),
    ensures
        sql_report(source, tree).contains(
            sql_finding(source, tree, i, "SQL query built with f-string — use parameterized queries"@),
        ),
{
    let t = text_of(source, tree, i);
    let x = sql_finding(source, tree, i, "SQL query built with f-string — use parameterized queries"@);
    reveal_strlit("f\"");
    reveal_strlit("f'");
    if t[1] == '"' {
        assert(t.take(2) =~= "f\""@);
    } else {
        assert(t.take(2) =~= "f'"@);
    }
    assert(sql_fstring_at(source, tree, i) == seq![x]);
    let at = no_sql_injection_at(source, tree, i);
    assert(at[0] == x);
    lemma_flat_map_contains(walk_order(tree), |j: usize| no_sql_injection_at(source, tree, j), i, x);
}

/// An assignment of a long enough string literal to a left side, of any
/// kind, whose text the secret pattern matches is reported by
/// `py/no-hardcoded-secret`, naming that text.
pub proof fn law_secret_assignment_reported(
    source: &str,
    tree: SyntaxTree,
    i: usize,
    l: usize,
    r: usize,
)
    requires
        walk_order(tree).contains(i),
        kind_of(tree, i) == "assignment"@,
        field_child(tree.nodes@[i as int], "left"@) == Some(l),
        field_child(tree.nodes@[i as int], "right"@) == Some(r),
        regex_is_match(secret_pattern(), text_of(source, tree, l)),
        kind_of(tree, r) == "string"@,
        trim_quotes(
            strip_prefix_rep(
                strip_prefix_rep(encode_utf8(text_of(source, tree, r)), seq![102u8, 34u8]),
                seq![102u8, 39u8],
            ),
            false,
        ).len() >= 4,
    ensures
        secret_report(source, tree).contains(
            finding_at(
                "py/no-hardcoded-secret"@,
                Severity::High,
                Some("CWE-798"@),
                "Hardcoded secret in '"@ + text_of(source, tree, l)
                    + "' — use environment variables or a secrets manager"@,
                tree.nodes@[i as int],
                source,
            ),
        ),
{
    let x = finding_at(
        "py/no-hardcoded-secret"@,
        Severity::High,
        Some("CWE-798"@),
        "Hardcoded secret in '"@ + text_of(source, tree, l)
            + "' — use environment variables or a secrets manager"@,
        tree.nodes@[i as int],
        source,
    );
    let at = no_hardcoded_secret_at(source, tree, i);
    assert(at[0] == x);
    lemma_flat_map_contains(walk_order(tree), |j: usize| no_hardcoded_secret_at(source, tree, j), i, x);
}

} // verus!
