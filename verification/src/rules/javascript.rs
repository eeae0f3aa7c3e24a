//! The built-in rules for JavaScript and TypeScript.

use vstd::prelude::*;
use vstd::string::StringSliceAdditionalSpecFns;
use vstd::utf8::encode_utf8;

use crate::finding::{findings_view, Finding, FindingView, Language, Severity};
use crate::rules::pattern::{compile_pattern, pattern_is_match, regex_compiles, regex_is_match, Pattern};
use crate::rules::{
    lemma_flat_map_contains, lemma_flat_map_origin, append_all, finding_at, has_child_kind, has_child_of_kind, kind_is, kind_of, lemma_flat_map_all,
    make_finding, node_str, of_rule, secret_pattern, single_arg, single_argument, sql_pattern,
    text_of, trim_quotes, trim_quotes_exec,
};
use crate::syntax::{child_by_field_name, child_ok, field_child, node_wf, walk_order, walk_tree, SyntaxTree};
use crate::text::{chars_of, str_eq, string_from};

pub use crate::rules::source::get_source_line;

verus! {

/// A string literal or a template literal.
pub open spec fn is_string_kind(kind: Seq<char>) -> bool {
    kind == "string"@ || kind == "template_string"@
}

/// A call whose only argument is a fixed string: a string literal or a
/// template literal without interpolation.
pub open spec fn literal_only_call(tree: SyntaxTree, i: usize) -> bool {
    single_arg(tree, i) matches Some(a) && !is_dynamic_arg(tree, a)
}

/// What `js/no-eval` reports at node `i`: a call of `eval`, unless its only
/// argument is a fixed string.
pub open spec fn no_eval_at(source: &str, tree: SyntaxTree, i: usize) -> Seq<FindingView> {
    let node = tree.nodes@[i as int];
    if kind_of(tree, i) == "call_expression"@ && (field_child(node, "function"@) matches Some(f)
        && text_of(source, tree, f) == "eval"@) && !literal_only_call(tree, i) {
        seq![
            finding_at(
                "js/no-eval"@,
                Severity::Critical,
                Some("CWE-95"@),
                "Use of eval() allows arbitrary code execution"@,
                node,
                source,
            ),
        ]
    } else {
        seq![]
    }
}

/// A literal long enough to be a secret: without the quotes and backticks
/// around it, at least 4 bytes remain.
pub open spec fn secret_value_long_enough(text: Seq<char>) -> bool {
    trim_quotes(encode_utf8(text), true).len() >= 4
}

/// A secret-looking name bound by the fields `name_field` and `value_field`
/// of node `i` to a long enough literal; the name's text.
pub open spec fn secret_binding(
    source: &str,
    tree: SyntaxTree,
    i: usize,
    kind: Seq<char>,
    name_field: Seq<char>,
    value_field: Seq<char>,
) -> Option<Seq<char>> {
    let node = tree.nodes@[i as int];
    if kind_of(tree, i) == kind {
        match (field_child(node, name_field), field_child(node, value_field)) {
            (Some(n), Some(v)) => {
                let name = text_of(source, tree, n);
                if regex_is_match(secret_pattern(), name) && is_string_kind(kind_of(tree, v))
                    && secret_value_long_enough(text_of(source, tree, v)) {
                    Some(name)
                } else {
                    None
                }
            },
            _ => None,
        }
    } else {
        None
    }
}

/// The finding of `js/no-hardcoded-secret` at node `i`.
pub open spec fn secret_finding(source: &str, tree: SyntaxTree, i: usize, d: Seq<char>) -> FindingView {
    finding_at("js/no-hardcoded-secret"@, Severity::High, Some("CWE-798"@), d, tree.nodes@[i as int], source)
}

/// What `js/no-hardcoded-secret` reports at node `i`: a declaration, then an
/// assignment, of a long enough literal to a secret-looking name.
pub open spec fn no_hardcoded_secret_at(source: &str, tree: SyntaxTree, i: usize) -> Seq<
    FindingView,
> {
    (match secret_binding(source, tree, i, "variable_declarator"@, "name"@, "value"@) {
        Some(name) => seq![
            secret_finding(
                source,
                tree,
                i,
                "Hardcoded secret in variable '"@ + name + "' — avoid committing credentials"@,
            ),
        ],
        None => seq![],
    }) + (match secret_binding(source, tree, i, "assignment_expression"@, "left"@, "right"@) {
        Some(name) => seq![
            secret_finding(
                source,
                tree,
                i,
                "Hardcoded secret assigned to '"@ + name + "' — use environment variables instead"@,
            ),
        ],
        None => seq![],
    })
}

/// A concatenation with `+` whose left operand is a literal holding SQL.
pub open spec fn sql_concat_at(source: &str, tree: SyntaxTree, i: usize) -> bool {
    let node = tree.nodes@[i as int];
    &&& kind_of(tree, i) == "binary_expression"@
    &&& field_child(node, "operator"@) matches Some(o)
    &&& text_of(source, tree, o) == "+"@
    &&& field_child(node, "left"@) matches Some(l)
    &&& is_string_kind(kind_of(tree, l))
    &&& regex_is_match(sql_pattern(), text_of(source, tree, l))
}

/// A template literal with an interpolation that holds SQL.
pub open spec fn sql_template_at(source: &str, tree: SyntaxTree, i: usize) -> bool {
    &&& kind_of(tree, i) == "template_string"@
    &&& regex_is_match(sql_pattern(), text_of(source, tree, i))
    &&& has_child_kind(tree, i, "template_substitution"@)
}

/// The finding of `js/no-sql-injection` at node `i`.
pub open spec fn sql_finding(source: &str, tree: SyntaxTree, i: usize, d: Seq<char>) -> FindingView {
    finding_at("js/no-sql-injection"@, Severity::Critical, Some("CWE-89"@), d, tree.nodes@[i as int], source)
}

/// What `js/no-sql-injection` reports at node `i`: concatenation, then
/// template interpolation.
pub open spec fn no_sql_injection_at(source: &str, tree: SyntaxTree, i: usize) -> Seq<FindingView> {
    (if sql_concat_at(source, tree, i) {
        seq![
            sql_finding(
                source,
                tree,
                i,
                "SQL query built with string concatenation — use parameterized queries"@,
            ),
        ]
    } else {
        seq![]
    }) + (if sql_template_at(source, tree, i) {
        seq![
            sql_finding(
                source,
                tree,
                i,
                "SQL query built with template literal interpolation — use parameterized queries"@,
            ),
        ]
    } else {
        seq![]
    })
}

/// The property, `innerHTML` or `outerHTML`, that node `i` assigns
/// something other than a string literal to.
pub open spec fn html_sink_at(source: &str, tree: SyntaxTree, i: usize) -> Option<Seq<char>> {
    let node = tree.nodes@[i as int];
    if kind_of(tree, i) == "assignment_expression"@ {
        match field_child(node, "left"@) {
            Some(l) => if kind_of(tree, l) == "member_expression"@ {
                match field_child(tree.nodes@[l as int], "property"@) {
                    Some(p) => {
                        let prop = text_of(source, tree, p);
                        if (prop == "innerHTML"@ || prop == "outerHTML"@) && (field_child(
                            node,
                            "right"@,
                        ) matches Some(r) && kind_of(tree, r) != "string"@) {
                            Some(prop)
                        } else {
                            None
                        }
                    },
                    None => None,
                }
            } else {
                None
            },
            None => None,
        }
    } else {
        None
    }
}

/// What `js/no-xss-innerhtml` reports at node `i`.
pub open spec fn no_xss_innerhtml_at(source: &str, tree: SyntaxTree, i: usize) -> Seq<FindingView> {
    match html_sink_at(source, tree, i) {
        Some(prop) => seq![
            finding_at(
                "js/no-xss-innerhtml"@,
                Severity::High,
                Some("CWE-79"@),
                "Assignment to "@ + prop + " with dynamic content — use textContent or sanitize HTML"@,
                tree.nodes@[i as int],
                source,
            ),
        ],
        None => seq![],
    }
}

/// The part of `t` after its last `.`, or all of `t`: what
/// `t.rsplit('.').next()` gives.
pub open spec fn after_last_dot(t: Seq<char>) -> Seq<char>
    decreases t.len(),
{
    if t.len() == 0 {
        t
    } else if t.last() == '.' {
        seq![]
    } else {
        after_last_dot(t.drop_last()).push(t.last())
    }
}

/// The names of the process-spawning functions.
pub open spec fn is_dangerous_fn(name: Seq<char>) -> bool {
    ||| name == "exec"@
    ||| name == "execSync"@
    ||| name == "spawn"@
    ||| name == "spawnSync"@
    ||| name == "execFile"@
    ||| name == "execFileSync"@
}

/// An argument that is not a fixed string: anything but a string literal or
/// a template literal without interpolation.
pub open spec fn is_dynamic_arg(tree: SyntaxTree, a: usize) -> bool {
    if kind_of(tree, a) == "string"@ {
        false
    } else if kind_of(tree, a) == "template_string"@ {
        has_child_kind(tree, a, "template_substitution"@)
    } else {
        true
    }
}

/// The name of the process-spawning function that node `i` calls with a
/// dynamic first argument.
pub open spec fn command_call_at(source: &str, tree: SyntaxTree, i: usize) -> Option<Seq<char>> {
    let node = tree.nodes@[i as int];
    if kind_of(tree, i) == "call_expression"@ {
        match field_child(node, "function"@) {
            Some(f) => {
                let name = after_last_dot(text_of(source, tree, f));
                if is_dangerous_fn(name) {
                    match field_child(node, "arguments"@) {
                        Some(a) => {
                            let args = tree.nodes@[a as int];
                            if args.named_children@.len() > 0 && is_dynamic_arg(
                                tree,
                                args.named_children@[0],
                            ) {
                                Some(name)
                            } else {
                                None
                            }
                        },
                        None => None,
                    }
                } else {
                    None
                }
            },
            None => None,
        }
    } else {
        None
    }
}

/// What `js/no-command-injection` reports at node `i`.
pub open spec fn no_command_injection_at(source: &str, tree: SyntaxTree, i: usize) -> Seq<
    FindingView,
> {
    match command_call_at(source, tree, i) {
        Some(name) => seq![
            finding_at(
                "js/no-command-injection"@,
                Severity::Critical,
                Some("CWE-78"@),
                name + "() called with dynamic argument — risk of command injection"@,
                tree.nodes@[i as int],
                source,
            ),
        ],
        None => seq![],
    }
}

/// What `js/no-eval` reports on a tree: its findings at each node, in walk order.
pub open spec fn eval_report(source: &str, tree: SyntaxTree) -> Seq<FindingView> {
    walk_order(tree).flat_map(|i: usize| no_eval_at(source, tree, i))
}

/// What `js/no-hardcoded-secret` reports on a tree: its findings at each node, in walk order.
pub open spec fn secret_report(source: &str, tree: SyntaxTree) -> Seq<FindingView> {
    walk_order(tree).flat_map(|i: usize| no_hardcoded_secret_at(source, tree, i))
}

/// What `js/no-sql-injection` reports on a tree: its findings at each node, in walk order.
pub open spec fn sql_report(source: &str, tree: SyntaxTree) -> Seq<FindingView> {
    walk_order(tree).flat_map(|i: usize| no_sql_injection_at(source, tree, i))
}

/// What `js/no-xss-innerhtml` reports on a tree: its findings at each node, in walk order.
pub open spec fn xss_report(source: &str, tree: SyntaxTree) -> Seq<FindingView> {
    walk_order(tree).flat_map(|i: usize| no_xss_innerhtml_at(source, tree, i))
}

/// What `js/no-command-injection` reports on a tree: its findings at each node, in walk order.
pub open spec fn command_report(source: &str, tree: SyntaxTree) -> Seq<FindingView> {
    walk_order(tree).flat_map(|i: usize| no_command_injection_at(source, tree, i))
}

/// Whether the call at node `i` has a fixed string as its only argument.
fn literal_only(tree: &SyntaxTree, source: &str, i: usize) -> (r: bool)
    requires
        tree.wf(source),
        i < tree.nodes@.len(),
    ensures
        r == literal_only_call(*tree, i),
{
    match single_argument(tree, source, i) {
        Some(a) => !dynamic_arg(tree, source, a),
        None => false,
    }
}

/// Flags `eval()` calls whose argument is not a fixed string.
pub struct NoEval;

impl NoEval {
    pub fn id(&self) -> (r: &'static str)
        ensures
            r@ == "js/no-eval"@,
    {
        "js/no-eval"
    }

    pub fn severity(&self) -> (r: Severity)
        ensures
            r == Severity::Critical,
    {
        Severity::Critical
    }

    pub fn cwe(&self) -> (r: Option<&'static str>)
        ensures
            r matches Some(c) && c@ == "CWE-95"@,
    {
        Some("CWE-95")
    }

    pub fn description(&self) -> (r: &'static str)
        ensures
            r@ == "Use of eval() allows arbitrary code execution"@,
    {
        "Use of eval() allows arbitrary code execution"
    }

    pub fn language(&self) -> (r: Language)
        ensures
            r == Language::JavaScript,
    {
        Language::JavaScript
    }

    fn check_node(&self, source: &str, tree: &SyntaxTree, i: usize) -> (r: Vec<Finding>)
        requires
            tree.wf(source),
            i < tree.nodes@.len(),
        ensures
            findings_view(r@) == no_eval_at(source, *tree, i),
    {
        let mut out: Vec<Finding> = Vec::new();
        assert(node_wf(tree.nodes@, i as int, source));
        let node = &tree.nodes[i];
        if kind_is(tree, i, "call_expression") {
            if let Some(f) = child_by_field_name(node, "function") {
                assert(child_ok(tree.nodes@, i as int, f));
                if str_eq(node_str(source, tree, f), "eval") && !literal_only(tree, source, i) {
                    out.push(
                        make_finding(
                            self.id(),
                            self.severity(),
                            self.cwe(),
                            self.description().to_owned(),
                            node,
                            source,
                        ),
                    );
                }
            }
        }
        assert(findings_view(out@) =~= no_eval_at(source, *tree, i));
        out
    }

    /// The `eval()` calls of the tree, but those with a fixed string as their
    /// only argument, in walk order.
    pub fn check(&self, source: &str, tree: &SyntaxTree) -> (r: Vec<Finding>)
        requires
            tree.wf(source),
        ensures
            findings_view(r@) == eval_report(source, *tree),
    {
        let ghost f = |i: usize| no_eval_at(source, *tree, i);
        let order = walk_tree(tree, source);
        let mut out: Vec<Finding> = Vec::new();
        let mut k: usize = 0;
        while k < order.len()
            invariant
                tree.wf(source),
                order@ == walk_order(*tree),
                forall|q: int| 0 <= q < order@.len() ==> order@[q] < tree.nodes@.len(),
                0 <= k <= order@.len(),
                f == (|i: usize| no_eval_at(source, *tree, i)),
                findings_view(out@) == order@.take(k as int).flat_map(f),
            decreases order@.len() - k,
        {
            let found = self.check_node(source, tree, order[k]);
            append_all(&mut out, found);
            proof {
                order@.lemma_flat_map_take_append(f, k as int);
            }
            k = k + 1;
        }
        assert(order@.take(order@.len() as int) =~= order@);
        out
    }
}


/// Whether node `v` is a string literal or a template literal.
fn string_kind(tree: &SyntaxTree, v: usize) -> (r: bool)
    requires
        v < tree.nodes@.len(),
    ensures
        r == is_string_kind(kind_of(*tree, v)),
{
    kind_is(tree, v, "string") || kind_is(tree, v, "template_string")
}

/// Whether a literal with text `val` is long enough to be a secret.
fn value_long_enough(val: &str) -> (r: bool)
    ensures
        r == secret_value_long_enough(val@),
{
    let b = val.as_bytes();
    let n = b.len();
    assert(b@.subrange(0, n as int) =~= b@);
    let (x, y) = trim_quotes_exec(b, 0, n, true);
    y - x >= 4
}

/// The secret-looking name that node `i`, of kind `kind`, binds to a long
/// enough literal through the fields `name_field` and `value_field`.
fn secret_binding_exec<'a>(
    source: &'a str,
    tree: &SyntaxTree,
    i: usize,
    pat: &Pattern,
    kind: &str,
    name_field: &str,
    value_field: &str,
) -> (r: Option<&'a str>)
    requires
        tree.wf(source),
        i < tree.nodes@.len(),
        pat.source() == secret_pattern(),
    ensures
        match r {
            Some(n) => secret_binding(source, *tree, i, kind@, name_field@, value_field@) == Some(
                n@,
            ),
            None => secret_binding(source, *tree, i, kind@, name_field@, value_field@) is None,
        },
{
    assert(node_wf(tree.nodes@, i as int, source));
    let node = &tree.nodes[i];
    if !kind_is(tree, i, kind) {
        return None;
    }
    let n = child_by_field_name(node, name_field);
    let v = child_by_field_name(node, value_field);
    match (n, v) {
        (Some(n), Some(v)) => {
            assert(child_ok(tree.nodes@, i as int, n));
            assert(child_ok(tree.nodes@, i as int, v));
            let name = node_str(source, tree, n);
            if pattern_is_match(pat, name) && string_kind(tree, v) && value_long_enough(
                node_str(source, tree, v),
            ) {
                Some(name)
            } else {
                None
            }
        },
        _ => None,
    }
}

/// Flags string literals bound to names that look like secrets.
pub struct NoHardcodedSecret;

impl NoHardcodedSecret {
    pub fn id(&self) -> (r: &'static str)
        ensures
            r@ == "js/no-hardcoded-secret"@,
    {
        "js/no-hardcoded-secret"
    }

    pub fn severity(&self) -> (r: Severity)
        ensures
            r == Severity::High,
    {
        Severity::High
    }

    pub fn cwe(&self) -> (r: Option<&'static str>)
        ensures
            r matches Some(c) && c@ == "CWE-798"@,
    {
        Some("CWE-798")
    }

    pub fn description(&self) -> (r: &'static str)
        ensures
            r@ == "Hardcoded secret or credential detected"@,
    {
        "Hardcoded secret or credential detected"
    }

    pub fn language(&self) -> (r: Language)
        ensures
            r == Language::JavaScript,
    {
        Language::JavaScript
    }

    fn check_node(&self, source: &str, tree: &SyntaxTree, i: usize, pat: &Pattern) -> (r: Vec<
        Finding,
    >)
        requires
            tree.wf(source),
            i < tree.nodes@.len(),
            pat.source() == secret_pattern(),
        ensures
            findings_view(r@) == no_hardcoded_secret_at(source, *tree, i),
    {
        let mut out: Vec<Finding> = Vec::new();
        assert(node_wf(tree.nodes@, i as int, source));
        let node = &tree.nodes[i];
        if let Some(name) = secret_binding_exec(
            source,
            tree,
            i,
            pat,
            "variable_declarator",
            "name",
            "value",
        ) {
            let mut d = String::new();
            d.push_str("Hardcoded secret in variable '");
            d.push_str(name);
            d.push_str("' — avoid committing credentials");
            out.push(make_finding(self.id(), self.severity(), self.cwe(), d, node, source));
        }
        let ghost first = findings_view(out@);
        if let Some(name) = secret_binding_exec(
            source,
            tree,
            i,
            pat,
            "assignment_expression",
            "left",
            "right",
        ) {
            let mut d = String::new();
            d.push_str("Hardcoded secret assigned to '");
            d.push_str(name);
            d.push_str("' — use environment variables instead");
            out.push(make_finding(self.id(), self.severity(), self.cwe(), d, node, source));
        }
        assert(findings_view(out@) =~= no_hardcoded_secret_at(source, *tree, i));
        out
    }

    /// The literals bound to secret-looking names, in walk order, once the
    /// secret-name pattern compiles.
    pub fn check(&self, source: &str, tree: &SyntaxTree) -> (r: Vec<Finding>)
        requires
            tree.wf(source),
        ensures
            findings_view(r@) == if regex_compiles(secret_pattern()) {
                secret_report(source, *tree)
            } else {
                seq![]
            },
    {
        let pat = match compile_pattern(
            "(?i)(password|secret|api_?key|token|auth|credential|private_?key)",
        ) {
            Some(p) => p,
            None => {
                let empty: Vec<Finding> = Vec::new();
                assert(findings_view(empty@) =~= seq![]);
                return empty;
            },
        };
        let ghost f = |i: usize| no_hardcoded_secret_at(source, *tree, i);
        let order = walk_tree(tree, source);
        let mut out: Vec<Finding> = Vec::new();
        let mut k: usize = 0;
        while k < order.len()
            invariant
                tree.wf(source),
                pat.source() == secret_pattern(),
                order@ == walk_order(*tree),
                forall|q: int| 0 <= q < order@.len() ==> order@[q] < tree.nodes@.len(),
                0 <= k <= order@.len(),
                f == (|i: usize| no_hardcoded_secret_at(source, *tree, i)),
                findings_view(out@) == order@.take(k as int).flat_map(f),
            decreases order@.len() - k,
        {
            let found = self.check_node(source, tree, order[k], &pat);
            append_all(&mut out, found);
            proof {
                order@.lemma_flat_map_take_append(f, k as int);
            }
            k = k + 1;
        }
        assert(order@.take(order@.len() as int) =~= order@);
        out
    }
}


/// Whether node `i` is a concatenation with `+` whose left operand is a
/// literal holding SQL.
fn sql_concat(source: &str, tree: &SyntaxTree, i: usize, pat: &Pattern) -> (r: bool)
    requires
        tree.wf(source),
        i < tree.nodes@.len(),
        pat.source() == sql_pattern(),
    ensures
        r == sql_concat_at(source, *tree, i),
{
    assert(node_wf(tree.nodes@, i as int, source));
    let node = &tree.nodes[i];
    if !kind_is(tree, i, "binary_expression") {
        return false;
    }
    let o = match child_by_field_name(node, "operator") {
        None => return false,
        Some(o) => o,
    };
    assert(child_ok(tree.nodes@, i as int, o));
    if !str_eq(node_str(source, tree, o), "+") {
        return false;
    }
    match child_by_field_name(node, "left") {
        None => false,
        Some(l) => {
            assert(child_ok(tree.nodes@, i as int, l));
            string_kind(tree, l) && pattern_is_match(pat, node_str(source, tree, l))
        },
    }
}

/// Whether node `i` is a template literal with an interpolation that holds
/// SQL.
fn sql_template(source: &str, tree: &SyntaxTree, i: usize, pat: &Pattern) -> (r: bool)
    requires
        tree.wf(source),
        i < tree.nodes@.len(),
        pat.source() == sql_pattern(),
    ensures
        r == sql_template_at(source, *tree, i),
{
    kind_is(tree, i, "template_string") && pattern_is_match(pat, node_str(source, tree, i))
        && has_child_of_kind(tree, source, i, "template_substitution")
}

/// Flags SQL queries built by concatenation or template interpolation.
pub struct NoSqlInjection;

impl NoSqlInjection {
    pub fn id(&self) -> (r: &'static str)
        ensures
            r@ == "js/no-sql-injection"@,
    {
        "js/no-sql-injection"
    }

    pub fn severity(&self) -> (r: Severity)
        ensures
            r == Severity::Critical,
    {
        Severity::Critical
    }

    pub fn cwe(&self) -> (r: Option<&'static str>)
        ensures
            r matches Some(c) && c@ == "CWE-89"@,
    {
        Some("CWE-89")
    }

    pub fn description(&self) -> (r: &'static str)
        ensures
            r@ == "Potential SQL injection via string concatenation or template literal"@,
    {
        "Potential SQL injection via string concatenation or template literal"
    }

    pub fn language(&self) -> (r: Language)
        ensures
            r == Language::JavaScript,
    {
        Language::JavaScript
    }

    fn check_node(&self, source: &str, tree: &SyntaxTree, i: usize, pat: &Pattern) -> (r: Vec<
        Finding,
    >)
        requires
            tree.wf(source),
            i < tree.nodes@.len(),
            pat.source() == sql_pattern(),
        ensures
            findings_view(r@) == no_sql_injection_at(source, *tree, i),
    {
        let mut out: Vec<Finding> = Vec::new();
        assert(node_wf(tree.nodes@, i as int, source));
        let node = &tree.nodes[i];
        if sql_concat(source, tree, i, pat) {
            out.push(
                make_finding(
                    self.id(),
                    self.severity(),
                    self.cwe(),
                    "SQL query built with string concatenation — use parameterized queries".to_owned(),
                    node,
                    source,
                ),
            );
        }
        let ghost first = findings_view(out@);
        if sql_template(source, tree, i, pat) {
            out.push(
                make_finding(
                    self.id(),
                    self.severity(),
                    self.cwe(),
                    "SQL query built with template literal interpolation — use parameterized queries".to_owned(),
                    node,
                    source,
                ),
            );
        }
        assert(findings_view(out@) =~= no_sql_injection_at(source, *tree, i));
        out
    }

    /// The SQL queries built by concatenation or interpolation, in walk
    /// order, once the SQL pattern compiles.
    pub fn check(&self, source: &str, tree: &SyntaxTree) -> (r: Vec<Finding>)
        requires
            tree.wf(source),
        ensures
            findings_view(r@) == if regex_compiles(sql_pattern()) {
                sql_report(source, *tree)
            } else {
                seq![]
            },
    {
        let pat = match compile_pattern("(?i)(SELECT|INSERT|UPDATE|DELETE|DROP|ALTER|CREATE|EXEC)\\s") {
            Some(p) => p,
            None => {
                let empty: Vec<Finding> = Vec::new();
                assert(findings_view(empty@) =~= seq![]);
                return empty;
            },
        };
        let ghost f = |i: usize| no_sql_injection_at(source, *tree, i);
        let order = walk_tree(tree, source);
        let mut out: Vec<Finding> = Vec::new();
        let mut k: usize = 0;
        while k < order.len()
            invariant
                tree.wf(source),
                pat.source() == sql_pattern(),
                order@ == walk_order(*tree),
                forall|q: int| 0 <= q < order@.len() ==> order@[q] < tree.nodes@.len(),
                0 <= k <= order@.len(),
                f == (|i: usize| no_sql_injection_at(source, *tree, i)),
                findings_view(out@) == order@.take(k as int).flat_map(f),
            decreases order@.len() - k,
        {
            let found = self.check_node(source, tree, order[k], &pat);
            append_all(&mut out, found);
            proof {
                order@.lemma_flat_map_take_append(f, k as int);
            }
            k = k + 1;
        }
        assert(order@.take(order@.len() as int) =~= order@);
        out
    }
}

/// The property, `innerHTML` or `outerHTML`, that node `i` assigns
/// something other than a string literal to.
fn html_sink<'a>(source: &'a str, tree: &SyntaxTree, i: usize) -> (r: Option<&'a str>)
    requires
        tree.wf(source),
        i < tree.nodes@.len(),
    ensures
        match r {
            Some(p) => html_sink_at(source, *tree, i) == Some(p@),
            None => html_sink_at(source, *tree, i) is None,
        },
{
    assert(node_wf(tree.nodes@, i as int, source));
    let node = &tree.nodes[i];
    if !kind_is(tree, i, "assignment_expression") {
        return None;
    }
    let l = match child_by_field_name(node, "left") {
        None => return None,
        Some(l) => l,
    };
    assert(child_ok(tree.nodes@, i as int, l));
    if !kind_is(tree, l, "member_expression") {
        return None;
    }
    assert(node_wf(tree.nodes@, l as int, source));
    let p = match child_by_field_name(&tree.nodes[l], "property") {
        None => return None,
        Some(p) => p,
    };
    assert(child_ok(tree.nodes@, l as int, p));
    let prop = node_str(source, tree, p);
    if !(str_eq(prop, "innerHTML") || str_eq(prop, "outerHTML")) {
        return None;
    }
    match child_by_field_name(node, "right") {
        None => None,
        Some(r) => {
            assert(child_ok(tree.nodes@, i as int, r));
            if kind_is(tree, r, "string") {
                None
            } else {
                Some(prop)
            }
        },
    }
}

/// Flags assignments of dynamic content to `innerHTML` and `outerHTML`.
pub struct NoXssInnerHtml;

impl NoXssInnerHtml {
    pub fn id(&self) -> (r: &'static str)
        ensures
            r@ == "js/no-xss-innerhtml"@,
    {
        "js/no-xss-innerhtml"
    }

    pub fn severity(&self) -> (r: Severity)
        ensures
            r == Severity::High,
    {
        Severity::High
    }

    pub fn cwe(&self) -> (r: Option<&'static str>)
        ensures
            r matches Some(c) && c@ == "CWE-79"@,
    {
        Some("CWE-79")
    }

    pub fn description(&self) -> (r: &'static str)
        ensures
            r@ == "Assignment to innerHTML may lead to XSS"@,
    {
        "Assignment to innerHTML may lead to XSS"
    }

    pub fn language(&self) -> (r: Language)
        ensures
            r == Language::JavaScript,
    {
        Language::JavaScript
    }

    fn check_node(&self, source: &str, tree: &SyntaxTree, i: usize) -> (r: Vec<Finding>)
        requires
            tree.wf(source),
            i < tree.nodes@.len(),
        ensures
            findings_view(r@) == no_xss_innerhtml_at(source, *tree, i),
    {
        let mut out: Vec<Finding> = Vec::new();
        assert(node_wf(tree.nodes@, i as int, source));
        let node = &tree.nodes[i];
        if let Some(prop) = html_sink(source, tree, i) {
            let mut d = String::new();
            d.push_str("Assignment to ");
            d.push_str(prop);
            d.push_str(" with dynamic content — use textContent or sanitize HTML");
            out.push(make_finding(self.id(), self.severity(), self.cwe(), d, node, source));
        }
        assert(findings_view(out@) =~= no_xss_innerhtml_at(source, *tree, i));
        out
    }

    /// The assignments of dynamic content to `innerHTML` and `outerHTML`,
    /// in walk order.
    pub fn check(&self, source: &str, tree: &SyntaxTree) -> (r: Vec<Finding>)
        requires
            tree.wf(source),
        ensures
            findings_view(r@) == xss_report(source, *tree),
    {
        let ghost f = |i: usize| no_xss_innerhtml_at(source, *tree, i);
        let order = walk_tree(tree, source);
        let mut out: Vec<Finding> = Vec::new();
        let mut k: usize = 0;
        while k < order.len()
            invariant
                tree.wf(source),
                order@ == walk_order(*tree),
                forall|q: int| 0 <= q < order@.len() ==> order@[q] < tree.nodes@.len(),
                0 <= k <= order@.len(),
                f == (|i: usize| no_xss_innerhtml_at(source, *tree, i)),
                findings_view(out@) == order@.take(k as int).flat_map(f),
            decreases order@.len() - k,
        {
            let found = self.check_node(source, tree, order[k]);
            append_all(&mut out, found);
            proof {
                order@.lemma_flat_map_take_append(f, k as int);
            }
            k = k + 1;
        }
        assert(order@.take(order@.len() as int) =~= order@);
        out
    }
}


/// The part of `t` after its last `.`, or all of `t`.
fn after_last_dot_exec(t: &str) -> (r: String)
    ensures
        r@ == after_last_dot(t@),
{
    let c = chars_of(t);
    let n = c.len();
    let mut j = n;
    assert(c@.subrange(0, n as int) =~= c@);
    assert(c@.subrange(n as int, n as int) =~= seq![]);
    while j > 0 && c[j - 1] != '.'
        invariant
            n == c@.len(),
            0 <= j <= n,
            after_last_dot(c@) == after_last_dot(c@.subrange(0, j as int)) + c@.subrange(
                j as int,
                n as int,
            ),
        decreases j,
    {
        let ghost pre = c@.subrange(0, j as int);
        let ghost x = c@[j - 1];
        assert(pre.drop_last() =~= c@.subrange(0, j - 1));
        assert(pre.last() == x);
        assert(after_last_dot(pre) == after_last_dot(c@.subrange(0, j - 1)).push(x));
        assert(after_last_dot(c@.subrange(0, j - 1)).push(x) + c@.subrange(j as int, n as int)
            =~= after_last_dot(c@.subrange(0, j - 1)) + c@.subrange(j - 1, n as int));
        j = j - 1;
    }
    proof {
        let pre = c@.subrange(0, j as int);
        if j == 0 {
            assert(pre =~= seq![]);
        } else {
            assert(pre.last() == c@[j - 1]);
        }
        assert(after_last_dot(pre) =~= seq![]);
        assert(after_last_dot(c@) =~= c@.subrange(j as int, n as int));
    }
    string_from(c.as_slice(), j, n)
}

/// Whether `name` names a process-spawning function.
fn dangerous_fn(name: &str) -> (r: bool)
    ensures
        r == is_dangerous_fn(name@),
{
    str_eq(name, "exec") || str_eq(name, "execSync") || str_eq(name, "spawn") || str_eq(
        name,
        "spawnSync",
    ) || str_eq(name, "execFile") || str_eq(name, "execFileSync")
}

/// Whether node `a` is an argument that is not a fixed string.
fn dynamic_arg(tree: &SyntaxTree, source: &str, a: usize) -> (r: bool)
    requires
        tree.wf(source),
        a < tree.nodes@.len(),
    ensures
        r == is_dynamic_arg(*tree, a),
{
    if kind_is(tree, a, "string") {
        false
    } else if kind_is(tree, a, "template_string") {
        has_child_of_kind(tree, source, a, "template_substitution")
    } else {
        true
    }
}

/// The name of the process-spawning function that node `i` calls with a
/// dynamic first argument.
fn command_call(source: &str, tree: &SyntaxTree, i: usize) -> (r: Option<String>)
    requires
        tree.wf(source),
        i < tree.nodes@.len(),
    ensures
        match r {
            Some(n) => command_call_at(source, *tree, i) == Some(n@),
            None => command_call_at(source, *tree, i) is None,
        },
{
    assert(node_wf(tree.nodes@, i as int, source));
    let node = &tree.nodes[i];
    if !kind_is(tree, i, "call_expression") {
        return None;
    }
    let f = match child_by_field_name(node, "function") {
        None => return None,
        Some(f) => f,
    };
    assert(child_ok(tree.nodes@, i as int, f));
    let name = after_last_dot_exec(node_str(source, tree, f));
    if !dangerous_fn(name.as_str()) {
        return None;
    }
    let a = match child_by_field_name(node, "arguments") {
        None => return None,
        Some(a) => a,
    };
    assert(child_ok(tree.nodes@, i as int, a));
    assert(node_wf(tree.nodes@, a as int, source));
    let args = &tree.nodes[a];
    if args.named_children.len() == 0 {
        return None;
    }
    let first = args.named_children[0];
    assert(child_ok(tree.nodes@, a as int, args.named_children@[0]));
    if dynamic_arg(tree, source, first) {
        Some(name)
    } else {
        None
    }
}

/// Flags process-spawning calls whose command is not a fixed string.
pub struct NoCommandInjection;

impl NoCommandInjection {
    pub fn id(&self) -> (r: &'static str)
        ensures
            r@ == "js/no-command-injection"@,
    {
        "js/no-command-injection"
    }

    pub fn severity(&self) -> (r: Severity)
        ensures
            r == Severity::Critical,
    {
        Severity::Critical
    }

    pub fn cwe(&self) -> (r: Option<&'static str>)
        ensures
            r matches Some(c) && c@ == "CWE-78"@,
    {
        Some("CWE-78")
    }

    pub fn description(&self) -> (r: &'static str)
        ensures
            r@ == "Potential command injection via exec/spawn with dynamic input"@,
    {
        "Potential command injection via exec/spawn with dynamic input"
    }

    pub fn language(&self) -> (r: Language)
        ensures
            r == Language::JavaScript,
    {
        Language::JavaScript
    }

    fn check_node(&self, source: &str, tree: &SyntaxTree, i: usize) -> (r: Vec<Finding>)
        requires
            tree.wf(source),
            i < tree.nodes@.len(),
        ensures
            findings_view(r@) == no_command_injection_at(source, *tree, i),
    {
        let mut out: Vec<Finding> = Vec::new();
        assert(node_wf(tree.nodes@, i as int, source));
        let node = &tree.nodes[i];
        if let Some(name) = command_call(source, tree, i) {
            let mut d = name;
            d.push_str("() called with dynamic argument — risk of command injection");
            out.push(make_finding(self.id(), self.severity(), self.cwe(), d, node, source));
        }
        assert(findings_view(out@) =~= no_command_injection_at(source, *tree, i));
        out
    }

    /// The process-spawning calls with a dynamic command, in walk order.
    pub fn check(&self, source: &str, tree: &SyntaxTree) -> (r: Vec<Finding>)
        requires
            tree.wf(source),
        ensures
            findings_view(r@) == command_report(source, *tree),
    {
        let ghost f = |i: usize| no_command_injection_at(source, *tree, i);
        let order = walk_tree(tree, source);
        let mut out: Vec<Finding> = Vec::new();
        let mut k: usize = 0;
        while k < order.len()
            invariant
                tree.wf(source),
                order@ == walk_order(*tree),
                forall|q: int| 0 <= q < order@.len() ==> order@[q] < tree.nodes@.len(),
                0 <= k <= order@.len(),
                f == (|i: usize| no_command_injection_at(source, *tree, i)),
                findings_view(out@) == order@.take(k as int).flat_map(f),
            decreases order@.len() - k,
        {
            let found = self.check_node(source, tree, order[k]);
            append_all(&mut out, found);
            proof {
                order@.lemma_flat_map_take_append(f, k as int);
            }
            k = k + 1;
        }
        assert(order@.take(order@.len() as int) =~= order@);
        out
    }
}


/// Every finding that a JavaScript rule reports carries that rule's id,
/// severity and CWE, and lies in no file yet.
pub proof fn law_findings_carry_rule(source: &str, tree: SyntaxTree)
    ensures
        forall|q: int|
            0 <= q < eval_report(source, tree).len() ==> of_rule(
                #[trigger] eval_report(source, tree)[q],
                "js/no-eval"@,
                Severity::Critical,
                "CWE-95"@,
            ),
        forall|q: int|
            0 <= q < secret_report(source, tree).len() ==> of_rule(
                #[trigger] secret_report(source, tree)[q],
                "js/no-hardcoded-secret"@,
                Severity::High,
                "CWE-798"@,
            ),
        forall|q: int|
            0 <= q < sql_report(source, tree).len() ==> of_rule(
                #[trigger] sql_report(source, tree)[q],
                "js/no-sql-injection"@,
                Severity::Critical,
                "CWE-89"@,
            ),
        forall|q: int|
            0 <= q < xss_report(source, tree).len() ==> of_rule(
                #[trigger] xss_report(source, tree)[q],
                "js/no-xss-innerhtml"@,
                Severity::High,
                "CWE-79"@,
            ),
        forall|q: int|
            0 <= q < command_report(source, tree).len() ==> of_rule(
                #[trigger] command_report(source, tree)[q],
                "js/no-command-injection"@,
                Severity::Critical,
                "CWE-78"@,
            ),
{
    lemma_flat_map_all(
        walk_order(tree),
        |i: usize| no_eval_at(source, tree, i),
        |f: FindingView| of_rule(f, "js/no-eval"@, Severity::Critical, "CWE-95"@),
    );
    lemma_flat_map_all(
        walk_order(tree),
        |i: usize| no_hardcoded_secret_at(source, tree, i),
        |f: FindingView| of_rule(f, "js/no-hardcoded-secret"@, Severity::High, "CWE-798"@),
    );
    lemma_flat_map_all(
        walk_order(tree),
        |i: usize| no_sql_injection_at(source, tree, i),
        |f: FindingView| of_rule(f, "js/no-sql-injection"@, Severity::Critical, "CWE-89"@),
    );
    lemma_flat_map_all(
        walk_order(tree),
        |i: usize| no_xss_innerhtml_at(source, tree, i),
        |f: FindingView| of_rule(f, "js/no-xss-innerhtml"@, Severity::High, "CWE-79"@),
    );
    lemma_flat_map_all(
        walk_order(tree),
        |i: usize| no_command_injection_at(source, tree, i),
        |f: FindingView| of_rule(f, "js/no-command-injection"@, Severity::Critical, "CWE-78"@),
    );
}


/// A call of `exec`, `execSync`, `spawn`, `spawnSync`, `execFile` or
/// `execFileSync` (the callee's last dotted part) whose first argument is
/// neither a string literal nor a template literal without interpolation is
/// reported by `js/no-command-injection`, naming the function.
pub proof fn law_command_injection_reported(
    source: &str,
    tree: SyntaxTree,
    i: usize,
    f: usize,
    a: usize,
    name: Seq<char>,
)
    requires
        walk_order(tree).contains(i),
        kind_of(tree, i) == "call_expression"@,
        field_child(tree.nodes@[i as int], "function"@) == Some(f),
        name == after_last_dot(text_of(source, tree, f)),
        name == "exec"@ || name == "execSync"@ || name == "spawn"@ || name == "spawnSync"@ || name
            == "execFile"@ || name == "execFileSync"@,
        field_child(tree.nodes@[i as int], "arguments"@) == Some(a),
        tree.nodes@[a as int].named_children@.len() > 0,
        kind_of(tree, tree.nodes@[a as int].named_children@[0]) != "string"@,
        kind_of(tree, tree.nodes@[a as int].named_children@[0]) == "template_string"@ ==> has_child_kind(
            tree,
            tree.nodes@[a as int].named_children@[0],
            "template_substitution"@,
        ),
    ensures
        command_report(source, tree).contains(
            finding_at(
                "js/no-command-injection"@,
                Severity::Critical,
                Some("CWE-78"@),
                name + "() called with dynamic argument — risk of command injection"@,
                tree.nodes@[i as int],
                source,
            ),
        ),
{
    let x = finding_at(
        "js/no-command-injection"@,
        Severity::Critical,
        Some("CWE-78"@),
        name + "() called with dynamic argument — risk of command injection"@,
        tree.nodes@[i as int],
        source,
    );
    assert(is_dangerous_fn(name));
    assert(is_dynamic_arg(tree, tree.nodes@[a as int].named_children@[0]));
    assert(command_call_at(source, tree, i) == Some(name));
    assert(no_command_injection_at(source, tree, i)[0] == x);
    lemma_flat_map_contains(
        walk_order(tree),
        |j: usize| no_command_injection_at(source, tree, j),
        i,
        x,
    );
}

/// Every `js/no-sql-injection` finding lies at a node of the walk that holds
/// SQL: a template literal whose text the SQL pattern matches, or a
/// concatenation whose left operand's text it matches.
pub proof fn law_sql_findings_hold_sql(source: &str, tree: SyntaxTree, x: FindingView)
    requires
        sql_report(source, tree).contains(x),
    ensures
        exists|i: usize|
            walk_order(tree).contains(i) && x == #[trigger] finding_at(
                "js/no-sql-injection"@,
                Severity::Critical,
                Some("CWE-89"@),
                x.description,
                tree.nodes@[i as int],
                source,
            ) && ((kind_of(tree, i) == "template_string"@ && regex_is_match(
                sql_pattern(),
                text_of(source, tree, i),
            )) || (kind_of(tree, i) == "binary_expression"@ && (field_child(
                tree.nodes@[i as int],
                "left"@,
            ) matches Some(l) && regex_is_match(sql_pattern(), text_of(source, tree, l))))),
{
    lemma_flat_map_origin(walk_order(tree), |j: usize| no_sql_injection_at(source, tree, j), x);
    let i = choose|i: usize|
        walk_order(tree).contains(i) && #[trigger] no_sql_injection_at(source, tree, i).contains(x);
    let at = no_sql_injection_at(source, tree, i);
    let q = choose|q: int| 0 <= q < at.len() && #[trigger] at[q] == x;
    if sql_concat_at(source, tree, i) && q == 0 {
        assert(x == finding_at(
            "js/no-sql-injection"@,
            Severity::Critical,
            Some("CWE-89"@),
            x.description,
            tree.nodes@[i as int],
            source,
        ));
    } else {
        assert(sql_template_at(source, tree, i));
        assert(x == finding_at(
            "js/no-sql-injection"@,
            Severity::Critical,
            Some("CWE-89"@),
            x.description,
            tree.nodes@[i as int],
            source,
        ));
    }
}

/// A template literal that the SQL pattern does not match yields no
/// `js/no-sql-injection` finding at its node.
pub proof fn law_template_without_sql_not_reported(source: &str, tree: SyntaxTree, i: usize)
    requires
        kind_of(tree, i) == "template_string"@,
        !regex_is_match(sql_pattern(), text_of(source, tree, i)),
    ensures
        no_sql_injection_at(source, tree, i) == Seq::<FindingView>::empty(),
{
    reveal_strlit("template_string");
    reveal_strlit("binary_expression");
    assert("template_string"@.len() != "binary_expression"@.len());
    assert(!sql_concat_at(source, tree, i));
    assert(no_sql_injection_at(source, tree, i) =~= Seq::<FindingView>::empty());
}

/// An assignment of a long enough string or template literal to a left side,
/// of any kind, whose text the secret pattern matches is reported by
/// `js/no-hardcoded-secret`, naming that text.
pub proof fn law_secret_assignment_reported(
    source: &str,
    tree: SyntaxTree,
    i: usize,
    l: usize,
    r: usize,
)
    requires
        walk_order(tree).contains(i),
        kind_of(tree, i) == "assignment_expression"@,
        field_child(tree.nodes@[i as int], "left"@) == Some(l),
        field_child(tree.nodes@[i as int], "right"@) == Some(r),
        regex_is_match(secret_pattern(), text_of(source, tree, l)),
        kind_of(tree, r) == "string"@ || kind_of(tree, r) == "template_string"@,
        trim_quotes(encode_utf8(text_of(source, tree, r)), true).len() >= 4,
    ensures
        secret_report(source, tree).contains(
            finding_at(
                "js/no-hardcoded-secret"@,
                Severity::High,
                Some("CWE-798"@),
                "Hardcoded secret assigned to '"@ + text_of(source, tree, l)
                    + "' — use environment variables instead"@,
                tree.nodes@[i as int],
                source,
            ),
        ),
{
    let x = finding_at(
        "js/no-hardcoded-secret"@,
        Severity::High,
        Some("CWE-798"@),
        "Hardcoded secret assigned to '"@ + text_of(source, tree, l)
            + "' — use environment variables instead"@,
        tree.nodes@[i as int],
        source,
    );
    reveal_strlit("assignment_expression");
    reveal_strlit("variable_declarator");
    assert("assignment_expression"@.len() != "variable_declarator"@.len());
    assert(secret_binding(source, tree, i, "variable_declarator"@, "name"@, "value"@) is None);
    assert(secret_binding(source, tree, i, "assignment_expression"@, "left"@, "right"@) == Some(
        text_of(source, tree, l),
    ));
    let at = no_hardcoded_secret_at(source, tree, i);
    assert(at[0] == x);
    lemma_flat_map_contains(walk_order(tree), |j: usize| no_hardcoded_secret_at(source, tree, j), i, x);
}

} // verus!
