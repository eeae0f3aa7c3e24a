use foxguard::parse::parse_source;
use foxguard::rules::{javascript, python};
use foxguard::syntax::SyntaxTree;
use foxguard::{Finding, Language, Severity};

fn tree(source: &str, language: Language) -> SyntaxTree {
    parse_source(source, language).expect("source parses")
}

fn py(source: &str) -> SyntaxTree {
    tree(source, Language::Python)
}

fn js(source: &str) -> SyntaxTree {
    tree(source, Language::JavaScript)
}

fn descriptions(findings: &[Finding]) -> Vec<String> {
    findings.iter().map(|f| f.description.clone()).collect()
}

// ── Python ──────────────────────────────────────────────────────────

#[test]
fn py_eval_call_is_reported_with_position_and_snippet() {
    let src = "import os\nx = eval(data)\n";
    let t = py(src);
    let found = python::NoEval.check(src, &t);
    assert_eq!(found.len(), 1);
    let f = &found[0];
    assert_eq!(f.rule_id, "py/no-eval");
    assert_eq!(f.severity, Severity::Critical);
    assert_eq!(f.cwe.as_deref(), Some("CWE-95"));
    assert_eq!(
        f.description,
        "eval() allows arbitrary code execution — avoid using it with untrusted input"
    );
    assert_eq!(f.file, "");
    assert_eq!((f.line, f.column, f.end_line, f.end_column), (2, 5, 2, 15));
    assert_eq!(f.snippet, "x = eval(data)");
}

#[test]
fn py_exec_call_is_reported_and_other_calls_are_not() {
    let src = "exec(code)\nprint(code)\nobj.eval(code)\n";
    let found = python::NoEval.check(src, &py(src));
    assert_eq!(
        descriptions(&found),
        vec!["exec() allows arbitrary code execution — avoid using it with untrusted input"]
    );
}

#[test]
fn py_rule_metadata() {
    assert_eq!(python::NoEval.id(), "py/no-eval");
    assert_eq!(python::NoEval.description(), "Use of eval()/exec() allows arbitrary code execution");
    assert_eq!(python::NoEval.language(), Language::Python);
    assert_eq!(python::NoHardcodedSecret.id(), "py/no-hardcoded-secret");
    assert_eq!(python::NoHardcodedSecret.severity(), Severity::High);
    assert_eq!(python::NoHardcodedSecret.cwe(), Some("CWE-798"));
    assert_eq!(python::NoSqlInjection.id(), "py/no-sql-injection");
    assert_eq!(python::NoSqlInjection.cwe(), Some("CWE-89"));
    assert_eq!(python::NoSqlInjection.description(), "Potential SQL injection via string formatting");
}

#[test]
fn py_hardcoded_secret_is_reported() {
    let src = "DB_PASSWORD = \"hunter2hunter2\"\n";
    let found = python::NoHardcodedSecret.check(src, &py(src));
    assert_eq!(found.len(), 1);
    assert_eq!(
        found[0].description,
        "Hardcoded secret in 'DB_PASSWORD' — use environment variables or a secrets manager"
    );
    assert_eq!(found[0].rule_id, "py/no-hardcoded-secret");
    assert_eq!(found[0].snippet, "DB_PASSWORD = \"hunter2hunter2\"");
}

#[test]
fn py_short_or_empty_secret_values_are_not_reported() {
    let src = "password = \"\"\ntoken = 'abc'\napi_key = f'abcd'\nusername = \"someone\"\n";
    let found = python::NoHardcodedSecret.check(src, &py(src));
    assert_eq!(descriptions(&found), vec!["Hardcoded secret in 'api_key' — use environment variables or a secrets manager"]);
}

#[test]
fn py_secret_assigned_from_variable_is_not_reported() {
    let src = "secret = os.environ[\"SECRET\"]\n";
    assert!(python::NoHardcodedSecret.check(src, &py(src)).is_empty());
}

#[test]
fn py_sql_injection_forms_are_each_reported() {
    let src = "a = f\"SELECT * FROM users WHERE id = {uid}\"\nb = \"SELECT * FROM users WHERE id = %s\" % uid\nc = \"DELETE FROM users WHERE id = {}\".format(uid)\nd = \"select name from users where id = \" + uid\n";
    let found = python::NoSqlInjection.check(src, &py(src));
    assert_eq!(
        descriptions(&found),
        vec![
            "SQL query built with f-string — use parameterized queries",
            "SQL query built with % formatting — use parameterized queries",
            "SQL query built with .format() — use parameterized queries",
            "SQL query built with string concatenation — use parameterized queries",
        ]
    );
    let lines: Vec<usize> = found.iter().map(|f| f.line).collect();
    assert_eq!(lines, vec![1, 2, 3, 4]);
}

#[test]
fn py_plain_strings_are_not_sql_injection() {
    let src = "a = \"SELECT * FROM users\"\nb = \"hello \" + name\nc = \"id=%s\" % x\n";
    assert!(python::NoSqlInjection.check(src, &py(src)).is_empty());
}

// ── JavaScript ──────────────────────────────────────────────────────

#[test]
fn js_eval_is_reported() {
    let src = "const x = 1;\neval(code);\nobj.eval(code);\n";
    let found = javascript::NoEval.check(src, &js(src));
    assert_eq!(found.len(), 1);
    assert_eq!(found[0].rule_id, "js/no-eval");
    assert_eq!(found[0].description, "Use of eval() allows arbitrary code execution");
    assert_eq!((found[0].line, found[0].column), (2, 1));
    assert_eq!(found[0].snippet, "eval(code);");
}

#[test]
fn js_rule_metadata() {
    assert_eq!(javascript::NoEval.language(), Language::JavaScript);
    assert_eq!(javascript::NoHardcodedSecret.id(), "js/no-hardcoded-secret");
    assert_eq!(javascript::NoSqlInjection.description(), "Potential SQL injection via string concatenation or template literal");
    assert_eq!(javascript::NoXssInnerHtml.id(), "js/no-xss-innerhtml");
    assert_eq!(javascript::NoXssInnerHtml.cwe(), Some("CWE-79"));
    assert_eq!(javascript::NoCommandInjection.id(), "js/no-command-injection");
    assert_eq!(javascript::NoCommandInjection.cwe(), Some("CWE-78"));
    assert_eq!(javascript::NoCommandInjection.severity(), Severity::Critical);
}

#[test]
fn js_hardcoded_secrets_in_declarations_and_assignments() {
    let src = "const password = \"supersecret\";\nconfig.API_KEY = `abcd1234`;\nlet token = '';\nconst name = \"not a secret\";\n";
    let found = javascript::NoHardcodedSecret.check(src, &js(src));
    assert_eq!(
        descriptions(&found),
        vec![
            "Hardcoded secret in variable 'password' — avoid committing credentials",
            "Hardcoded secret assigned to 'config.API_KEY' — use environment variables instead",
        ]
    );
    assert_eq!(found[0].severity, Severity::High);
}

#[test]
fn js_sql_concatenation_and_template_interpolation() {
    let src = "db.query(\"SELECT * FROM users WHERE id = \" + id);\ndb.query(`SELECT * FROM users WHERE id = ${id}`);\ndb.query(`SELECT * FROM users`);\ndb.query(\"hello \" + id);\n";
    let found = javascript::NoSqlInjection.check(src, &js(src));
    assert_eq!(
        descriptions(&found),
        vec![
            "SQL query built with string concatenation — use parameterized queries",
            "SQL query built with template literal interpolation — use parameterized queries",
        ]
    );
    assert_eq!(found[1].line, 2);
}

#[test]
fn js_inner_html_with_dynamic_content() {
    let src = "el.innerHTML = userInput;\nel.outerHTML = `<b>${x}</b>`;\nel.innerHTML = \"<b>static</b>\";\nel.textContent = userInput;\n";
    let found = javascript::NoXssInnerHtml.check(src, &js(src));
    assert_eq!(
        descriptions(&found),
        vec![
            "Assignment to innerHTML with dynamic content — use textContent or sanitize HTML",
            "Assignment to outerHTML with dynamic content — use textContent or sanitize HTML",
        ]
    );
}

#[test]
fn js_command_injection_with_dynamic_arguments() {
    let src = "child_process.exec(cmd);\nexec(\"ls -la\");\nspawn(`ls ${dir}`);\nexecSync(`ls`);\ncp.execFileSync(\"git \" + args);\nrun(cmd);\n";
    let found = javascript::NoCommandInjection.check(src, &js(src));
    assert_eq!(
        descriptions(&found),
        vec![
            "exec() called with dynamic argument — risk of command injection",
            "spawn() called with dynamic argument — risk of command injection",
            "execFileSync() called with dynamic argument — risk of command injection",
        ]
    );
    let lines: Vec<usize> = found.iter().map(|f| f.line).collect();
    assert_eq!(lines, vec![1, 3, 5]);
}

#[test]
fn js_nested_findings_come_in_walk_order() {
    let src = "eval(eval(a));\n";
    let found = javascript::NoEval.check(src, &js(src));
    let columns: Vec<usize> = found.iter().map(|f| f.column).collect();
    assert_eq!(columns, vec![1, 6]);
}

// ── Source lines ───────────────────────────────────────────────────

#[test]
fn get_source_line_returns_the_whole_line() {
    let src = "first\nsecond line\nthird";
    assert_eq!(python::get_source_line(src, 0), "first");
    assert_eq!(python::get_source_line(src, 6), "second line");
    assert_eq!(python::get_source_line(src, 10), "second line");
    assert_eq!(javascript::get_source_line(src, 18), "third");
    assert_eq!(javascript::get_source_line(src, src.len()), "third");
    assert_eq!(javascript::get_source_line(src, 5), "first");
}

#[test]
fn get_source_line_handles_multibyte_text() {
    let src = "é = 1\nλ = eval(x)\n";
    let off = src.find("eval").unwrap();
    assert_eq!(python::get_source_line(src, off), "λ = eval(x)");
}

// ── Parsing ────────────────────────────────────────────────────────

#[test]
fn parse_source_builds_a_tree_rooted_at_the_module() {
    let t = py("x = 1\n");
    assert_eq!(t.nodes[0].kind, "module");
    for (i, n) in t.nodes.iter().enumerate() {
        for &c in &n.children {
            assert!(c > i && c < t.nodes.len());
        }
    }
    let t = js("let x = 1;\n");
    assert_eq!(t.nodes[0].kind, "program");
}

#[test]
fn parse_source_has_no_grammar_for_other_languages() {
    assert!(parse_source("package main\n", Language::Go).is_none());
    assert!(parse_source("fn main() {}\n", Language::Rust).is_none());
}

// ── Eval with a fixed argument ─────────────────────────────────────

#[test]
fn js_eval_with_a_literal_is_told_apart_from_dynamic_input() {
    let src = "eval(userInput);\neval('literal');\neval(`template`);\neval(`${x}`);\neval('a', b);\n";
    let found = javascript::NoEval.check(src, &js(src));
    let lines: Vec<usize> = found.iter().map(|f| f.line).collect();
    assert_eq!(lines, vec![1, 4, 5]);
    assert!(found.iter().all(|f| f.rule_id == "js/no-eval"));
}

#[test]
fn py_eval_with_a_literal_is_not_reported() {
    let src = "eval(\"1 + 1\")\nexec('print(1)')\neval(f\"{x}\")\neval(s)\neval('a', g)\n";
    let found = python::NoEval.check(src, &py(src));
    let lines: Vec<usize> = found.iter().map(|f| f.line).collect();
    assert_eq!(lines, vec![3, 4, 5]);
}

#[test]
fn parse_source_numbers_nodes_in_preorder() {
    let src = "x = f(1)\ny = 2\n";
    let t = py(src);
    let order = foxguard::syntax::walk_tree(&t, src);
    let expected: Vec<usize> = (0..t.nodes.len()).collect();
    assert_eq!(order, expected);
    assert_eq!(t.nodes[0].kind, "module");
    assert_eq!(t.nodes[0].children.len(), 2);
    assert_eq!(t.nodes[1].kind, "expression_statement");
    assert_eq!(t.nodes[2].kind, "assignment");
    let assign = &t.nodes[2];
    let fields: Vec<&str> = assign.fields.iter().map(|f| f.name.as_str()).collect();
    assert_eq!(fields, vec!["left", "right"]);
    assert_eq!(t.nodes[assign.fields[0].child].kind, "identifier");
    assert_eq!(t.nodes[assign.fields[1].child].kind, "call");
    assert_eq!((t.nodes[2].start_byte, t.nodes[2].end_byte), (0, 8));
    assert_eq!((t.nodes[2].end_row, t.nodes[2].end_column), (0, 8));
}

#[test]
fn severity_labels() {
    assert_eq!(Severity::Critical.label(), "CRITICAL");
    assert_eq!(Severity::Low.label(), "LOW");
    assert_eq!(Severity::High.sarif_level(), "error");
    assert_eq!(Severity::Medium.sarif_level(), "warning");
    assert_eq!(Severity::Low.sarif_level(), "note");
}
