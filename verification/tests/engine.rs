use std::collections::HashMap;

use foxguard::engine::order::sort_findings;
use foxguard::engine::scanner::{
    detect_language, filter_by_severity, is_minified, is_noise_name, is_noise_path,
    language_for_extension, scan_parsed, scan_source, scan_tree, severity_counts, within_size_limit,
    DEFAULT_MAX_FILE_SIZE,
};
use foxguard::ignore::{apply_inline_ignores, inline_ignore_directives, InlineIgnoreSpec};
use foxguard::parse::parse_source;
use foxguard::{Finding, Language, Severity};

fn finding(rule_id: &str, severity: Severity, file: &str, line: usize, column: usize) -> Finding {
    Finding {
        rule_id: rule_id.to_string(),
        severity,
        cwe: None,
        description: format!("{} at {}:{}", rule_id, line, column),
        file: file.to_string(),
        line,
        column,
        end_line: line,
        end_column: column + 1,
        snippet: String::new(),
    }
}

fn places(findings: &[Finding]) -> Vec<(String, usize, usize)> {
    findings.iter().map(|f| (f.file.clone(), f.line, f.column)).collect()
}

// ── Language detection and file selection ─────────────────────────

#[test]
fn detect_language_by_extension() {
    assert_eq!(detect_language("src/app.py"), Some(Language::Python));
    assert_eq!(detect_language("tool.pyw"), Some(Language::Python));
    assert_eq!(detect_language("web/index.tsx"), Some(Language::JavaScript));
    assert_eq!(detect_language("lib/mod.cjs"), Some(Language::JavaScript));
    assert_eq!(detect_language("main.go"), Some(Language::Go));
    assert_eq!(detect_language("Rakefile.rake"), Some(Language::Ruby));
    assert_eq!(detect_language("A.java"), Some(Language::Java));
    assert_eq!(detect_language("index.php"), Some(Language::Php));
    assert_eq!(detect_language("lib.rs"), Some(Language::Rust));
    assert_eq!(detect_language("Program.cs"), Some(Language::CSharp));
    assert_eq!(detect_language("App.swift"), Some(Language::Swift));
}

#[test]
fn detect_language_without_known_extension() {
    assert_eq!(detect_language("Makefile"), None);
    assert_eq!(detect_language(".gitignore"), None);
    assert_eq!(detect_language("notes.txt"), None);
    assert_eq!(detect_language("archive.py.bak"), None);
    assert_eq!(detect_language("dir.py/README"), None);
}

#[test]
fn detect_language_of_plain_file_names() {
    assert_eq!(detect_language("app.py"), Some(Language::Python));
    assert_eq!(detect_language(".env.py"), Some(Language::Python));
    assert_eq!(detect_language("x.tar.js"), Some(Language::JavaScript));
    assert_eq!(detect_language(".py"), None);
    assert_eq!(detect_language("script."), None);
    assert_eq!(detect_language(".."), None);
    assert_eq!(detect_language(""), None);
    assert_eq!(detect_language("src/.hidden"), None);
    assert_eq!(detect_language("a.b/c"), None);
    assert_eq!(detect_language("./web/v1.2/app.jsx"), Some(Language::JavaScript));
}

#[test]
fn language_for_extension_table() {
    assert_eq!(language_for_extension(Some("mjs")), Some(Language::JavaScript));
    assert_eq!(language_for_extension(Some("gemspec")), Some(Language::Ruby));
    assert_eq!(language_for_extension(Some("PY")), None);
    assert_eq!(language_for_extension(Some("")), None);
    assert_eq!(language_for_extension(None), None);
}

#[test]
fn noise_paths_are_skipped() {
    assert!(is_noise_path("proj/node_modules/lib/index.js"));
    assert!(is_noise_path("proj/vendor/x.py"));
    assert!(is_noise_path("./.next/server/page.js"));
    assert!(is_noise_path("proj/src/app.min.js"));
    assert!(!is_noise_path("proj/src/app.js"));
    assert!(!is_noise_path("build.min.d/app.js"));
    assert!(is_noise_path("vendor/x.py"));
    assert!(is_noise_path("dist/bundle.js"));
    assert!(!is_noise_path("src/vendors/a.js"));
    assert!(!is_noise_path("src/rebuild.js"));
    assert!(!is_noise_path("vendored.py"));
    assert!(is_noise_path("lib.min.js"));
}

#[test]
fn noise_name_reads_the_file_name_it_is_given() {
    assert!(is_noise_name("a/b.js", Some("b.min.js")));
    assert!(!is_noise_name("a.min.d/b.js", Some("b.js")));
    assert!(!is_noise_name("a/b.js", None));
    assert!(is_noise_name("x/__mocks__/b.js", None));
}

#[test]
fn minified_detection_thresholds() {
    assert!(!is_minified(&"a".repeat(1999)));
    assert!(!is_minified(&"a".repeat(2000)));
    assert!(is_minified(&"a".repeat(2001)));
    let long_first_line = format!("{}\n{}", "a".repeat(1001), "b\n".repeat(600));
    assert!(is_minified(&long_first_line));
    let short_lines = "let x = 1;\n".repeat(300);
    assert!(!is_minified(&short_lines));
    let wide = format!("{}\n{}\n{}", "a".repeat(900), "b".repeat(900), "c".repeat(900));
    assert!(is_minified(&wide));
    let edge = format!("{}\n{}\n", "a".repeat(999), "b".repeat(1001));
    assert!(is_minified(&edge));
    let avg_exactly = format!("{}\n", "a".repeat(299)).repeat(7);
    assert!(!is_minified(&avg_exactly));
}

#[test]
fn size_limit_fails_closed() {
    assert!(within_size_limit(Some(10), 10));
    assert!(!within_size_limit(Some(11), 10));
    assert!(!within_size_limit(None, 10));
    assert!(within_size_limit(Some(DEFAULT_MAX_FILE_SIZE), DEFAULT_MAX_FILE_SIZE));
    assert_eq!(DEFAULT_MAX_FILE_SIZE, 1_048_576);
}

// ── Severity filter and counts ─────────────────────────────────────

#[test]
fn filter_by_severity_keeps_at_least_the_minimum() {
    let fs = vec![
        finding("a", Severity::Low, "f", 1, 1),
        finding("b", Severity::Critical, "f", 2, 1),
        finding("c", Severity::Medium, "f", 3, 1),
        finding("d", Severity::High, "f", 4, 1),
    ];
    let kept = filter_by_severity(fs.clone(), Severity::High);
    let ids: Vec<&str> = kept.iter().map(|f| f.rule_id.as_str()).collect();
    assert_eq!(ids, vec!["b", "d"]);
    assert_eq!(filter_by_severity(fs.clone(), Severity::Low).len(), 4);
    assert_eq!(filter_by_severity(fs, Severity::Critical).len(), 1);
}

#[test]
fn severity_counts_add_up() {
    let fs = vec![
        finding("a", Severity::Low, "f", 1, 1),
        finding("b", Severity::Critical, "f", 2, 1),
        finding("c", Severity::Critical, "f", 3, 1),
        finding("d", Severity::High, "f", 4, 1),
    ];
    let c = severity_counts(&fs);
    assert_eq!((c.critical, c.high, c.medium, c.low), (2, 1, 0, 1));
    assert_eq!(c.critical + c.high + c.medium + c.low, fs.len());
    let empty = severity_counts(&[]);
    assert_eq!((empty.critical, empty.high, empty.medium, empty.low), (0, 0, 0, 0));
}

#[test]
fn severity_order_and_rank() {
    assert!(Severity::Critical.at_least(Severity::High));
    assert!(Severity::Low.at_least(Severity::Low));
    assert!(!Severity::Medium.at_least(Severity::High));
    assert_eq!(Severity::Low.rank(), 0);
    assert_eq!(Severity::Critical.rank(), 3);
}

// ── Report order ───────────────────────────────────────────────────

#[test]
fn sort_orders_by_file_then_line_then_column() {
    let fs = vec![
        finding("x", Severity::Low, "b.py", 1, 1),
        finding("x", Severity::Low, "a.py", 9, 2),
        finding("x", Severity::Low, "a.py", 9, 1),
        finding("x", Severity::Low, "a.py", 3, 7),
        finding("x", Severity::Low, "a.pyw", 1, 1),
    ];
    let sorted = sort_findings(fs);
    assert_eq!(
        places(&sorted),
        vec![
            ("a.py".to_string(), 3, 7),
            ("a.py".to_string(), 9, 1),
            ("a.py".to_string(), 9, 2),
            ("a.pyw".to_string(), 1, 1),
            ("b.py".to_string(), 1, 1),
        ]
    );
}

#[test]
fn sort_keeps_the_order_of_findings_at_the_same_place() {
    let fs = vec![
        finding("second-rule", Severity::Low, "a.js", 2, 1),
        finding("first-rule", Severity::High, "a.js", 1, 1),
        finding("third-rule", Severity::Low, "a.js", 2, 1),
        finding("fourth-rule", Severity::Low, "a.js", 2, 1),
    ];
    let sorted = sort_findings(fs);
    let ids: Vec<&str> = sorted.iter().map(|f| f.rule_id.as_str()).collect();
    assert_eq!(ids, vec!["first-rule", "second-rule", "third-rule", "fourth-rule"]);
}

#[test]
fn sort_compares_file_names_by_characters() {
    let fs = vec![
        finding("x", Severity::Low, "é.py", 1, 1),
        finding("x", Severity::Low, "z.py", 1, 1),
        finding("x", Severity::Low, "Z.py", 1, 1),
        finding("x", Severity::Low, "", 1, 1),
    ];
    let files: Vec<String> = sort_findings(fs).iter().map(|f| f.file.clone()).collect();
    let mut expected = files.clone();
    expected.sort();
    assert_eq!(files, expected);
    assert_eq!(files, vec!["", "Z.py", "z.py", "é.py"]);
}

#[test]
fn sorting_a_sorted_report_changes_nothing() {
    let fs = vec![
        finding("b", Severity::Low, "a.py", 2, 1),
        finding("a", Severity::Low, "a.py", 1, 1),
        finding("c", Severity::Low, "a.py", 1, 1),
    ];
    let once = sort_findings(fs);
    let twice = sort_findings(once.clone());
    assert_eq!(places(&once), places(&twice));
    let ids: Vec<&str> = twice.iter().map(|f| f.rule_id.as_str()).collect();
    assert_eq!(ids, vec!["a", "c", "b"]);
}

#[test]
fn sort_of_nothing_is_nothing() {
    assert!(sort_findings(Vec::new()).is_empty());
}

// ── Whole files ────────────────────────────────────────────────────

#[test]
fn scan_source_reports_rule_findings_in_the_file() {
    let src = "import os\nx = eval(data)\npassword = \"hunter2hunter2\"\n";
    let found = scan_source(src, Language::Python, "app/main.py");
    let ids: Vec<&str> = found.iter().map(|f| f.rule_id.as_str()).collect();
    assert_eq!(ids, vec!["py/no-eval", "py/no-hardcoded-secret"]);
    assert!(found.iter().all(|f| f.file == "app/main.py"));
}

#[test]
fn scan_source_honours_inline_directives() {
    let src = "eval(a); // foxguard: ignore\n// foxguard: ignore[js/no-eval]\neval(b);\neval(c); // foxguard: ignore[js/no-sql-injection]\neval(d);\n";
    let found = scan_source(src, Language::JavaScript, "a.js");
    let lines: Vec<usize> = found.iter().map(|f| f.line).collect();
    assert_eq!(lines, vec![4, 5]);
}

#[test]
fn scan_source_skips_minified_files() {
    let src = format!("eval(x);{}", " ".repeat(2100));
    assert!(scan_source(&src, Language::JavaScript, "bundle.js").is_empty());
}

#[test]
fn scan_source_has_no_rules_for_other_languages() {
    assert!(scan_source("eval(x)\n", Language::Go, "main.go").is_empty());
}

#[test]
fn scan_tree_runs_rules_in_order_and_applies_directives() {
    let src = "el.innerHTML = x; eval(y);\nexec(cmd);\n";
    let tree = parse_source(src, Language::JavaScript).unwrap();
    let none: HashMap<usize, InlineIgnoreSpec> = HashMap::new();
    let all = scan_tree(src, &tree, Language::JavaScript, "w.js", &none);
    let ids: Vec<&str> = all.iter().map(|f| f.rule_id.as_str()).collect();
    assert_eq!(ids, vec!["js/no-eval", "js/no-xss-innerhtml", "js/no-command-injection"]);
    let mut d = HashMap::new();
    d.insert(1, InlineIgnoreSpec { all_rules: false, rule_ids: vec!["js/no-eval".to_string()] });
    let some = scan_tree(src, &tree, Language::JavaScript, "w.js", &d);
    let ids: Vec<&str> = some.iter().map(|f| f.rule_id.as_str()).collect();
    assert_eq!(ids, vec!["js/no-xss-innerhtml", "js/no-command-injection"]);
}

// ── Laws on concrete values ────────────────────────────────────────

#[test]
fn merged_directives_silence_what_either_silences() {
    let mut a = InlineIgnoreSpec { all_rules: false, rule_ids: vec!["x".to_string()] };
    let b = InlineIgnoreSpec { all_rules: false, rule_ids: vec!["y".to_string()] };
    a.merge(b);
    assert!(a.matches("x") && a.matches("y") && !a.matches("z"));
    let mut c = InlineIgnoreSpec::default();
    assert!(!c.matches("x"));
    c.merge(InlineIgnoreSpec { all_rules: true, rule_ids: Vec::new() });
    assert!(c.matches("anything"));
}

#[test]
fn applying_directives_twice_silences_nothing_more() {
    let src = "x = 1  # foxguard: ignore[r1]\ny = 2\n";
    let d = inline_ignore_directives(src, Language::Python);
    let fs = vec![
        finding("r1", Severity::Low, "f", 1, 1),
        finding("r2", Severity::Low, "f", 1, 1),
        finding("r1", Severity::Low, "f", 2, 1),
    ];
    let once = apply_inline_ignores(fs, &d);
    assert_eq!(once.len(), 2);
    let twice = apply_inline_ignores(once.clone(), &d);
    assert_eq!(places(&once), places(&twice));
}

#[test]
fn standalone_directive_silences_the_next_code_line_only() {
    let src = "# foxguard: ignore\n\n# note\nx = eval(a)\ny = eval(b)\n";
    let found = scan_source(src, Language::Python, "f.py");
    let lines: Vec<usize> = found.iter().map(|f| f.line).collect();
    assert_eq!(lines, vec![5]);
}

#[test]
fn directives_list_each_rule_once() {
    let (_, spec) = foxguard::ignore::parse_inline_ignore("x()  # foxguard: ignore[a, b, a]", Language::Python).unwrap();
    assert_eq!(spec.rule_ids, vec!["a".to_string(), "b".to_string()]);
    let mut merged = InlineIgnoreSpec { all_rules: false, rule_ids: vec!["a".to_string()] };
    merged.merge(InlineIgnoreSpec { all_rules: false, rule_ids: vec!["b".to_string(), "a".to_string()] });
    assert_eq!(merged.rule_ids, vec!["a".to_string(), "b".to_string()]);
}

#[test]
fn scan_parsed_yields_nothing_for_a_rejected_file() {
    assert!(scan_parsed("eval(x);\n", Language::JavaScript, "a.js", None).is_empty());
    let src = "eval(x);\n";
    let tree = parse_source(src, Language::JavaScript);
    let found = scan_parsed(src, Language::JavaScript, "a.js", tree);
    assert_eq!(found.len(), 1);
    assert_eq!(found[0].file, "a.js");
}
