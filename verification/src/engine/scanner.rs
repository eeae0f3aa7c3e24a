//! Deciding which files to scan and turning a file's text into findings.

use vstd::prelude::*;
use vstd::string::StringSliceAdditionalSpecFns;

use std::collections::HashMap;

use crate::finding::{findings_view, severity_rank, Finding, FindingView, Language, Severity};
use crate::ignore::{
    apply_inline_ignores, directives_view, ignore_directives, ignore_matches,
    inline_ignore_directives, law_directive_silences_target, line_target, starts_with, suppressed,
    IgnoreView, InlineIgnoreSpec,
};
use crate::parse::{parse_ok, parse_source, tree_of_facts};
use crate::rules::pattern::regex_compiles;
use crate::rules::javascript::after_last_dot;
use crate::rules::{append_all, javascript, python, secret_pattern, sql_pattern};
use crate::syntax::SyntaxTree;
use crate::text::{chars_of, contains_str, contains_text, lines, occurs_at, str_eq};

verus! {

/// The largest file that is scanned by default, in bytes (1 MB).
pub const DEFAULT_MAX_FILE_SIZE: u64 = 1048576;

/// The language of a file extension.
pub open spec fn language_of_extension(ext: Seq<char>) -> Option<Language> {
    if ext == "js"@ || ext == "jsx"@ || ext == "ts"@ || ext == "tsx"@ || ext == "mjs"@ || ext
        == "cjs"@ {
        Some(Language::JavaScript)
    } else if ext == "py"@ || ext == "pyw"@ {
        Some(Language::Python)
    } else if ext == "go"@ {
        Some(Language::Go)
    } else if ext == "rb"@ || ext == "rake"@ || ext == "gemspec"@ {
        Some(Language::Ruby)
    } else if ext == "java"@ {
        Some(Language::Java)
    } else if ext == "php"@ {
        Some(Language::Php)
    } else if ext == "rs"@ {
        Some(Language::Rust)
    } else if ext == "cs"@ {
        Some(Language::CSharp)
    } else if ext == "swift"@ {
        Some(Language::Swift)
    } else {
        None
    }
}

/// The extension table, literal by literal.
proof fn lemma_extension_table(e: Seq<char>)
    ensures
        (e == "js"@ || e == "jsx"@ || e == "ts"@ || e == "tsx"@ || e == "mjs"@ ||
            e == "cjs"@) ==> language_of_extension(e) == Some(Language::JavaScript),
        (e == "py"@ || e == "pyw"@) ==> language_of_extension(e) == Some(Language::Python),
        (e == "go"@) ==> language_of_extension(e) == Some(Language::Go),
        (e == "rb"@ || e == "rake"@ ||
            e == "gemspec"@) ==> language_of_extension(e) == Some(Language::Ruby),
        (e == "java"@) ==> language_of_extension(e) == Some(Language::Java),
        (e == "php"@) ==> language_of_extension(e) == Some(Language::Php),
        (e == "rs"@) ==> language_of_extension(e) == Some(Language::Rust),
        (e == "cs"@) ==> language_of_extension(e) == Some(Language::CSharp),
        (e == "swift"@) ==> language_of_extension(e) == Some(Language::Swift),
        language_of_extension(e) is Some ==> (e == "js"@ || e == "jsx"@ || e == "ts"@ || e == "tsx"@ ||
            e == "mjs"@ || e == "cjs"@ || e == "py"@ || e == "pyw"@ || e == "go"@ || e == "rb"@ ||
            e == "rake"@ || e == "gemspec"@ || e == "java"@ || e == "php"@ || e == "rs"@ ||
            e == "cs"@ || e == "swift"@),
{
    reveal_strlit("js");
    reveal_strlit("jsx");
    reveal_strlit("ts");
    reveal_strlit("tsx");
    reveal_strlit("mjs");
    reveal_strlit("cjs");
    reveal_strlit("py");
    reveal_strlit("pyw");
    reveal_strlit("go");
    reveal_strlit("rb");
    reveal_strlit("rake");
    reveal_strlit("gemspec");
    reveal_strlit("java");
    reveal_strlit("php");
    reveal_strlit("rs");
    reveal_strlit("cs");
    reveal_strlit("swift");
    if e == "js"@ {
        assert(e =~= seq!['j', 's']);
    }
    if e == "jsx"@ {
        assert(e =~= seq!['j', 's', 'x']);
    }
    if e == "ts"@ {
        assert(e =~= seq!['t', 's']);
    }
    if e == "tsx"@ {
        assert(e =~= seq!['t', 's', 'x']);
    }
    if e == "mjs"@ {
        assert(e =~= seq!['m', 'j', 's']);
    }
    if e == "cjs"@ {
        assert(e =~= seq!['c', 'j', 's']);
    }
    if e == "py"@ {
        assert(e =~= seq!['p', 'y']);
    }
    if e == "pyw"@ {
        assert(e =~= seq!['p', 'y', 'w']);
    }
    if e == "go"@ {
        assert(e =~= seq!['g', 'o']);
    }
    if e == "rb"@ {
        assert(e =~= seq!['r', 'b']);
    }
    if e == "rake"@ {
        assert(e =~= seq!['r', 'a', 'k', 'e']);
    }
    if e == "gemspec"@ {
        assert(e =~= seq!['g', 'e', 'm', 's', 'p', 'e', 'c']);
    }
    if e == "java"@ {
        assert(e =~= seq!['j', 'a', 'v', 'a']);
    }
    if e == "php"@ {
        assert(e =~= seq!['p', 'h', 'p']);
    }
    if e == "rs"@ {
        assert(e =~= seq!['r', 's']);
    }
    if e == "cs"@ {
        assert(e =~= seq!['c', 's']);
    }
    if e == "swift"@ {
        assert(e =~= seq!['s', 'w', 'i', 'f', 't']);
    }
}

/// The language of a file whose extension is `ext`, if it has one.
pub fn language_for_extension(ext: Option<&str>) -> (r: Option<Language>)
    ensures
        r == match ext {
            Some(e) => language_of_extension(e@),
            None => None,
        },
        ext matches Some(e) && (e@ == "js"@ || e@ == "jsx"@ || e@ == "ts"@ || e@ == "tsx"@ ||
            e@ == "mjs"@ || e@ == "cjs"@) ==> r == Some(Language::JavaScript),
        ext matches Some(e) && (e@ == "py"@ || e@ == "pyw"@) ==> r == Some(Language::Python),
        ext matches Some(e) && (e@ == "go"@) ==> r == Some(Language::Go),
        ext matches Some(e) && (e@ == "rb"@ || e@ == "rake"@ ||
            e@ == "gemspec"@) ==> r == Some(Language::Ruby),
        ext matches Some(e) && (e@ == "java"@) ==> r == Some(Language::Java),
        ext matches Some(e) && (e@ == "php"@) ==> r == Some(Language::Php),
        ext matches Some(e) && (e@ == "rs"@) ==> r == Some(Language::Rust),
        ext matches Some(e) && (e@ == "cs"@) ==> r == Some(Language::CSharp),
        ext matches Some(e) && (e@ == "swift"@) ==> r == Some(Language::Swift),
        r is Some ==> (ext matches Some(e) && (e@ == "js"@ || e@ == "jsx"@ || e@ == "ts"@ ||
            e@ == "tsx"@ || e@ == "mjs"@ || e@ == "cjs"@ || e@ == "py"@ || e@ == "pyw"@ ||
            e@ == "go"@ || e@ == "rb"@ || e@ == "rake"@ || e@ == "gemspec"@ || e@ == "java"@ ||
            e@ == "php"@ || e@ == "rs"@ || e@ == "cs"@ || e@ == "swift"@)),
{
    proof {
        if let Some(e) = ext {
            lemma_extension_table(e@);
        }
    }
    let e = match ext {
        Some(e) => e,
        None => return None,
    };
    if str_eq(e, "js") || str_eq(e, "jsx") || str_eq(e, "ts") || str_eq(e, "tsx") || str_eq(e, "mjs")
        || str_eq(e, "cjs") {
        Some(Language::JavaScript)
    } else if str_eq(e, "py") || str_eq(e, "pyw") {
        Some(Language::Python)
    } else if str_eq(e, "go") {
        Some(Language::Go)
    } else if str_eq(e, "rb") || str_eq(e, "rake") || str_eq(e, "gemspec") {
        Some(Language::Ruby)
    } else if str_eq(e, "java") {
        Some(Language::Java)
    } else if str_eq(e, "php") {
        Some(Language::Php)
    } else if str_eq(e, "rs") {
        Some(Language::Rust)
    } else if str_eq(e, "cs") {
        Some(Language::CSharp)
    } else if str_eq(e, "swift") {
        Some(Language::Swift)
    } else {
        None
    }
}

/// The part of `p` after its last `/`, or all of `p`.
pub open spec fn after_last_slash(p: Seq<char>) -> Seq<char>
    decreases p.len(),
{
    if p.len() == 0 {
        p
    } else if p.last() == '/' {
        seq![]
    } else {
        after_last_slash(p.drop_last()).push(p.last())
    }
}

/// A path whose components only `/` separates on every platform and whose
/// last component is the part after its last `/`: it holds no backslash and
/// no `:`, does not begin with `//`, and its part after the last `/` is
/// neither empty nor `.` nor `..`.
pub open spec fn slash_path(p: Seq<char>) -> bool {
    &&& !p.contains('\\')
    &&& !p.contains(':')
    &&& !starts_with(p, "//"@)
    &&& after_last_slash(p).len() > 0
    &&& after_last_slash(p) != "."@
    &&& after_last_slash(p) != ".."@
}

/// `p` holds a `.` after its first character.
pub open spec fn has_inner_dot(p: Seq<char>) -> bool {
    exists|k: int| 1 <= k < p.len() && p[k] == '.'
}

/// `std::path::Path::extension` of `path`, as text. Its documentation says
/// the extension is the part of the file name after the name's last `.`
/// (absent when the name has no `.` but a leading one), so it holds no `.`
/// and no `/` and follows a `.` in `path`. Which characters separate the
/// components depends on the platform, so which part comes back is not
/// stated in general. For a path that only `/` separates, the file name is
/// the part after the last `/`, and the documentation gives the extension
/// whole: the part of that name after its last `.`, absent when the name's
/// only `.` is its first character or it has none.
#[verifier::external_body]
fn path_extension(path: &str) -> (r: Option<String>)
    ensures
        r matches Some(e) ==> !e@.contains('.') && !e@.contains('/') && contains_text(
            path@,
            seq!['.'] + e@,
        ),
        !path@.contains('.') ==> r is None,
        slash_path(path@) && has_inner_dot(after_last_slash(path@)) ==> r is Some,
        r matches Some(e) ==> (slash_path(path@) && has_inner_dot(after_last_slash(path@)) ==> e@
            == after_last_dot(after_last_slash(path@))),
        slash_path(path@) && !has_inner_dot(after_last_slash(path@)) ==> r is None,
{
    match std::path::Path::new(path).extension() {
        Some(e) => Some(e.to_string_lossy().into_owned()),
        None => None,
    }
}

/// The language of the file at `path`, by the extension of its name.
pub fn detect_language(path: &str) -> (r: Option<Language>)
    ensures
        !path@.contains('.') ==> r is None,
        slash_path(path@) ==> r == if has_inner_dot(after_last_slash(path@)) {
            language_of_extension(after_last_dot(after_last_slash(path@)))
        } else {
            None
        },
        r is Some ==> exists|e: Seq<char>|
            !e.contains('.') && contains_text(path@, seq!['.'] + e) && r
                == #[trigger] language_of_extension(e),
{
    let ext = path_extension(path);
    match ext {
        Some(e) => {
            let r = language_for_extension(Some(e.as_str()));
            assert(r == language_of_extension(e@));
            r
        },
        None => None,
    }
}

/// The directories whose files are tests, vendored code or build output.
pub open spec fn noise_dirs() -> Seq<Seq<char>> {
    seq![
        "/vendor/"@,
        "/node_modules/"@,
        "/__fixtures__/"@,
        "/__mocks__/"@,
        "/dist/"@,
        "/build/"@,
        "/.next/"@,
        "/coverage/"@,
        "/.cache/"@,
    ]
}

/// The noise directories as the first component of a path.
pub open spec fn noise_dir_starts() -> Seq<Seq<char>> {
    seq![
        "vendor/"@,
        "node_modules/"@,
        "__fixtures__/"@,
        "__mocks__/"@,
        "dist/"@,
        "build/"@,
        ".next/"@,
        "coverage/"@,
        ".cache/"@,
    ]
}

/// `path` lies in one of the noise directories: the directory stands after
/// a `/` or begins the path.
pub open spec fn in_noise_dir(path: Seq<char>) -> bool {
    exists|j: int|
        0 <= j < noise_dirs().len() && (contains_text(path, #[trigger] noise_dirs()[j])
            || starts_with(path, noise_dir_starts()[j]))
}

/// A file not worth scanning: it lies in a noise directory, or its name
/// marks it as minified (`.min.`).
pub open spec fn noise_name(path: Seq<char>, file_name: Option<Seq<char>>) -> bool {
    in_noise_dir(path) || (file_name matches Some(n) && contains_text(n, ".min."@))
}

/// Whether `s` begins with `m`.
fn starts_with_str(s: &str, m: &str) -> (r: bool)
    ensures
        r == starts_with(s@, m@),
{
    let a = chars_of(s);
    let b = chars_of(m);
    let r = occurs_at(a.as_slice(), b.as_slice(), 0);
    proof {
        if b@.len() <= a@.len() {
            assert(a@.take(b@.len() as int) =~= a@.subrange(0, b@.len() as int));
        }
    }
    r
}

/// Whether `path` lies in one of the noise directories.
fn in_noise_dir_exec(path: &str) -> (r: bool)
    ensures
        r == in_noise_dir(path@),
{
    let ghost d = noise_dirs();
    let ghost st = noise_dir_starts();
    let starts = [
        "vendor/",
        "node_modules/",
        "__fixtures__/",
        "__mocks__/",
        "dist/",
        "build/",
        ".next/",
        "coverage/",
        ".cache/",
    ];
    assert(starts@.len() == st.len());
    assert(forall|j: int| 0 <= j < st.len() ==> #[trigger] starts@[j]@ == st[j]);
    let dirs = [
        "/vendor/",
        "/node_modules/",
        "/__fixtures__/",
        "/__mocks__/",
        "/dist/",
        "/build/",
        "/.next/",
        "/coverage/",
        "/.cache/",
    ];
    assert(dirs@.len() == d.len());
    assert(forall|j: int| 0 <= j < d.len() ==> #[trigger] dirs@[j]@ == d[j]);
    let mut j: usize = 0;
    while j < 9
        invariant
            0 <= j <= 9,
            d == noise_dirs(),
            dirs@.len() == 9,
            forall|q: int| 0 <= q < d.len() ==> #[trigger] dirs@[q]@ == d[q],
            st == noise_dir_starts(),
            starts@.len() == 9,
            forall|q: int| 0 <= q < st.len() ==> #[trigger] starts@[q]@ == st[q],
            forall|q: int|
                0 <= q < j ==> !contains_text(path@, #[trigger] d[q]) && !starts_with(path@, st[q]),
        decreases 9 - j,
    {
        if contains_str(path, dirs[j]) || starts_with_str(path, starts[j]) {
            assert(contains_text(path@, d[j as int]) || starts_with(path@, st[j as int]));
            return true;
        }
        j = j + 1;
    }
    false
}

/// Whether the file at `path`, whose name is `file_name`, is not worth
/// scanning.
pub fn is_noise_name(path: &str, file_name: Option<&str>) -> (r: bool)
    ensures
        r == noise_name(
            path@,
            match file_name {
                Some(n) => Some(n@),
                None => None,
            },
        ),
{
    if in_noise_dir_exec(path) {
        return true;
    }
    match file_name {
        Some(n) => contains_str(n, ".min."),
        None => false,
    }
}

/// `std::path::Path::file_name` of `path`, as text. Its documentation says
/// it is the final component of the path, absent when the path ends in
/// `..`; a component is a part of the path and holds no `/`. Which
/// characters separate the components depends on the platform, so which
/// part comes back is not stated in general. For a path that only `/`
/// separates, whose last part is neither empty nor `.` nor `..`, the final
/// component is that last part.
#[verifier::external_body]
fn path_file_name(path: &str) -> (r: Option<String>)
    ensures
        r matches Some(n) ==> !n@.contains('/') && contains_text(path@, n@),
        slash_path(path@) ==> r is Some,
        r matches Some(n) ==> (slash_path(path@) ==> n@ == after_last_slash(path@)),
{
    match std::path::Path::new(path).file_name() {
        Some(n) => Some(n.to_string_lossy().into_owned()),
        None => None,
    }
}

/// An occurrence of an occurrence is an occurrence.
proof fn lemma_contains_text_trans(p: Seq<char>, n: Seq<char>, m: Seq<char>)
    requires
        contains_text(p, n),
        contains_text(n, m),
    ensures
        contains_text(p, m),
{
    let k1 = choose|k: int| 0 <= k && k + n.len() <= p.len() && #[trigger] p.subrange(k, k + n.len()) == n;
    let k2 = choose|k: int| 0 <= k && k + m.len() <= n.len() && #[trigger] n.subrange(k, k + m.len()) == m;
    assert(p.subrange(k1 + k2, k1 + k2 + m.len()) =~= n.subrange(k2, k2 + m.len()));
}

/// Whether the file at `path` lies in a directory of tests, vendored code or
/// build output, or is named as minified.
pub fn is_noise_path(path: &str) -> (r: bool)
    ensures
        in_noise_dir(path@) ==> r,
        r ==> in_noise_dir(path@) || contains_text(path@, ".min."@),
        slash_path(path@) ==> r == (in_noise_dir(path@) || contains_text(
            after_last_slash(path@),
            ".min."@,
        )),
{
    let name = path_file_name(path);
    match name {
        Some(n) => {
            let r = is_noise_name(path, Some(n.as_str()));
            proof {
                if r && !in_noise_dir(path@) {
                    lemma_contains_text_trans(path@, n@, ".min."@);
                }
            }
            r
        },
        None => is_noise_name(path, None),
    }
}


/// The number of newline bytes in `b`.
pub open spec fn newline_count(b: Seq<u8>) -> nat
    decreases b.len(),
{
    if b.len() == 0 {
        0
    } else {
        newline_count(b.drop_last()) + if b.last() == 10u8 {
            1nat
        } else {
            0nat
        }
    }
}

/// The position of the first newline byte of `b` at or after `i`, or the
/// length of `b`.
pub open spec fn first_newline(b: Seq<u8>, i: int) -> int
    decreases b.len() - i,
{
    if i >= b.len() {
        b.len() as int
    } else if b[i] == 10u8 {
        i
    } else {
        first_newline(b, i + 1)
    }
}

/// A file that looks minified: at least 2000 bytes, and a first line of
/// more than 1000 bytes, no newline at all past 2000 bytes, or lines of
/// more than 300 bytes on average.
pub open spec fn minified(b: Seq<u8>) -> bool {
    if b.len() < 2000 {
        false
    } else if first_newline(b, 0) == b.len() {
        b.len() > 2000
    } else if first_newline(b, 0) > 1000 {
        true
    } else {
        b.len() / (if newline_count(b) > 0 {
            newline_count(b)
        } else {
            1
        }) > 300
    }
}

/// Whether `source` looks like bundled or compiled code.
pub fn is_minified(source: &str) -> (r: bool)
    ensures
        r == minified(source.spec_bytes()),
{
    let b = source.as_bytes();
    let n = b.len();
    if n < 2000 {
        return false;
    }
    let mut first = n;
    let mut count: usize = 0;
    let mut k: usize = 0;
    while k < n
        invariant
            n == b@.len(),
            0 <= k <= n,
            count == newline_count(b@.take(k as int)),
            count <= k,
            first <= n,
            first == n ==> forall|q: int| 0 <= q < k ==> b@[q] != 10u8,
            first < n ==> first < k && b@[first as int] == 10u8 && forall|q: int|
                0 <= q < first ==> b@[q] != 10u8,
        decreases n - k,
    {
        assert(b@.take(k + 1).drop_last() =~= b@.take(k as int));
        if b[k] == 10u8 {
            count = count + 1;
            if first == n {
                first = k;
            }
        }
        k = k + 1;
    }
    assert(b@.take(n as int) =~= b@);
    proof {
        lemma_first_newline(b@, 0, first as int);
    }
    if first == n {
        return n > 2000;
    }
    if first > 1000 {
        return true;
    }
    let lines = if count > 0 {
        count
    } else {
        1
    };
    n / lines > 300
}

/// `first_newline` from `i` is the first newline byte after `i`.
proof fn lemma_first_newline(b: Seq<u8>, i: int, f: int)
    requires
        0 <= i <= f <= b.len(),
        f < b.len() ==> b[f] == 10u8,
        forall|q: int| i <= q < f ==> b[q] != 10u8,
    ensures
        first_newline(b, i) == f,
    decreases f - i,
{
    if i < f {
        lemma_first_newline(b, i + 1, f);
    }
}

/// Whether a file of `size` bytes, or of unknown size, may be scanned under
/// a limit of `max_file_size` bytes. A file whose size cannot be read is
/// skipped.
pub fn within_size_limit(size: Option<u64>, max_file_size: u64) -> (r: bool)
    ensures
        r == (size matches Some(s) && s <= max_file_size),
{
    match size {
        Some(s) => s <= max_file_size,
        None => false,
    }
}

/// The findings of at least severity `min`, in their order.
pub fn filter_by_severity(findings: Vec<Finding>, min: Severity) -> (r: Vec<Finding>)
    ensures
        findings_view(r@) == findings_view(findings@).filter(
            |f: FindingView| severity_rank(f.severity) >= severity_rank(min),
        ),
{
    let ghost pred = |f: FindingView| severity_rank(f.severity) >= severity_rank(min);
    let ghost all = findings_view(findings@);
    let mut kept: Vec<Finding> = Vec::new();
    for f in it: findings
        invariant
            all == findings_view(it.seq()),
            findings_view(kept@) == all.take(it.index() as int).filter(pred),
            pred == (|f: FindingView| severity_rank(f.severity) >= severity_rank(min)),
    {
        let ghost i = it.index();
        assert(f@ == all[i as int]);
        assert(all.take(i + 1) =~= all.take(i as int).push(all[i as int]));
        proof {
            all.take(i as int).lemma_filter_push(all[i as int], pred);
        }
        let ghost before = findings_view(kept@);
        if f.severity.at_least(min) {
            kept.push(f);
            assert(findings_view(kept@) =~= before.push(all[i as int]));
        }
    }
    assert(all.take(all.len() as int) =~= all);
    kept
}

/// How many findings there are of each severity.
pub struct SeverityCounts {
    pub critical: usize,
    pub high: usize,
    pub medium: usize,
    pub low: usize,
}

/// The number of findings of severity `s` in `fs`.
pub open spec fn count_of(fs: Seq<FindingView>, s: Severity) -> nat {
    fs.filter(|f: FindingView| f.severity == s).len()
}

/// The number of findings of each severity in `findings`.
pub fn severity_counts(findings: &[Finding]) -> (r: SeverityCounts)
    ensures
        r.critical == count_of(findings_view(findings@), Severity::Critical),
        r.high == count_of(findings_view(findings@), Severity::High),
        r.medium == count_of(findings_view(findings@), Severity::Medium),
        r.low == count_of(findings_view(findings@), Severity::Low),
        r.critical + r.high + r.medium + r.low == findings@.len(),
{
    let ghost all = findings_view(findings@);
    let ghost pc = |f: FindingView| f.severity == Severity::Critical;
    let ghost ph = |f: FindingView| f.severity == Severity::High;
    let ghost pm = |f: FindingView| f.severity == Severity::Medium;
    let ghost pl = |f: FindingView| f.severity == Severity::Low;
    let mut r = SeverityCounts { critical: 0, high: 0, medium: 0, low: 0 };
    let n = findings.len();
    let mut k: usize = 0;
    assert(all.take(0) =~= seq![]);
    while k < n
        invariant
            n == findings@.len(),
            all == findings_view(findings@),
            0 <= k <= n,
            pc == (|f: FindingView| f.severity == Severity::Critical),
            ph == (|f: FindingView| f.severity == Severity::High),
            pm == (|f: FindingView| f.severity == Severity::Medium),
            pl == (|f: FindingView| f.severity == Severity::Low),
            r.critical == all.take(k as int).filter(pc).len(),
            r.high == all.take(k as int).filter(ph).len(),
            r.medium == all.take(k as int).filter(pm).len(),
            r.low == all.take(k as int).filter(pl).len(),
            r.critical + r.high + r.medium + r.low == k,
        decreases n - k,
    {
        let ghost x = all[k as int];
        assert(all.take(k + 1) =~= all.take(k as int).push(x));
        proof {
            all.take(k as int).lemma_filter_push(x, pc);
            all.take(k as int).lemma_filter_push(x, ph);
            all.take(k as int).lemma_filter_push(x, pm);
            all.take(k as int).lemma_filter_push(x, pl);
        }
        match findings[k].severity {
            Severity::Critical => r.critical = r.critical + 1,
            Severity::High => r.high = r.high + 1,
            Severity::Medium => r.medium = r.medium + 1,
            Severity::Low => r.low = r.low + 1,
        }
        k = k + 1;
    }
    assert(all.take(n as int) =~= all);
    r
}

/// A finding of the file `file`.
pub open spec fn in_file(f: FindingView, file: Seq<char>) -> FindingView {
    FindingView { file: file, ..f }
}

/// What one rule contributes to the report of the file `file`: its findings,
/// placed in the file, that no directive of `d` silences.
pub open spec fn kept(fs: Seq<FindingView>, file: Seq<char>, d: Map<usize, IgnoreView>) -> Seq<
    FindingView,
> {
    fs.map_values(|f: FindingView| in_file(f, file)).filter(|f: FindingView| !suppressed(f, d))
}

/// What a rule whose pattern must compile reports: nothing when it does not.
pub open spec fn if_compiles(pattern: Seq<char>, fs: Seq<FindingView>) -> Seq<FindingView> {
    if regex_compiles(pattern) {
        fs
    } else {
        seq![]
    }
}

/// The report of the file `file` of `language`, parsed as `tree`, under the
/// directives `d`: the rules of the language in turn, each one's findings
/// in walk order.
pub open spec fn tree_findings(
    source: &str,
    tree: SyntaxTree,
    language: Language,
    file: Seq<char>,
    d: Map<usize, IgnoreView>,
) -> Seq<FindingView> {
    match language {
        Language::Python => {
            kept(python::eval_report(source, tree), file, d)
                + kept(if_compiles(secret_pattern(), python::secret_report(source, tree)), file, d)
                + kept(if_compiles(sql_pattern(), python::sql_report(source, tree)), file, d)
        },
        Language::JavaScript => {
            kept(javascript::eval_report(source, tree), file, d)
                + kept(if_compiles(secret_pattern(), javascript::secret_report(source, tree)), file, d)
                + kept(if_compiles(sql_pattern(), javascript::sql_report(source, tree)), file, d)
                + kept(javascript::xss_report(source, tree), file, d)
                + kept(javascript::command_report(source, tree), file, d)
        },
        _ => seq![],
    }
}

/// Places the findings of one rule in the file `file`, drops those that a
/// directive silences, and appends the rest to `out`.
fn add_rule_findings(
    out: &mut Vec<Finding>,
    found: Vec<Finding>,
    file: &str,
    directives: &HashMap<usize, InlineIgnoreSpec>,
)
    ensures
        findings_view(final(out)@) == findings_view(old(out)@) + kept(
            findings_view(found@),
            file@,
            directives_view(directives@),
        ),
{
    let ghost all = findings_view(found@);
    let ghost placed = all.map_values(|f: FindingView| in_file(f, file@));
    let mut in_place: Vec<Finding> = Vec::new();
    for f in it: found
        invariant
            all == findings_view(it.seq()),
            placed == all.map_values(|f: FindingView| in_file(f, file@)),
            findings_view(in_place@) == placed.take(it.index() as int),
    {
        let ghost i = it.index();
        let mut f = f;
        f.file = file.to_owned();
        assert(f@ == placed[i as int]);
        let ghost before = findings_view(in_place@);
        in_place.push(f);
        assert(findings_view(in_place@) =~= before.push(placed[i as int]));
        assert(placed.take(i + 1) =~= placed.take(i as int).push(placed[i as int]));
    }
    assert(placed.take(placed.len() as int) =~= placed);
    let kept_here = apply_inline_ignores(in_place, directives);
    append_all(out, kept_here);
}

/// The report of the file `file` of `language`, parsed as `tree`: the
/// findings of each rule of the language, placed in the file, that no
/// directive silences.
pub fn scan_tree(
    source: &str,
    tree: &SyntaxTree,
    language: Language,
    file: &str,
    directives: &HashMap<usize, InlineIgnoreSpec>,
) -> (r: Vec<Finding>)
    requires
        tree.wf(source),
    ensures
        findings_view(r@) == tree_findings(
            source,
            *tree,
            language,
            file@,
            directives_view(directives@),
        ),
{
    let mut out: Vec<Finding> = Vec::new();
    match language {
        Language::Python => {
            add_rule_findings(&mut out, python::NoEval.check(source, tree), file, directives);
            add_rule_findings(&mut out, python::NoHardcodedSecret.check(source, tree), file, directives);
            add_rule_findings(&mut out, python::NoSqlInjection.check(source, tree), file, directives);
        },
        Language::JavaScript => {
            add_rule_findings(&mut out, javascript::NoEval.check(source, tree), file, directives);
            add_rule_findings(
                &mut out,
                javascript::NoHardcodedSecret.check(source, tree),
                file,
                directives,
            );
            add_rule_findings(&mut out, javascript::NoSqlInjection.check(source, tree), file, directives);
            add_rule_findings(&mut out, javascript::NoXssInnerHtml.check(source, tree), file, directives);
            add_rule_findings(
                &mut out,
                javascript::NoCommandInjection.check(source, tree),
                file,
                directives,
            );
        },
        _ => {},
    }
    assert(findings_view(out@) =~= tree_findings(
        source,
        *tree,
        language,
        file@,
        directives_view(directives@),
    ));
    out
}


/// The report of a file given what the parser made of it: nothing for a
/// minified file or one the parser rejected (`None`), else the report of
/// its tree under the text's inline directives.
pub open spec fn parsed_findings(
    source: &str,
    language: Language,
    file: Seq<char>,
    tree: Option<SyntaxTree>,
) -> Seq<FindingView> {
    if minified(source.spec_bytes()) {
        seq![]
    } else {
        match tree {
            Some(t) => tree_findings(source, t, language, file, ignore_directives(source@, language)),
            None => seq![],
        }
    }
}

/// The report of the file `file` given what the parser made of its text:
/// nothing for a minified file or one the parser rejected, else the
/// findings of the rules of `language` on the tree, placed in the file, that
/// no inline directive of the text silences.
pub fn scan_parsed(source: &str, language: Language, file: &str, tree: Option<SyntaxTree>) -> (r:
    Vec<Finding>)
    requires
        tree matches Some(t) ==> t.wf(source),
    ensures
        findings_view(r@) == parsed_findings(source, language, file@, tree),
{
    if is_minified(source) {
        return Vec::new();
    }
    let t = match tree {
        Some(t) => t,
        None => return Vec::new(),
    };
    let directives = inline_ignore_directives(source, language);
    scan_tree(source, &t, language, file, &directives)
}

/// The report of one file: nothing for a minified file, or one whose
/// language has no grammar here or whose tree does not fit a `SyntaxTree`;
/// else the findings of the rules of `language` on tree-sitter's tree of
/// the text (copied node by node: `tree_of_facts`), placed in the file
/// `file`, that no inline directive of the text silences.
pub fn scan_source(source: &str, language: Language, file: &str) -> (r: Vec<Finding>)
    ensures
        minified(source.spec_bytes()) ==> r@.len() == 0,
        !(language == Language::Python || language == Language::JavaScript) ==> r@.len() == 0,
        !minified(source.spec_bytes()) && !parse_ok(language, source) ==> r@.len() == 0,
        !minified(source.spec_bytes()) && parse_ok(language, source) ==> exists|t: SyntaxTree|
            #[trigger] tree_of_facts(t, language, source@) && t.wf(source) && findings_view(r@)
                == tree_findings(source, t, language, file@, ignore_directives(source@, language)),
{
    let parsed = if is_minified(source) {
        None
    } else {
        parse_source(source, language)
    };
    let r = scan_parsed(source, language, file, parsed);
    proof {
        assert(findings_view(r@).len() == r@.len());
        if !minified(source.spec_bytes()) && parsed is Some {
            let t = parsed->0;
            assert(tree_of_facts(t, language, source@));
            assert(findings_view(r@) == tree_findings(
                source,
                t,
                language,
                file@,
                ignore_directives(source@, language),
            ));
        }
    }
    r
}


/// What one rule contributes lies in the file and is silenced by no
/// directive.
proof fn lemma_kept(fs: Seq<FindingView>, file: Seq<char>, d: Map<usize, IgnoreView>)
    ensures
        forall|x: FindingView| #[trigger]
            kept(fs, file, d).contains(x) ==> x.file == file && !suppressed(x, d),
{
    let placed = fs.map_values(|f: FindingView| in_file(f, file));
    let pred = |f: FindingView| !suppressed(f, d);
    assert forall|x: FindingView| #[trigger] kept(fs, file, d).contains(x) implies x.file == file
        && !suppressed(x, d) by {
        let q = choose|q: int| 0 <= q < placed.filter(pred).len() && placed.filter(pred)[q] == x;
        placed.lemma_filter_pred(pred, q);
        assert(placed.filter(pred).contains(x));
        placed.lemma_filter_contains_rev(pred, x);
        let k = choose|k: int| 0 <= k < placed.len() && placed[k] == x;
        assert(placed[k] == in_file(fs[k], file));
    }
}

/// Every finding in the report of a file lies in that file and is silenced
/// by none of the file's directives.
pub proof fn law_report_in_file_and_not_silenced(
    source: &str,
    tree: SyntaxTree,
    language: Language,
    file: Seq<char>,
    d: Map<usize, IgnoreView>,
    x: FindingView,
)
    requires
        tree_findings(source, tree, language, file, d).contains(x),
    ensures
        x.file == file,
        !suppressed(x, d),
{
    match language {
        Language::Python => {
            let s0 = python::eval_report(source, tree);
            let s1 = if_compiles(secret_pattern(), python::secret_report(source, tree));
            let s2 = if_compiles(sql_pattern(), python::sql_report(source, tree));
            lemma_kept(s0, file, d);
            lemma_kept(s1, file, d);
            lemma_kept(s2, file, d);
            let k0 = kept(s0, file, d);
            let k1 = kept(s1, file, d);
            let k2 = kept(s2, file, d);
            lemma_concat_contains(k0 + k1, k2, x);
            lemma_concat_contains(k0, k1, x);
        },
        Language::JavaScript => {
            let s0 = javascript::eval_report(source, tree);
            let s1 = if_compiles(secret_pattern(), javascript::secret_report(source, tree));
            let s2 = if_compiles(sql_pattern(), javascript::sql_report(source, tree));
            let s3 = javascript::xss_report(source, tree);
            let s4 = javascript::command_report(source, tree);
            lemma_kept(s0, file, d);
            lemma_kept(s1, file, d);
            lemma_kept(s2, file, d);
            lemma_kept(s3, file, d);
            lemma_kept(s4, file, d);
            let k0 = kept(s0, file, d);
            let k1 = kept(s1, file, d);
            let k2 = kept(s2, file, d);
            let k3 = kept(s3, file, d);
            let k4 = kept(s4, file, d);
            lemma_concat_contains(k0 + k1 + k2 + k3, k4, x);
            lemma_concat_contains(k0 + k1 + k2, k3, x);
            lemma_concat_contains(k0 + k1, k2, x);
            lemma_concat_contains(k0, k1, x);
        },
        _ => {},
    }
}

/// An element of a concatenation is an element of one of its parts.
proof fn lemma_concat_contains(a: Seq<FindingView>, b: Seq<FindingView>, x: FindingView)
    ensures
        (a + b).contains(x) ==> a.contains(x) || b.contains(x),
{
    if (a + b).contains(x) {
        let q = choose|q: int| 0 <= q < (a + b).len() && (a + b)[q] == x;
        if q < a.len() {
            assert(a[q] == x);
        } else {
            assert(b[q - a.len()] == x);
        }
    }
}

/// The central promise of inline directives, for a whole file: when the
/// directive on line index `idx` targets line `t` and names the rule of a
/// finding that spans line `t`, that finding is not in the file's report.
pub proof fn law_silenced_finding_not_reported(
    source: &str,
    tree: SyntaxTree,
    language: Language,
    file: Seq<char>,
    idx: int,
    t: int,
    v: IgnoreView,
    f: FindingView,
)
    requires
        0 <= idx < lines(source@).len(),
        line_target(lines(source@), language, idx) == Some((t, v)),
        f.line <= t <= f.end_line,
        ignore_matches(v, f.rule_id),
    ensures
        !tree_findings(source, tree, language, file, ignore_directives(source@, language)).contains(f),
{
    law_directive_silences_target(source@, language, idx, t, v, f);
    if tree_findings(source, tree, language, file, ignore_directives(source@, language)).contains(f) {
        law_report_in_file_and_not_silenced(
            source,
            tree,
            language,
            file,
            ignore_directives(source@, language),
            f,
        );
    }
}

/// Filtering by the lowest severity keeps every finding.
pub proof fn law_low_keeps_all(findings: Seq<FindingView>)
    ensures
        findings.filter(
            |f: FindingView| severity_rank(f.severity) >= severity_rank(Severity::Low),
        ) == findings,
    decreases findings.len(),
{
    reveal_with_fuel(Seq::filter, 1);
    if findings.len() > 0 {
        law_low_keeps_all(findings.drop_last());
        assert(findings.drop_last().push(findings.last()) =~= findings);
    }
}

} // verus!
