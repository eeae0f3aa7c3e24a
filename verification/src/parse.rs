//! Parsing a source text with tree-sitter and copying the tree into a
//! `SyntaxTree` that the rules read.
//!
//! What tree-sitter builds depends on the grammar and the text alone, so the
//! facts of each node are named as functions of the language, the text and
//! the node's index in preorder (its descendant index, the root being 0).
//! The copy is verified against those names.

use vstd::prelude::*;
use vstd::string::StringSliceAdditionalSpecFns;

use crate::finding::Language;
use crate::rules::source::valid_range;
use crate::syntax::{child_ok, node_wf, NodeField, SyntaxNode, SyntaxTree};
use tree_sitter::Language as TsGrammar;

verus! {

#[verifier::external_type_specification]
#[verifier::external_body]
pub struct ExTsParser(tree_sitter::Parser);

#[verifier::external_type_specification]
#[verifier::external_body]
pub struct ExTsGrammar(TsGrammar);

#[verifier::external_type_specification]
#[verifier::external_body]
pub struct ExTsTree(tree_sitter::Tree);

#[verifier::external_type_specification]
#[verifier::external_body]
pub struct ExTsNode<'tree>(tree_sitter::Node<'tree>);

/// Whether `tree_sitter::Parser::set_language` accepts the grammar of
/// `language`: it depends on the grammar's ABI version and on whether it
/// can lex, both fixed when the grammar is built.
pub uninterp spec fn grammar_accepted(language: Language) -> bool;

/// The type of node `i`, in preorder, of tree-sitter's tree of `source`
/// parsed as `language`.
pub uninterp spec fn ts_kind(language: Language, source: Seq<char>, i: usize) -> Seq<char>;

/// The byte where node `i` starts.
pub uninterp spec fn ts_start_byte(language: Language, source: Seq<char>, i: usize) -> usize;

/// The byte where node `i` ends.
pub uninterp spec fn ts_end_byte(language: Language, source: Seq<char>, i: usize) -> usize;

/// The row and column, from 0, where node `i` starts.
pub uninterp spec fn ts_start_point(language: Language, source: Seq<char>, i: usize) -> (
    usize,
    usize,
);

/// The row and column, from 0, where node `i` ends.
pub uninterp spec fn ts_end_point(language: Language, source: Seq<char>, i: usize) -> (
    usize,
    usize,
);

/// The number of children of node `i`.
pub uninterp spec fn ts_child_count(language: Language, source: Seq<char>, i: usize) -> u32;

/// The number of nodes of the subtree at node `i`, itself included.
pub uninterp spec fn ts_descendant_count(language: Language, source: Seq<char>, i: usize) -> usize;

/// Whether node `i` is named.
pub uninterp spec fn ts_is_named(language: Language, source: Seq<char>, i: usize) -> bool;

/// The field that child `k` of node `i` stands in, if any.
pub uninterp spec fn ts_field_name(language: Language, source: Seq<char>, i: usize, k: u32) -> Option<
    Seq<char>,
>;

/// A tree-sitter grammar together with the language it parses. Only the
/// grammar functions below make one.
pub struct Grammar {
    language: Language,
    grammar: TsGrammar,
}

impl View for Grammar {
    type V = Language;

    closed spec fn view(&self) -> Language {
        self.language
    }
}

/// A tree-sitter parser together with the language of the grammar it has,
/// if any.
pub struct SourceParser {
    parser: tree_sitter::Parser,
    language: Option<Language>,
}

impl View for SourceParser {
    type V = Option<Language>;

    closed spec fn view(&self) -> Option<Language> {
        self.language
    }
}

/// A tree-sitter tree together with the language and text it was parsed
/// from. Only `parse_text` makes one.
pub struct ParsedSource {
    language: Language,
    source: String,
    tree: tree_sitter::Tree,
}

impl View for ParsedSource {
    type V = (Language, Seq<char>);

    closed spec fn view(&self) -> (Language, Seq<char>) {
        (self.language, self.source@)
    }
}

/// Node `index`, in preorder, of a parsed text.
pub struct NodeAt<'a> {
    parsed: &'a ParsedSource,
    index: usize,
    node: tree_sitter::Node<'a>,
}

impl<'a> View for NodeAt<'a> {
    type V = (Language, Seq<char>, usize);

    closed spec fn view(&self) -> (Language, Seq<char>, usize) {
        (self.parsed@.0, self.parsed@.1, self.index)
    }
}

/// The Python grammar of `tree_sitter_python`. Its ABI version (15) lies in
/// the range that `set_language` of this tree-sitter accepts (13 to 15) and
/// it has a lexer, so it is accepted.
#[verifier::external_body]
fn python_grammar() -> (r: Grammar)
    ensures
        r@ == Language::Python,
        grammar_accepted(r@),
{
    Grammar { language: Language::Python, grammar: TsGrammar::new(tree_sitter_python::LANGUAGE) }
}

/// The JavaScript grammar of `tree_sitter_javascript`. Its ABI version (15)
/// lies in the range that `set_language` of this tree-sitter accepts (13 to
/// 15) and it has a lexer, so it is accepted.
#[verifier::external_body]
fn javascript_grammar() -> (r: Grammar)
    ensures
        r@ == Language::JavaScript,
        grammar_accepted(r@),
{
    Grammar {
        language: Language::JavaScript,
        grammar: TsGrammar::new(tree_sitter_javascript::LANGUAGE),
    }
}

/// `tree_sitter::Parser::new`: a parser with no grammar yet.
#[verifier::external_body]
fn new_parser() -> (r: SourceParser)
    ensures
        r@ is None,
{
    SourceParser { parser: tree_sitter::Parser::new(), language: None }
}

/// `tree_sitter::Parser::set_language`: whether the parser took the grammar;
/// when it did, the parser parses that grammar's language from then on, and
/// when it did not, the parser is unchanged.
#[verifier::external_body]
fn use_grammar(parser: &mut SourceParser, grammar: &Grammar) -> (r: bool)
    ensures
        r == grammar_accepted(grammar@),
        r ==> final(parser)@ == Some(grammar@),
        !r ==> final(parser)@ == old(parser)@,
{
    match parser.parser.set_language(&grammar.grammar) {
        Ok(()) => {
            parser.language = Some(grammar.language);
            true
        },
        Err(_) => false,
    }
}

/// `tree_sitter::Parser::parse` of a whole text with no earlier tree. Its
/// documentation says it gives no tree only when the parser has no grammar;
/// no timeout or cancellation is set here.
#[verifier::external_body]
fn parse_text(parser: &mut SourceParser, source: &str) -> (r: Option<ParsedSource>)
    ensures
        final(parser)@ == old(parser)@,
        old(parser)@ matches Some(l) ==> (r matches Some(p) && p@ == (l, source@)),
        old(parser)@ is None ==> r is None,
{
    match (parser.language, parser.parser.parse(source, None)) {
        (Some(language), Some(tree)) => Some(ParsedSource { language, source: source.to_owned(), tree }),
        _ => None,
    }
}

/// The node with descendant index `i` of the parsed tree, reached with
/// `tree_sitter::TreeCursor::goto_descendant` from the root.
#[verifier::external_body]
fn node_at<'a>(parsed: &'a ParsedSource, i: usize) -> (r: NodeAt<'a>)
    ensures
        r@ == (parsed@.0, parsed@.1, i),
{
    let mut cursor = parsed.tree.walk();
    cursor.goto_descendant(i);
    NodeAt { parsed, index: i, node: cursor.node() }
}

/// `tree_sitter::Node::kind`: the node's type.
#[verifier::external_body]
fn node_kind(node: &NodeAt) -> (r: String)
    ensures
        r@ == ts_kind(node@.0, node@.1, node@.2),
{
    node.node.kind().to_owned()
}

/// `tree_sitter::Node::start_byte`.
#[verifier::external_body]
fn node_start_byte(node: &NodeAt) -> (r: usize)
    ensures
        r == ts_start_byte(node@.0, node@.1, node@.2),
{
    node.node.start_byte()
}

/// `tree_sitter::Node::end_byte`.
#[verifier::external_body]
fn node_end_byte(node: &NodeAt) -> (r: usize)
    ensures
        r == ts_end_byte(node@.0, node@.1, node@.2),
{
    node.node.end_byte()
}

/// `tree_sitter::Node::start_position`: row and column, from 0.
#[verifier::external_body]
fn node_start_position(node: &NodeAt) -> (r: (usize, usize))
    ensures
        r == ts_start_point(node@.0, node@.1, node@.2),
{
    let p = node.node.start_position();
    (p.row, p.column)
}

/// `tree_sitter::Node::end_position`: row and column, from 0.
#[verifier::external_body]
fn node_end_position(node: &NodeAt) -> (r: (usize, usize))
    ensures
        r == ts_end_point(node@.0, node@.1, node@.2),
{
    let p = node.node.end_position();
    (p.row, p.column)
}

/// `tree_sitter::Node::child_count`.
#[verifier::external_body]
fn node_child_count(node: &NodeAt) -> (r: u32)
    ensures
        r == ts_child_count(node@.0, node@.1, node@.2),
{
    node.node.child_count()
}

/// `tree_sitter::Node::descendant_count`: the nodes of the subtree, the node
/// itself included, so at least 1.
#[verifier::external_body]
fn node_descendant_count(node: &NodeAt) -> (r: usize)
    ensures
        r == ts_descendant_count(node@.0, node@.1, node@.2),
        r >= 1,
{
    node.node.descendant_count()
}

/// `tree_sitter::Node::is_named`.
#[verifier::external_body]
fn node_is_named(node: &NodeAt) -> (r: bool)
    ensures
        r == ts_is_named(node@.0, node@.1, node@.2),
{
    node.node.is_named()
}

/// `tree_sitter::Node::field_name_for_child`: the field that child `k`
/// stands in, if any.
#[verifier::external_body]
fn node_field_name_for_child(node: &NodeAt, k: u32) -> (r: Option<String>)
    ensures
        match r {
            Some(name) => ts_field_name(node@.0, node@.1, node@.2, k) == Some(name@),
            None => ts_field_name(node@.0, node@.1, node@.2, k) is None,
        },
{
    match node.node.field_name_for_child(k) {
        Some(name) => Some(name.to_owned()),
        None => None,
    }
}

/// The number of nodes of the tree.
pub open spec fn node_count(l: Language, s: Seq<char>) -> int {
    ts_descendant_count(l, s, 0) as int
}

/// The preorder index of child `k` of node `i`: the node after `i` for the
/// first child, then past the whole subtree of the child before.
pub open spec fn child_pos(l: Language, s: Seq<char>, i: usize, k: nat) -> int
    decreases k,
{
    if k == 0 {
        i + 1
    } else {
        let c = child_pos(l, s, i, (k - 1) as nat);
        c + ts_descendant_count(l, s, c as usize)
    }
}

/// The indices of the first `k` children of node `i`.
pub open spec fn children_upto(l: Language, s: Seq<char>, i: usize, k: nat) -> Seq<int>
    decreases k,
{
    if k == 0 {
        seq![]
    } else {
        children_upto(l, s, i, (k - 1) as nat).push(child_pos(l, s, i, (k - 1) as nat))
    }
}

/// The indices of the named ones among the first `k` children of node `i`.
pub open spec fn named_upto(l: Language, s: Seq<char>, i: usize, k: nat) -> Seq<int>
    decreases k,
{
    if k == 0 {
        seq![]
    } else {
        let c = child_pos(l, s, i, (k - 1) as nat);
        let before = named_upto(l, s, i, (k - 1) as nat);
        if ts_is_named(l, s, c as usize) {
            before.push(c)
        } else {
            before
        }
    }
}

/// The fields, with the indices of their children, among the first `k`
/// children of node `i`.
pub open spec fn fields_upto(l: Language, s: Seq<char>, i: usize, k: nat) -> Seq<(Seq<char>, int)>
    decreases k,
{
    if k == 0 {
        seq![]
    } else {
        let before = fields_upto(l, s, i, (k - 1) as nat);
        match ts_field_name(l, s, i, (k - 1) as u32) {
            Some(name) => before.push((name, child_pos(l, s, i, (k - 1) as nat))),
            None => before,
        }
    }
}

/// Node `n` holds the facts of node `i` of tree-sitter's tree.
pub open spec fn node_of_facts(n: SyntaxNode, l: Language, s: Seq<char>, i: usize) -> bool {
    let k = ts_child_count(l, s, i) as nat;
    &&& n.kind@ == ts_kind(l, s, i)
    &&& n.start_byte == ts_start_byte(l, s, i)
    &&& n.end_byte == ts_end_byte(l, s, i)
    &&& (n.start_row, n.start_column) == ts_start_point(l, s, i)
    &&& (n.end_row, n.end_column) == ts_end_point(l, s, i)
    &&& n.children@.map_values(|c: usize| c as int) == children_upto(l, s, i, k)
    &&& n.named_children@.map_values(|c: usize| c as int) == named_upto(l, s, i, k)
    &&& n.fields@.map_values(|f: NodeField| (f.name@, f.child as int)) == fields_upto(l, s, i, k)
}

/// `t` is tree-sitter's tree of `s` parsed as `l`, node by node in preorder.
pub open spec fn tree_of_facts(t: SyntaxTree, l: Language, s: Seq<char>) -> bool {
    &&& t.nodes@.len() == node_count(l, s)
    &&& forall|i: int| 0 <= i < t.nodes@.len() ==> node_of_facts(t.nodes@[i], l, s, i as usize)
}

/// Node `i` of tree-sitter's tree fits a `SyntaxTree` of `source`: its range
/// lies between character boundaries, its positions can be counted from 1,
/// and its children lie inside the tree.
pub open spec fn node_fits(l: Language, source: &str, i: usize) -> bool {
    let s = source@;
    &&& valid_range(source, ts_start_byte(l, s, i) as int, ts_end_byte(l, s, i) as int)
    &&& ts_start_point(l, s, i).0 < usize::MAX && ts_start_point(l, s, i).1 < usize::MAX
    &&& ts_end_point(l, s, i).0 < usize::MAX && ts_end_point(l, s, i).1 < usize::MAX
    &&& forall|k: nat|
        k < ts_child_count(l, s, i) ==> #[trigger] child_pos(l, s, i, k) < node_count(l, s)
}

/// Every node of tree-sitter's tree of `source` parsed as `l` fits.
pub open spec fn facts_fit(l: Language, source: &str) -> bool {
    forall|i: usize| i < node_count(l, source@) ==> #[trigger] node_fits(l, source, i)
}

/// Children come after their parent.
proof fn lemma_child_pos_after(l: Language, s: Seq<char>, i: usize, k: nat)
    ensures
        child_pos(l, s, i, k) > i,
    decreases k,
{
    if k > 0 {
        lemma_child_pos_after(l, s, i, (k - 1) as nat);
    }
}


/// Whether `[lo, hi)` is a range of `source` between character boundaries.
fn valid_range_exec(source: &str, lo: usize, hi: usize) -> (r: bool)
    ensures
        r == valid_range(source, lo as int, hi as int),
{
    let n = source.as_bytes().len();
    lo <= hi && hi <= n && source.is_char_boundary(lo) && source.is_char_boundary(hi)
}

/// Copies node `i` of a parsed text, or nothing when it does not fit.
fn copy_node(parsed: &ParsedSource, source: &str, i: usize, count: usize) -> (r: Option<SyntaxNode>)
    requires
        parsed@.1 == source@,
        count == node_count(parsed@.0, source@),
        i < count,
    ensures
        r is Some <==> node_fits(parsed@.0, source, i),
        r matches Some(n) ==> node_of_facts(n, parsed@.0, source@, i) && children_between(n, i, count),
{
    let ghost l = parsed@.0;
    let ghost s = source@;
    let n = node_at(parsed, i);
    let kind = node_kind(&n);
    let start = node_start_byte(&n);
    let end = node_end_byte(&n);
    let (start_row, start_column) = node_start_position(&n);
    let (end_row, end_column) = node_end_position(&n);
    if !valid_range_exec(source, start, end) || start_row == usize::MAX || start_column
        == usize::MAX || end_row == usize::MAX || end_column == usize::MAX {
        return None;
    }
    let cc = node_child_count(&n);
    let mut children: Vec<usize> = Vec::new();
    let mut named_children: Vec<usize> = Vec::new();
    let mut fields: Vec<NodeField> = Vec::new();
    let mut c: usize = i + 1;
    let mut k: u32 = 0;
    while k < cc
        invariant
            n@ == (l, s, i),
            parsed@ == (l, s),
            s == source@,
            count == node_count(l, s),
            i < count,
            cc == ts_child_count(l, s, i),
            0 <= k <= cc,
            k < cc ==> c == child_pos(l, s, i, k as nat),
            forall|q: nat| q < k ==> #[trigger] child_pos(l, s, i, q) < count,
            forall|q: int| 0 <= q < children@.len() ==> i < #[trigger] children@[q] < count,
            forall|q: int|
                0 <= q < named_children@.len() ==> i < #[trigger] named_children@[q] < count,
            forall|q: int| 0 <= q < fields@.len() ==> i < #[trigger] fields@[q].child < count,
            children@.map_values(|x: usize| x as int) == children_upto(l, s, i, k as nat),
            named_children@.map_values(|x: usize| x as int) == named_upto(l, s, i, k as nat),
            fields@.map_values(|f: NodeField| (f.name@, f.child as int)) == fields_upto(
                l,
                s,
                i,
                k as nat,
            ),
        decreases cc - k,
    {
        if c >= count {
            proof {
                assert(child_pos(l, s, i, k as nat) >= node_count(l, s));
                let kk = k as nat;
                assert(kk < ts_child_count(l, s, i));
                if node_fits(l, source, i) {
                    lemma_node_fits_child(l, source, i, kk);
                }
            }
            return None;
        }
        let ghost ch = children@.map_values(|x: usize| x as int);
        let ghost nm = named_children@.map_values(|x: usize| x as int);
        let ghost fs = fields@.map_values(|f: NodeField| (f.name@, f.child as int));
        proof {
            lemma_child_pos_after(l, s, i, k as nat);
        }
        children.push(c);
        assert(children@.map_values(|x: usize| x as int) =~= ch.push(c as int));
        let child = node_at(parsed, c);
        if node_is_named(&child) {
            named_children.push(c);
            assert(named_children@.map_values(|x: usize| x as int) =~= nm.push(c as int));
        } else {
            assert(named_children@.map_values(|x: usize| x as int) =~= nm);
        }
        match node_field_name_for_child(&n, k) {
            Some(name) => {
                fields.push(NodeField { name, child: c });
                assert(fields@.map_values(|f: NodeField| (f.name@, f.child as int)) =~= fs.push(
                    (ts_field_name(l, s, i, k)->0, c as int),
                ));
            },
            None => {
                assert(fields@.map_values(|f: NodeField| (f.name@, f.child as int)) =~= fs);
            },
        }
        assert(k as nat + 1 == (k + 1) as nat);
        assert(((k + 1) as nat - 1) as nat == k as nat);
        assert(((k + 1) as nat - 1) as u32 == k);
        if k + 1 < cc {
            let d = node_descendant_count(&child);
            if d >= count - c {
                proof {
                    assert(child_pos(l, s, i, (k + 1) as nat) == c + d);
                    assert(child_pos(l, s, i, (k + 1) as nat) >= node_count(l, s));
                    let kk = (k + 1) as nat;
                    assert(kk < ts_child_count(l, s, i));
                    if node_fits(l, source, i) {
                        lemma_node_fits_child(l, source, i, kk);
                    }
                }
                return None;
            }
            c = c + d;
        }
        k = k + 1;
    }
    Some(
        SyntaxNode {
            kind,
            start_byte: start,
            end_byte: end,
            start_row,
            start_column,
            end_row,
            end_column,
            children,
            named_children,
            fields,
        },
    )
}

/// The children, named children and field children of node `n`, number
/// `i`, lie after it and before `count`.
pub open spec fn children_between(n: SyntaxNode, i: usize, count: usize) -> bool {
    &&& forall|q: int| 0 <= q < n.children@.len() ==> i < #[trigger] n.children@[q] < count
    &&& forall|q: int|
        0 <= q < n.named_children@.len() ==> i < #[trigger] n.named_children@[q] < count
    &&& forall|q: int| 0 <= q < n.fields@.len() ==> i < #[trigger] n.fields@[q].child < count
}

/// Copies the tree of a parsed text node by node in preorder, or nothing
/// when some node does not fit.
fn copy_tree(parsed: &ParsedSource, source: &str) -> (r: Option<SyntaxTree>)
    requires
        parsed@.1 == source@,
    ensures
        r is Some <==> facts_fit(parsed@.0, source),
        r matches Some(t) ==> t.wf(source) && tree_of_facts(t, parsed@.0, source@),
{
    let ghost l = parsed@.0;
    let ghost s = source@;
    let root = node_at(parsed, 0);
    let count = node_descendant_count(&root);
    let mut nodes: Vec<SyntaxNode> = Vec::new();
    let mut i: usize = 0;
    while i < count
        invariant
            parsed@ == (l, s),
            s == source@,
            count == node_count(l, s),
            count >= 1,
            0 <= i <= count,
            nodes@.len() == i,
            forall|j: int|
                0 <= j < i ==> node_of_facts(#[trigger] nodes@[j], l, s, j as usize)
                    && children_between(nodes@[j], j as usize, count) && node_fits(
                    l,
                    source,
                    j as usize,
                ),
        decreases count - i,
    {
        match copy_node(parsed, source, i, count) {
            Some(n) => {
                nodes.push(n);
            },
            None => {
                proof {
                    assert(!node_fits(l, source, i));
                }
                return None;
            },
        }
        i = i + 1;
    }
    let tree = SyntaxTree { nodes };
    proof {
        assert forall|j: usize| j < node_count(l, s) implies #[trigger] node_fits(l, source, j) by {
            let jj = j as int;
            assert(0 <= jj && jj < tree.nodes@.len());
            assert(node_of_facts(tree.nodes@[jj], l, s, jj as usize));
            assert(node_fits(l, source, jj as usize));
        }
        assert forall|j: int| 0 <= j < tree.nodes@.len() implies node_wf(tree.nodes@, j, source) by {
            let n = tree.nodes@[j];
            assert(node_of_facts(n, l, s, j as usize));
            assert(children_between(n, j as usize, count));
            assert(node_fits(l, source, j as usize));
            assert forall|k: int| 0 <= k < n.children@.len() implies child_ok(
                tree.nodes@,
                j,
                #[trigger] n.children@[k],
            ) by {}
            assert forall|k: int| 0 <= k < n.named_children@.len() implies child_ok(
                tree.nodes@,
                j,
                #[trigger] n.named_children@[k],
            ) by {}
            assert forall|k: int| 0 <= k < n.fields@.len() implies child_ok(
                tree.nodes@,
                j,
                #[trigger] n.fields@[k].child,
            ) by {}
        }
    }
    Some(tree)
}

/// The text parses into a tree that a `SyntaxTree` can hold: its language
/// has a grammar here, and every node of tree-sitter's tree fits.
pub open spec fn parse_ok(language: Language, source: &str) -> bool {
    (language == Language::Python || language == Language::JavaScript) && facts_fit(
        language,
        source,
    )
}

/// Parses `source` as `language` with tree-sitter and copies the tree, node
/// by node in preorder. Only Python and JavaScript have a grammar here; the
/// tree comes back exactly when every node fits a `SyntaxTree` of the text.
pub fn parse_source(source: &str, language: Language) -> (r: Option<SyntaxTree>)
    ensures
        r is Some <==> parse_ok(language, source),
        r matches Some(t) ==> t.wf(source) && tree_of_facts(t, language, source@),
        !(language == Language::Python || language == Language::JavaScript) ==> r is None,
{
    let grammar = match language {
        Language::Python => python_grammar(),
        Language::JavaScript => javascript_grammar(),
        _ => return None,
    };
    let mut parser = new_parser();
    if !use_grammar(&mut parser, &grammar) {
        return None;
    }
    let parsed = match parse_text(&mut parser, source) {
        Some(p) => p,
        None => return None,
    };
    copy_tree(&parsed, source)
}


/// A node that fits has each child inside the tree.
proof fn lemma_node_fits_child(l: Language, source: &str, i: usize, kk: nat)
    requires
        node_fits(l, source, i),
        kk < ts_child_count(l, source@, i),
    ensures
        child_pos(l, source@, i, kk) < node_count(l, source@),
{
}

} // verus!
