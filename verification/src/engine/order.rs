//! The order of a report: by file, then line, then column, keeping the
//! order in which findings were found among those at the same place.

use vstd::prelude::*;

use crate::finding::{findings_view, Finding, FindingView};
use crate::text::chars_of;

verus! {

broadcast use vstd::seq_lib::group_seq_properties;

/// `a` comes strictly before `b` when both are compared character by
/// character, a proper prefix first; this is the order of their UTF-8
/// bytes, which `String`'s `Ord` follows.
pub open spec fn text_lt(a: Seq<char>, b: Seq<char>) -> bool
    decreases a.len(),
{
    if a.len() == 0 {
        b.len() > 0
    } else if b.len() == 0 {
        false
    } else if a[0] == b[0] {
        text_lt(a.drop_first(), b.drop_first())
    } else {
        a[0] < b[0]
    }
}

/// Two findings at the same place: same file, line and column.
pub open spec fn same_key(a: FindingView, b: FindingView) -> bool {
    a.file == b.file && a.line == b.line && a.column == b.column
}

/// `a` is reported before `b`: by file, then line, then column.
pub open spec fn key_lt(a: FindingView, b: FindingView) -> bool {
    ||| text_lt(a.file, b.file)
    ||| a.file == b.file && a.line < b.line
    ||| a.file == b.file && a.line == b.line && a.column < b.column
}

/// No finding comes after one that should follow it.
pub open spec fn sorted_by_key(s: Seq<FindingView>) -> bool {
    forall|i: int, j: int| 0 <= i < j < s.len() ==> !key_lt(#[trigger] s[j], #[trigger] s[i])
}

/// The findings of `s` at the same place as `k`, in their order in `s`.
pub open spec fn key_class(s: Seq<FindingView>, k: FindingView) -> Seq<FindingView> {
    s.filter(|x: FindingView| same_key(x, k))
}

/// No text comes before itself.
pub proof fn lemma_text_lt_irreflexive(a: Seq<char>)
    ensures
        !text_lt(a, a),
    decreases a.len(),
{
    if a.len() > 0 {
        lemma_text_lt_irreflexive(a.drop_first());
    }
}

/// Of two texts, at most one comes before the other.
pub proof fn lemma_text_lt_asymmetric(a: Seq<char>, b: Seq<char>)
    ensures
        text_lt(a, b) ==> !text_lt(b, a),
    decreases a.len(),
{
    if a.len() > 0 && b.len() > 0 && a[0] == b[0] {
        lemma_text_lt_asymmetric(a.drop_first(), b.drop_first());
    }
}

/// The order of texts is transitive.
pub proof fn lemma_text_lt_transitive(a: Seq<char>, b: Seq<char>, c: Seq<char>)
    requires
        text_lt(a, b),
        text_lt(b, c),
    ensures
        text_lt(a, c),
    decreases a.len(),
{
    if a.len() > 0 && b.len() > 0 && c.len() > 0 && a[0] == b[0] && b[0] == c[0] {
        lemma_text_lt_transitive(a.drop_first(), b.drop_first(), c.drop_first());
    }
}

/// Of two different texts, one comes before the other.
pub proof fn lemma_text_lt_total(a: Seq<char>, b: Seq<char>)
    ensures
        a != b ==> text_lt(a, b) || text_lt(b, a),
    decreases a.len(),
{
    if a.len() > 0 && b.len() > 0 && a[0] == b[0] {
        lemma_text_lt_total(a.drop_first(), b.drop_first());
        if a.drop_first() == b.drop_first() {
            assert(a.drop_first().len() == b.drop_first().len());
            assert(a.len() == b.len());
            assert(a =~= b) by {
                assert forall|i: int| 0 <= i < a.len() implies a[i] == b[i] by {
                    if i > 0 {
                        assert(a[i] == a.drop_first()[i - 1]);
                        assert(b[i] == b.drop_first()[i - 1]);
                    }
                }
            }
        }
    } else if a.len() == 0 && b.len() == 0 {
        assert(a =~= b);
    }
}

/// The report order is a strict order that places any two findings at
/// different places one before the other.
pub proof fn lemma_key_order(a: FindingView, b: FindingView, c: FindingView)
    ensures
        !key_lt(a, a),
        key_lt(a, b) ==> !key_lt(b, a),
        key_lt(a, b) && key_lt(b, c) ==> key_lt(a, c),
        same_key(a, b) || key_lt(a, b) || key_lt(b, a),
        key_lt(a, b) ==> !same_key(a, b),
        same_key(a, b) && key_lt(b, c) ==> key_lt(a, c),
        same_key(a, b) && key_lt(c, b) ==> key_lt(c, a),
{
    lemma_text_lt_irreflexive(a.file);
    lemma_text_lt_asymmetric(a.file, b.file);
    lemma_text_lt_total(a.file, b.file);
    if text_lt(a.file, b.file) && text_lt(b.file, c.file) {
        lemma_text_lt_transitive(a.file, b.file, c.file);
    }
}

/// Whether `a` comes before `b` in the order of their characters.
fn text_lt_exec(a: &str, b: &str) -> (r: bool)
    ensures
        r == text_lt(a@, b@),
{
    let x = chars_of(a);
    let y = chars_of(b);
    let mut i: usize = 0;
    assert(x@.skip(0) =~= x@);
    assert(y@.skip(0) =~= y@);
    while i < x.len() && i < y.len() && x[i] == y[i]
        invariant
            x@ == a@,
            y@ == b@,
            0 <= i <= x@.len(),
            i <= y@.len(),
            text_lt(x@, y@) == text_lt(x@.skip(i as int), y@.skip(i as int)),
        decreases x@.len() - i,
    {
        assert(x@.skip(i as int).drop_first() =~= x@.skip(i + 1));
        assert(y@.skip(i as int).drop_first() =~= y@.skip(i + 1));
        i = i + 1;
    }
    if i == x.len() {
        i < y.len()
    } else if i == y.len() {
        false
    } else {
        x[i] < y[i]
    }
}

/// Whether `a` is reported before `b`.
fn key_lt_exec(a: &Finding, b: &Finding) -> (r: bool)
    ensures
        r == key_lt(a@, b@),
{
    if text_lt_exec(a.file.as_str(), b.file.as_str()) {
        return true;
    }
    if text_lt_exec(b.file.as_str(), a.file.as_str()) {
        proof {
            lemma_text_lt_asymmetric(b@.file, a@.file);
            lemma_text_lt_irreflexive(a@.file);
        }
        return false;
    }
    proof {
        lemma_text_lt_total(a@.file, b@.file);
    }
    a.line < b.line || (a.line == b.line && a.column < b.column)
}

/// Inserting `e` before the first finding that it should precede keeps the
/// findings sorted and adds `e` to the end of its place's class.
proof fn lemma_insert_sorted(o: Seq<FindingView>, e: FindingView, p: int)
    requires
        sorted_by_key(o),
        0 <= p <= o.len(),
        forall|q: int| 0 <= q < p ==> !key_lt(e, #[trigger] o[q]),
        p < o.len() ==> key_lt(e, o[p]),
    ensures
        sorted_by_key(o.insert(p, e)),
        forall|k: FindingView|
            #[trigger] key_class(o.insert(p, e), k) == if same_key(e, k) {
                key_class(o, k).push(e)
            } else {
                key_class(o, k)
            },
{
    let n = o.insert(p, e);
    assert forall|i: int, j: int| 0 <= i < j < n.len() implies !key_lt(#[trigger] n[j], #[trigger] n[i]) by {
        if j < p {
            assert(n[i] == o[i] && n[j] == o[j]);
        } else if j == p {
            assert(n[i] == o[i]);
        } else if i == p {
            assert(n[j] == o[j - 1]);
            lemma_key_order(o[j - 1], e, o[p]);
            if j - 1 > p {
                assert(!key_lt(o[j - 1], o[p]));
            }
        } else if i < p {
            assert(n[i] == o[i] && n[j] == o[j - 1]);
        } else {
            assert(n[i] == o[i - 1] && n[j] == o[j - 1]);
        }
    }
    assert forall|k: FindingView| #[trigger] key_class(n, k) == if same_key(e, k) {
        key_class(o, k).push(e)
    } else {
        key_class(o, k)
    } by {
        let pred = |x: FindingView| same_key(x, k);
        let a = o.take(p);
        let b = o.skip(p);
        assert(o =~= a + b);
        assert(n =~= a + (seq![e] + b));
        Seq::filter_distributes_over_add(a, b, pred);
        Seq::filter_distributes_over_add(a, seq![e] + b, pred);
        Seq::filter_distributes_over_add(seq![e], b, pred);
        reveal_with_fuel(Seq::filter, 2);
        assert(seq![e].drop_last() =~= Seq::<FindingView>::empty());
        if same_key(e, k) {
            assert forall|q: int| 0 <= q < b.len() implies !pred(#[trigger] b[q]) by {
                assert(b[q] == o[p + q]);
                lemma_key_order(o[p], o[p + q], e);
                lemma_key_order(e, o[p], o[p + q]);
                lemma_key_order(e, o[p + q], k);
                lemma_key_order(o[p + q], e, k);
                if q > 0 {
                    assert(!key_lt(o[p + q], o[p]));
                }
            }
            lemma_filter_none(b, pred);
            assert(key_class(n, k) =~= key_class(o, k).push(e));
        } else {
            assert(key_class(n, k) =~= key_class(o, k));
        }
    }
}

/// A sequence none of whose elements pass `pred` filters to nothing.
proof fn lemma_filter_none(s: Seq<FindingView>, pred: spec_fn(FindingView) -> bool)
    requires
        forall|q: int| 0 <= q < s.len() ==> !pred(#[trigger] s[q]),
    ensures
        s.filter(pred) == Seq::<FindingView>::empty(),
    decreases s.len(),
{
    reveal_with_fuel(Seq::filter, 1);
    if s.len() > 0 {
        lemma_filter_none(s.drop_last(), pred);
    }
}


/// The findings in report order: sorted by file, line and column, each
/// place keeping its findings in the order they came, and none added or
/// lost.
pub fn sort_findings(findings: Vec<Finding>) -> (r: Vec<Finding>)
    ensures
        sorted_by_key(findings_view(r@)),
        forall|k: FindingView|
            #[trigger] key_class(findings_view(r@), k) == key_class(findings_view(findings@), k),
        findings_view(r@).to_multiset() == findings_view(findings@).to_multiset(),
        sorted_by_key(findings_view(findings@)) ==> findings_view(r@) == findings_view(findings@),
{
    broadcast use vstd::seq_lib::to_multiset_build, vstd::seq_lib::to_multiset_insert;

    let ghost all = findings_view(findings@);
    let mut out: Vec<Finding> = Vec::new();
    assert(all.take(0) =~= Seq::<FindingView>::empty());
    proof {
        assert forall|k: FindingView| #[trigger] key_class(findings_view(out@), k) == key_class(
            all.take(0),
            k,
        ) by {
            assert(findings_view(out@) =~= Seq::<FindingView>::empty());
        }
        assert(findings_view(out@) =~= all.take(0));
    }
    for f in it: findings
        invariant
            all == findings_view(it.seq()),
            sorted_by_key(findings_view(out@)),
            forall|k: FindingView|
                #[trigger] key_class(findings_view(out@), k) == key_class(
                    all.take(it.index() as int),
                    k,
                ),
            findings_view(out@).to_multiset() == all.take(it.index() as int).to_multiset(),
    {
        let ghost i = it.index();
        let ghost o = findings_view(out@);
        assert(f@ == all[i as int]);
        let mut p: usize = 0;
        while p < out.len() && !key_lt_exec(&f, &out[p])
            invariant
                o == findings_view(out@),
                0 <= p <= out@.len(),
                forall|q: int| 0 <= q < p ==> !key_lt(f@, #[trigger] o[q]),
            decreases out@.len() - p,
        {
            p = p + 1;
        }
        proof {
            lemma_insert_sorted(o, f@, p as int);
            let pre = all.take(i as int);
            assert(all.take(i + 1) =~= pre.push(f@));
            assert forall|k: FindingView| #[trigger] key_class(o.insert(p as int, f@), k) == key_class(
                all.take(i + 1),
                k,
            ) by {
                pre.lemma_filter_push(f@, |x: FindingView| same_key(x, k));
            }
        }
        out.insert(p, f);
        assert(findings_view(out@) =~= o.insert(p as int, f@));
    }
    assert(all.take(all.len() as int) =~= all);
    proof {
        if sorted_by_key(all) {
            law_order_is_unique(findings_view(out@), all);
        }
    }
    out
}


/// The findings at the same place as `k` are those at the same place as
/// any finding at that place.
proof fn lemma_class_of_same_key(s: Seq<FindingView>, k: FindingView, x: FindingView)
    requires
        same_key(k, x),
    ensures
        key_class(s, k) == key_class(s, x),
{
    assert((|y: FindingView| same_key(y, k)) =~= (|y: FindingView| same_key(y, x)));
}

/// The class of `k` in `s` without its last finding.
proof fn lemma_class_drop_last(s: Seq<FindingView>, k: FindingView)
    requires
        s.len() > 0,
    ensures
        key_class(s, k) == if same_key(s.last(), k) {
            key_class(s.drop_last(), k).push(s.last())
        } else {
            key_class(s.drop_last(), k)
        },
{
    assert(s.drop_last().push(s.last()) =~= s);
    s.drop_last().lemma_filter_push(s.last(), |y: FindingView| same_key(y, k));
}

/// A finding has a place in `s` exactly when its class there is not empty.
proof fn lemma_class_nonempty(s: Seq<FindingView>, k: FindingView)
    ensures
        key_class(s, k).len() > 0 <==> exists|q: int| 0 <= q < s.len() && same_key(#[trigger] s[q], k),
{
    let pred = |y: FindingView| same_key(y, k);
    broadcast use vstd::seq_lib::group_filter_ensures;
    if key_class(s, k).len() > 0 {
        s.lemma_filter_pred(pred, 0);
        s.lemma_filter_contains_rev(pred, key_class(s, k)[0]);
    }
    if exists|q: int| 0 <= q < s.len() && same_key(#[trigger] s[q], k) {
        let q = choose|q: int| 0 <= q < s.len() && same_key(#[trigger] s[q], k);
        s.lemma_filter_contains(pred, q);
    }
}

/// The report order leaves no choice: two sequences in report order that
/// hold, place by place, the same findings in the same order are equal. So
/// sorting a report that is already in order changes nothing.
pub proof fn law_order_is_unique(a: Seq<FindingView>, b: Seq<FindingView>)
    requires
        sorted_by_key(a),
        sorted_by_key(b),
        forall|k: FindingView| #[trigger] key_class(a, k) == key_class(b, k),
    ensures
        a == b,
    decreases a.len(),
{
    if a.len() == 0 {
        if b.len() > 0 {
            lemma_class_nonempty(b, b[0]);
            lemma_class_nonempty(a, b[0]);
            assert(key_class(a, b[0]) == key_class(b, b[0]));
        }
        assert(a =~= b);
    } else if b.len() == 0 {
        lemma_class_nonempty(a, a[0]);
        lemma_class_nonempty(b, a[0]);
        assert(key_class(a, a[0]) == key_class(b, a[0]));
    } else {
        let x = a.last();
        let z = b.last();
        lemma_class_nonempty(a, z);
        lemma_class_nonempty(b, z);
        assert(key_class(a, z) == key_class(b, z));
        assert(same_key(z, z));
        let w = choose|q: int| 0 <= q < a.len() && same_key(#[trigger] a[q], z);
        lemma_class_nonempty(a, x);
        lemma_class_nonempty(b, x);
        assert(key_class(a, x) == key_class(b, x));
        assert(same_key(x, x));
        let y = choose|q: int| 0 <= q < b.len() && same_key(#[trigger] b[q], x);
        lemma_key_order(x, a[w], z);
        lemma_key_order(z, b[y], x);
        lemma_key_order(a[w], x, z);
        lemma_key_order(b[y], z, x);
        lemma_key_order(x, z, a[w]);
        lemma_key_order(z, x, b[y]);
        if w < a.len() - 1 {
            assert(!key_lt(a[a.len() - 1], a[w]));
        }
        if y < b.len() - 1 {
            assert(!key_lt(b[b.len() - 1], b[y]));
        }
        assert(same_key(z, x));
        lemma_class_drop_last(a, x);
        lemma_class_drop_last(b, x);
        assert(key_class(a, x).last() == x);
        assert(key_class(b, x).last() == z);
        assert(key_class(a.drop_last(), x) =~= key_class(a, x).drop_last());
        assert(key_class(b.drop_last(), x) =~= key_class(b, x).drop_last());
        assert forall|k: FindingView| #[trigger] key_class(a.drop_last(), k) == key_class(
            b.drop_last(),
            k,
        ) by {
            lemma_class_drop_last(a, k);
            lemma_class_drop_last(b, k);
            assert(key_class(a, k) == key_class(b, k));
            if same_key(x, k) {
                lemma_key_order(x, k, z);
                lemma_key_order(k, x, z);
                lemma_class_of_same_key(a.drop_last(), k, x);
                lemma_class_of_same_key(b.drop_last(), k, x);
            } else {
                lemma_key_order(z, x, k);
                lemma_key_order(x, z, k);
                assert(!same_key(z, k)) by {
                    if same_key(z, k) {
                        assert(same_key(x, k));
                    }
                }
            }
        }
        law_order_is_unique(a.drop_last(), b.drop_last());
        assert(a =~= a.drop_last().push(x));
        assert(b =~= b.drop_last().push(z));
    }
}

} // verus!
