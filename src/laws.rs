use vstd::prelude::*;
use crate::scanner::{lemma_placeholder_bounds, placeholder_at, scan, scan_from, Placeholder};
use crate::substitute::{cursor, lemma_scan_ordered, resolve_path, spliced, substituted};
use crate::value::Value;

verus! {

/// How much longer the output is than the text, over the first `n`
/// placeholders: each adds the length of its replacement and takes away its own.
pub open spec fn growth(
    occs: Seq<Placeholder>,
    text: spec_fn(Seq<char>) -> Option<Seq<char>>,
    n: int,
) -> int
    decreases n,
{
    if n <= 0 {
        0
    } else {
        growth(occs, text, n - 1) + match text(occs[n - 1].name) {
            Some(t) => t.len() as int,
            None => 0,
        } - (occs[n - 1].end - occs[n - 1].start)
    }
}

/// Two opening braces start at index `j` of `s`.
pub open spec fn opens_at(s: Seq<char>, j: int) -> bool {
    s[j] == '{' && s[j + 1] == '{'
}

proof fn lemma_no_open_no_scan(s: Seq<char>, i: int)
    requires
        0 <= i,
        forall|j: int| 0 <= j < s.len() - 1 ==> !#[trigger] opens_at(s, j),
    ensures
        scan_from(s, i).len() == 0,
    decreases s.len() - i,
{
    if i < s.len() {
        if i < s.len() - 1 {
            assert(!opens_at(s, i));
        }
        assert(placeholder_at(s, i) is None);
        lemma_no_open_no_scan(s, i + 1);
    }
}

/// A text in which no `{` follows another `{` holds no placeholder, and
/// substitution gives it back unchanged, whatever the variables.
pub proof fn lemma_identity_without_placeholders(
    s: Seq<char>,
    text: spec_fn(Seq<char>) -> Option<Seq<char>>,
)
    requires
        forall|j: int| 0 <= j < s.len() - 1 ==> !#[trigger] opens_at(s, j),
    ensures
        scan(s).len() == 0,
        substituted(s, text) == s,
{
    lemma_no_open_no_scan(s, 0);
    assert(substituted(s, text) =~= s);
}

proof fn lemma_spliced_len(
    s: Seq<char>,
    occs: Seq<Placeholder>,
    text: spec_fn(Seq<char>) -> Option<Seq<char>>,
    n: int,
)
    requires
        0 <= n <= occs.len(),
        forall|k: int| 0 <= k < occs.len() ==> 0 <= #[trigger] occs[k].start && occs[k].start
            < occs[k].end <= s.len(),
        forall|k: int| 0 < k < occs.len() ==> occs[k - 1].end <= #[trigger] occs[k].start,
    ensures
        spliced(s, occs, text, n).len() == cursor(occs, n) + growth(occs, text, n),
    decreases n,
{
    if n > 0 {
        lemma_spliced_len(s, occs, text, n - 1);
        if n > 1 {
            assert(occs[n - 2].end <= occs[n - 1].start);
        }
    }
}

proof fn lemma_spliced_prefix(
    s: Seq<char>,
    occs: Seq<Placeholder>,
    text: spec_fn(Seq<char>) -> Option<Seq<char>>,
    m: int,
    n: int,
)
    requires
        0 <= m <= n,
    ensures
        spliced(s, occs, text, m).len() <= spliced(s, occs, text, n).len(),
        spliced(s, occs, text, n).subrange(0, spliced(s, occs, text, m).len() as int)
            == spliced(s, occs, text, m),
    decreases n - m,
{
    if m < n {
        lemma_spliced_prefix(s, occs, text, m, n - 1);
        let a = spliced(s, occs, text, m);
        let b = spliced(s, occs, text, n - 1);
        let c = spliced(s, occs, text, n);
        assert(c.subrange(0, b.len() as int) =~= b);
        assert(c.subrange(0, a.len() as int) =~= b.subrange(0, a.len() as int));
    } else {
        let a = spliced(s, occs, text, m);
        assert(a.subrange(0, a.len() as int) =~= a);
    }
}

/// The output is as long as the text, plus for each placeholder the length of
/// its replacement, less the length of the placeholder. Each stretch of text
/// before a placeholder, and the stretch after the last one, is copied as it
/// is, shifted by the growth of the placeholders before it.
pub proof fn lemma_length_accounting(s: Seq<char>, text: spec_fn(Seq<char>) -> Option<Seq<char>>)
    ensures
        ({
            let out = substituted(s, text);
            let occs = scan(s);
            let n = occs.len() as int;
            &&& out.len() == s.len() + growth(occs, text, n)
            &&& forall|k: int|
                0 <= k < n ==> #[trigger] out.subrange(
                    cursor(occs, k) + growth(occs, text, k),
                    occs[k].start + growth(occs, text, k),
                ) == s.subrange(cursor(occs, k), occs[k].start)
            &&& out.subrange(cursor(occs, n) + growth(occs, text, n), out.len() as int)
                == s.subrange(cursor(occs, n), s.len() as int)
        }),
{
    let occs = scan(s);
    let n = occs.len() as int;
    let out = substituted(s, text);
    lemma_scan_ordered(s, 0);
    lemma_spliced_len(s, occs, text, n);
    if n > 0 {
        assert(occs[n - 1].end <= s.len());
    }
    let whole = spliced(s, occs, text, n);
    assert(out.subrange(0, whole.len() as int) =~= whole);
    assert forall|k: int| 0 <= k < n implies #[trigger] out.subrange(
        cursor(occs, k) + growth(occs, text, k),
        occs[k].start + growth(occs, text, k),
    ) == s.subrange(cursor(occs, k), occs[k].start) by {
        lemma_spliced_len(s, occs, text, k);
        lemma_spliced_len(s, occs, text, k + 1);
        lemma_spliced_prefix(s, occs, text, k + 1, n);
        if k > 0 {
            assert(occs[k - 1].end <= occs[k].start);
        }
        let pre = spliced(s, occs, text, k);
        let next = spliced(s, occs, text, k + 1);
        let lit = s.subrange(cursor(occs, k), occs[k].start);
        assert(next.subrange(pre.len() as int, (pre.len() + lit.len()) as int) =~= lit);
        assert(out.subrange(0, next.len() as int) =~= next);
        assert(out.subrange(pre.len() as int, (pre.len() + lit.len()) as int) =~= lit);
    }
    assert(out.subrange(whole.len() as int, out.len() as int) =~= s.subrange(
        cursor(occs, n),
        s.len() as int,
    ));
}

/// Substitution is one pass: a text that is a single placeholder becomes
/// exactly its replacement, even where that holds placeholders of its own.
pub proof fn lemma_single_pass(s: Seq<char>, text: spec_fn(Seq<char>) -> Option<Seq<char>>)
    requires
        placeholder_at(s, 0) matches Some(p) && p.end == s.len(),
    ensures
        substituted(s, text) == match text(placeholder_at(s, 0)->0.name) {
            Some(t) => t,
            None => seq![],
        },
{
    let p = placeholder_at(s, 0)->0;
    lemma_placeholder_bounds(s, 0);
    assert(scan_from(s, p.end) =~= Seq::<Placeholder>::empty());
    assert(scan(s) =~= seq![p]);
    assert(spliced(s, scan(s), text, 0) =~= Seq::<char>::empty());
    assert(substituted(s, text) =~= match text(p.name) {
        Some(t) => t,
        None => seq![],
    });
}

/// Following a path made of two parts is following the first part, then the
/// second from where the first led; it fails where either fails.
pub proof fn lemma_resolve_concat(v: Value, a: Seq<Seq<char>>, b: Seq<Seq<char>>)
    ensures
        resolve_path(v, a + b) == match resolve_path(v, a) {
            Some(x) => resolve_path(x, b),
            None => None,
        },
    decreases a.len(),
{
    if a.len() == 0 {
        assert(a + b =~= b);
    } else {
        let ab = a + b;
        assert(ab[0] == a[0]);
        assert(ab.subrange(1, ab.len() as int) =~= a.subrange(1, a.len() as int) + b);
        match v {
            Value::Table(t) => match t.spec_get(a[0]) {
                Some(x) => {
                    lemma_resolve_concat(x, a.subrange(1, a.len() as int), b);
                },
                None => {},
            },
            _ => {},
        }
    }
}

/// One segment is one lookup in a table; on any other value it fails.
pub proof fn lemma_resolve_single(v: Value, key: Seq<char>)
    ensures
        resolve_path(v, seq![key]) == match v {
            Value::Table(t) => t.spec_get(key),
            _ => None,
        },
{
    let p = seq![key];
    assert(p.subrange(1, 1) =~= Seq::<Seq<char>>::empty());
    if let Value::Table(t) = v {
        if let Some(x) = t.spec_get(key) {
            assert(resolve_path(x, p.subrange(1, 1)) == Some(x));
        }
    }
}

/// A path `k0.k1...` is the lookups of its segments one after the other: where
/// a segment reaches a value that is not a table and more segments follow, the
/// whole path fails, with no partial result.
pub proof fn lemma_resolve_stepwise(v: Value, segs: Seq<Seq<char>>, i: int)
    requires
        0 <= i < segs.len(),
    ensures
        resolve_path(v, segs.subrange(0, i + 1)) == match resolve_path(v, segs.subrange(0, i)) {
            Some(x) => match x {
                Value::Table(t) => t.spec_get(segs[i]),
                _ => None,
            },
            None => None,
        },
        (resolve_path(v, segs.subrange(0, i)) matches Some(x) && !(x is Table)) ==> resolve_path(
            v,
            segs,
        ) is None,
{
    assert(segs.subrange(0, i + 1) =~= segs.subrange(0, i) + seq![segs[i]]);
    lemma_resolve_concat(v, segs.subrange(0, i), seq![segs[i]]);
    match resolve_path(v, segs.subrange(0, i)) {
        Some(x) => {
            lemma_resolve_single(x, segs[i]);
            assert(segs =~= segs.subrange(0, i) + segs.subrange(i, segs.len() as int));
            lemma_resolve_concat(v, segs.subrange(0, i), segs.subrange(i, segs.len() as int));
        },
        None => {},
    }
}

} // verus!
