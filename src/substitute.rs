use vstd::prelude::*;
use crate::render::{push_rendered, render};
use crate::scanner::{
    find_variables, lemma_placeholder_bounds, placeholder_at, scan, scan_from, Placeholder,
    Variable,
};
use crate::text::{chars_of, string_of_range};
use crate::value::{Table, Value};
use vstd::string::StringExecFns;

verus! {

/// The segments of `s` between the dots, from a segment that starts at `start`,
/// with index `k` scanned next.
pub open spec fn split_from(s: Seq<char>, start: int, k: int) -> Seq<Seq<char>>
    decreases s.len() - k,
{
    if k >= s.len() {
        seq![s.subrange(start, s.len() as int)]
    } else if s[k] == '.' {
        seq![s.subrange(start, k)] + split_from(s, k + 1, k + 1)
    } else {
        split_from(s, start, k + 1)
    }
}

/// The segments of a dotted path: `a.b.c` gives `a`, `b`, `c`.
pub open spec fn segments(s: Seq<char>) -> Seq<Seq<char>> {
    split_from(s, 0, 0)
}

/// Follows `segs` from `v`: each segment is looked up as a key of the table
/// reached so far. Fails as soon as a segment meets a value that is not a table
/// or a table without that key.
pub open spec fn resolve_path(v: Value, segs: Seq<Seq<char>>) -> Option<Value>
    decreases segs.len(),
{
    if segs.len() == 0 {
        Some(v)
    } else {
        match v {
            Value::Table(t) => match t.spec_get(segs[0]) {
                Some(x) => resolve_path(x, segs.subrange(1, segs.len() as int)),
                None => None,
            },
            _ => None,
        }
    }
}

/// The value that the dotted `name` denotes in `vars`.
pub open spec fn resolve(vars: Table, name: Seq<char>) -> Option<Value> {
    resolve_path(Value::Table(vars), segments(name))
}

/// The value of the environment variable `name` in `env`, from index `i` on.
pub open spec fn env_lookup_from(env: Seq<(String, String)>, name: Seq<char>, i: int) -> Option<
    Seq<char>,
>
    decreases env.len() - i,
{
    if i < 0 || i >= env.len() {
        None
    } else if env[i].0@ == name {
        Some(env[i].1@)
    } else {
        env_lookup_from(env, name, i + 1)
    }
}

/// The value of the environment variable `name` in `env`.
pub open spec fn env_lookup(env: Seq<(String, String)>, name: Seq<char>) -> Option<Seq<char>> {
    env_lookup_from(env, name, 0)
}

/// The text that replaces a placeholder naming `name`: the rendered value of
/// the path, else (with `use_env`) the environment variable named `name`
/// whole, else nothing.
pub open spec fn value_text(
    vars: Table,
    use_env: bool,
    env: Seq<(String, String)>,
    name: Seq<char>,
) -> Option<Seq<char>> {
    match resolve(vars, name) {
        Some(v) => Some(render(v)),
        None => if use_env {
            env_lookup(env, name)
        } else {
            None
        },
    }
}

/// Where the text after the first `n` placeholders resumes.
pub open spec fn cursor(occs: Seq<Placeholder>, n: int) -> int {
    if n <= 0 {
        0
    } else {
        occs[n - 1].end
    }
}

/// The output for the first `n` placeholders: for each, the text before it and
/// then its replacement (nothing where `text` gives none).
pub open spec fn spliced(
    s: Seq<char>,
    occs: Seq<Placeholder>,
    text: spec_fn(Seq<char>) -> Option<Seq<char>>,
    n: int,
) -> Seq<char>
    decreases n,
{
    if n <= 0 {
        seq![]
    } else {
        spliced(s, occs, text, n - 1) + s.subrange(cursor(occs, n - 1), occs[n - 1].start)
            + match text(occs[n - 1].name) {
            Some(t) => t,
            None => seq![],
        }
    }
}

/// `s` with every placeholder replaced by its text, or removed where it has none.
pub open spec fn substituted(s: Seq<char>, text: spec_fn(Seq<char>) -> Option<Seq<char>>) -> Seq<
    char,
> {
    let occs = scan(s);
    spliced(s, occs, text, occs.len() as int) + s.subrange(
        cursor(occs, occs.len() as int),
        s.len() as int,
    )
}

/// The names of the first `n` placeholders that have no text, in order.
pub open spec fn unresolved(
    occs: Seq<Placeholder>,
    text: spec_fn(Seq<char>) -> Option<Seq<char>>,
    n: int,
) -> Seq<Seq<char>>
    decreases n,
{
    if n <= 0 {
        seq![]
    } else if text(occs[n - 1].name) is None {
        unresolved(occs, text, n - 1).push(occs[n - 1].name)
    } else {
        unresolved(occs, text, n - 1)
    }
}

/// The placeholders from index `i` on lie in order, apart, within the text.
pub proof fn lemma_scan_ordered(s: Seq<char>, i: int)
    requires
        0 <= i,
    ensures
        ({
            let r = scan_from(s, i);
            &&& forall|k: int| 0 <= k < r.len() ==> i <= #[trigger] r[k].start && r[k].start
                < r[k].end <= s.len()
            &&& forall|k: int| 0 < k < r.len() ==> r[k - 1].end <= #[trigger] r[k].start
        }),
    decreases s.len() - i,
{
    if i < s.len() {
        match placeholder_at(s, i) {
            Some(p) => {
                lemma_placeholder_bounds(s, i);
                lemma_scan_ordered(s, p.end);
                let r = scan_from(s, i);
                let rest = scan_from(s, p.end);
                assert(r == seq![p] + rest);
                assert(r[0] == p);
                assert forall|k: int| 0 < k < r.len() implies r[k - 1].end <= #[trigger] r[k].start by {
                    assert(r[k] == rest[k - 1]);
                    if k > 1 {
                        assert(r[k - 1] == rest[k - 2]);
                    }
                }
                assert forall|k: int| 0 <= k < r.len() implies i <= #[trigger] r[k].start && r[k].start
                    < r[k].end <= s.len() by {
                    if k > 0 {
                        assert(r[k] == rest[k - 1]);
                    }
                }
            },
            None => {
                lemma_scan_ordered(s, i + 1);
                assert(scan_from(s, i) == scan_from(s, i + 1));
            },
        }
    }
}

/// The outcome of a substitution: the new text, and the names of the
/// placeholders that had no value, in order.
pub struct Substitution {
    pub content: String,
    pub missing: Vec<String>,
}

/// Appends `v[from..to]` to `out`.
fn push_range(out: &mut String, v: &Vec<char>, from: usize, to: usize)
    requires
        from <= to <= v@.len(),
    ensures
        final(out)@ == old(out)@ + v@.subrange(from as int, to as int),
{
    let ghost start = out@;
    let mut i: usize = from;
    while i < to
        invariant
            from <= i <= to <= v@.len(),
            out@ == start + v@.subrange(from as int, i as int),
        decreases to - i,
    {
        out.push(v[i]);
        i = i + 1;
        assert(out@ =~= start + v@.subrange(from as int, i as int));
    }
}

/// The segments of the dotted `name`.
pub fn split_path(name: &String) -> (r: Vec<String>)
    ensures
        r@.len() == segments(name@).len(),
        forall|k: int| 0 <= k < r@.len() ==> #[trigger] r@[k]@ == segments(name@)[k],
{
    let v = chars_of(name.as_str());
    let ghost s = name@;
    let mut r: Vec<String> = Vec::new();
    let mut start: usize = 0;
    let mut k: usize = 0;
    while k < v.len()
        invariant
            v@ == s,
            start <= k <= v@.len(),
            r@.map_values(|x: String| x@) + split_from(s, start as int, k as int) == segments(s),
        decreases v@.len() - k,
    {
        if v[k] == '.' {
            let seg = string_of_range(&v, start, k);
            let ghost before = r@.map_values(|x: String| x@);
            r.push(seg);
            assert(r@.map_values(|x: String| x@) =~= before.push(seg@));
            assert(before.push(seg@) + split_from(s, k + 1, k + 1) =~= before + split_from(
                s,
                start as int,
                k as int,
            ));
            start = k + 1;
        }
        k = k + 1;
    }
    let seg = string_of_range(&v, start, k);
    let ghost before = r@.map_values(|x: String| x@);
    r.push(seg);
    proof {
        assert(r@.map_values(|x: String| x@) =~= before + split_from(s, start as int, k as int));
        assert forall|j: int| 0 <= j < r@.len() implies #[trigger] r@[j]@ == segments(name@)[j] by {
            assert(r@.map_values(|x: String| x@)[j] == r@[j]@);
        }
    }
    r
}

/// The value that the path `segs` reaches from the table `vars`.
pub fn resolve_segments<'a>(vars: &'a Table, segs: &Vec<String>) -> (r: Option<&'a Value>)
    requires
        segs@.len() > 0,
    ensures
        match r {
            Some(v) => resolve_path(Value::Table(*vars), segs@.map_values(|x: String| x@)) == Some(
                *v,
            ),
            None => resolve_path(Value::Table(*vars), segs@.map_values(|x: String| x@)) is None,
        },
{
    let ghost sv = segs@.map_values(|x: String| x@);
    let mut cur: &Table = vars;
    let mut k: usize = 0;
    assert(sv.subrange(0, sv.len() as int) =~= sv);
    loop
        invariant
            k < segs@.len(),
            sv == segs@.map_values(|x: String| x@),
            resolve_path(Value::Table(*vars), sv) == resolve_path(
                Value::Table(*cur),
                sv.subrange(k as int, sv.len() as int),
            ),
        decreases segs@.len() - k,
    {
        let ghost rest = sv.subrange(k as int, sv.len() as int);
        assert(rest[0] == segs@[k as int]@);
        assert(rest.subrange(1, rest.len() as int) =~= sv.subrange(k + 1, sv.len() as int));
        match cur.get(&segs[k]) {
            None => {
                return None;
            },
            Some(x) => {
                if k == segs.len() - 1 {
                    assert(sv.subrange(k + 1, sv.len() as int).len() == 0);
                    assert(resolve_path(*x, sv.subrange(k + 1, sv.len() as int)) == Some(*x));
                    return Some(x);
                }
                match x {
                    Value::Table(t) => {
                        cur = t;
                        k = k + 1;
                    },
                    _ => {
                        return None;
                    },
                }
            },
        }
    }
}

/// The value of the environment variable `name` in `env`.
pub fn env_get<'a>(env: &'a Vec<(String, String)>, name: &String) -> (r: Option<&'a String>)
    ensures
        match r {
            Some(t) => env_lookup(env@, name@) == Some(t@),
            None => env_lookup(env@, name@) is None,
        },
{
    let mut i: usize = 0;
    while i < env.len()
        invariant
            i <= env@.len(),
            env_lookup(env@, name@) == env_lookup_from(env@, name@, i as int),
        decreases env@.len() - i,
    {
        if env[i].0 == *name {
            return Some(&env[i].1);
        }
        i = i + 1;
    }
    None
}

/// Appends the text of the placeholder naming `name` to `out`; returns whether
/// there was one.
fn push_value(
    out: &mut String,
    vars: &Table,
    use_env: bool,
    env: &Vec<(String, String)>,
    name: &String,
) -> (found: bool)
    ensures
        found == value_text(*vars, use_env, env@, name@) is Some,
        final(out)@ == old(out)@ + match value_text(*vars, use_env, env@, name@) {
            Some(t) => t,
            None => seq![],
        },
{
    let segs = split_path(name);
    proof {
        assert(segs@.map_values(|x: String| x@) =~= segments(name@));
        assert(segments(name@).len() > 0) by {
            lemma_split_nonempty(name@, 0, 0);
        }
    }
    match resolve_segments(vars, &segs) {
        Some(v) => {
            push_rendered(out, v);
            true
        },
        None => {
            if use_env {
                match env_get(env, name) {
                    Some(t) => {
                        out.append(t.as_str());
                        true
                    },
                    None => {
                        assert(out@ =~= out@ + Seq::<char>::empty());
                        false
                    },
                }
            } else {
                assert(out@ =~= out@ + Seq::<char>::empty());
                false
            }
        },
    }
}

proof fn lemma_split_nonempty(s: Seq<char>, start: int, k: int)
    ensures
        split_from(s, start, k).len() > 0,
    decreases s.len() - k,
{
    if k < s.len() {
        lemma_split_nonempty(s, if s[k] == '.' { k + 1 } else { start }, k + 1);
    }
}

/// Replaces each placeholder of `content` by the value its path reaches in
/// `vars`; where the path reaches none and `use_env` holds, by the variable of
/// `env` named like the placeholder. A placeholder with neither is removed and
/// its name listed in `missing`.
pub fn replace_all(content: &str, vars: &Table, use_env: bool, env: &Vec<(String, String)>) -> (r:
    Substitution)
    ensures
        r.content@ == substituted(content@, |n: Seq<char>| value_text(*vars, use_env, env@, n)),
        r.missing@.map_values(|x: String| x@) == unresolved(
            scan(content@),
            |n: Seq<char>| value_text(*vars, use_env, env@, n),
            scan(content@).len() as int,
        ),
{
    let ghost s = content@;
    let ghost text = |n: Seq<char>| value_text(*vars, use_env, env@, n);
    let v = chars_of(content);
    let found = find_variables(content);
    let ghost occs = scan(s);
    proof {
        lemma_scan_ordered(s, 0);
    }
    let mut out = String::new();
    let mut missing: Vec<String> = Vec::new();
    let mut prev: usize = 0;
    let mut k: usize = 0;
    while k < found.len()
        invariant
            v@ == s,
            text == (|n: Seq<char>| value_text(*vars, use_env, env@, n)),
            occs == scan(s),
            found@.len() == occs.len(),
            forall|j: int| 0 <= j < found@.len() ==> #[trigger] found@[j]@ == occs[j],
            forall|j: int| 0 <= j < occs.len() ==> 0 <= #[trigger] occs[j].start && occs[j].start
                < occs[j].end <= s.len(),
            forall|j: int| 0 < j < occs.len() ==> occs[j - 1].end <= #[trigger] occs[j].start,
            k <= found@.len(),
            prev == cursor(occs, k as int),
            prev <= s.len(),
            out@ == spliced(s, occs, text, k as int),
            missing@.map_values(|x: String| x@) == unresolved(occs, text, k as int),
        decreases found@.len() - k,
    {
        let var = &found[k];
        let ghost o = occs[k as int];
        assert(var@ == o);
        assert(var.start_index == o.start && var.end_index == o.end && var.name@ == o.name);
        if k > 0 {
            assert(occs[k - 1].end <= occs[k as int].start);
        }
        let ghost out_before = out@;
        push_range(&mut out, &v, prev, var.start_index);
        let ghost before_missing = missing@.map_values(|x: String| x@);
        let ghost mid = out@;
        assert(mid == out_before + s.subrange(cursor(occs, k as int), o.start));
        assert(text(o.name) == value_text(*vars, use_env, env@, o.name));
        let ok = push_value(&mut out, vars, use_env, env, &var.name);
        if !ok {
            missing.push(clone_string(&var.name));
            assert(missing@.map_values(|x: String| x@) =~= before_missing.push(var.name@));
        } else {
            assert(missing@.map_values(|x: String| x@) =~= before_missing);
        }
        assert(unresolved(occs, text, k + 1) == if text(o.name) is None {
            unresolved(occs, text, k as int).push(o.name)
        } else {
            unresolved(occs, text, k as int)
        });
        assert(out@ =~= out_before + s.subrange(cursor(occs, k as int), o.start) + match text(
            o.name,
        ) {
            Some(t) => t,
            None => seq![],
        });
        assert(spliced(s, occs, text, k + 1) == spliced(s, occs, text, k as int) + s.subrange(
            cursor(occs, k as int),
            o.start,
        ) + match text(o.name) {
            Some(t) => t,
            None => seq![],
        });
        prev = var.end_index;
        k = k + 1;
    }
    push_range(&mut out, &v, prev, v.len());
    Substitution { content: out, missing }
}

/// The warning for a placeholder without a value:
/// `Not found value for variable '<name>' from chapter '<chapter>'`.
pub fn missing_message(name: &String, chapter: &str) -> (r: String)
    ensures
        r@ == "Not found value for variable '"@ + name@ + "' from chapter '"@ + chapter@ + "'"@,
{
    let mut r = String::from_str("Not found value for variable '");
    r.append(name.as_str());
    r.append("' from chapter '");
    r.append(chapter);
    r.append("'");
    r
}

fn clone_string(s: &String) -> (r: String)
    ensures
        r@ == s@,
{
    s.clone()
}

} // verus!
