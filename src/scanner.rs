use vstd::prelude::*;
use crate::text::{chars_of, string_of_range};

verus! {

/// Unicode white space, the characters allowed around a variable name.
pub open spec fn is_space(c: char) -> bool {
    ('\u{9}' <= c && c <= '\u{d}') || c == ' ' || c == '\u{85}' || c == '\u{a0}' || c
        == '\u{1680}' || ('\u{2000}' <= c && c <= '\u{200a}') || c == '\u{2028}' || c
        == '\u{2029}' || c == '\u{202f}' || c == '\u{205f}' || c == '\u{3000}'
}

/// ASCII letters and digits, `_`, and `.` which separates the segments of a path.
pub open spec fn is_name_char(c: char) -> bool {
    ('a' <= c && c <= 'z') || ('A' <= c && c <= 'Z') || ('0' <= c && c <= '9') || c == '_' || c
        == '.'
}

/// The number of white-space characters in the run that starts at index `k`.
pub open spec fn space_run(s: Seq<char>, k: int) -> nat
    decreases s.len() - k,
{
    if 0 <= k < s.len() && is_space(s[k]) {
        1 + space_run(s, k + 1)
    } else {
        0
    }
}

/// The number of name characters in the run that starts at index `k`.
pub open spec fn name_run(s: Seq<char>, k: int) -> nat
    decreases s.len() - k,
{
    if 0 <= k < s.len() && is_name_char(s[k]) {
        1 + name_run(s, k + 1)
    } else {
        0
    }
}

/// The first index at or after `k` that holds no white space (or the length).
pub open spec fn skip_space(s: Seq<char>, k: int) -> int {
    k + space_run(s, k)
}

/// The first index at or after `k` that holds no name character (or the length).
pub open spec fn skip_name(s: Seq<char>, k: int) -> int {
    k + name_run(s, k)
}

/// A placeholder found in a text: it spans `start..end` and names `name`.
pub ghost struct Placeholder {
    pub start: int,
    pub end: int,
    pub name: Seq<char>,
}

/// The placeholder that starts at index `i` of `s`, if one does: `{{`, optional
/// white space, a name of one or more name characters, optional white space, `}}`.
pub open spec fn placeholder_at(s: Seq<char>, i: int) -> Option<Placeholder> {
    if 0 <= i && i + 1 < s.len() && s[i] == '{' && s[i + 1] == '{' {
        let ns = skip_space(s, i + 2);
        let ne = skip_name(s, ns);
        let cs = skip_space(s, ne);
        if ns < ne && cs + 1 < s.len() && s[cs] == '}' && s[cs + 1] == '}' {
            Some(Placeholder { start: i, end: cs + 2, name: s.subrange(ns, ne) })
        } else {
            None
        }
    } else {
        None
    }
}

pub proof fn lemma_skip_space_bounds(s: Seq<char>, k: int)
    requires
        0 <= k <= s.len(),
    ensures
        k <= skip_space(s, k) <= s.len(),
        forall|m: int| k <= m < skip_space(s, k) ==> is_space(#[trigger] s[m]),
    decreases s.len() - k,
{
    if k < s.len() && is_space(s[k]) {
        lemma_skip_space_bounds(s, k + 1);
        assert forall|m: int| k <= m < skip_space(s, k) implies is_space(#[trigger] s[m]) by {
            if m > k {
                assert(k + 1 <= m < skip_space(s, k + 1));
            }
        }
    }
}

pub proof fn lemma_skip_name_bounds(s: Seq<char>, k: int)
    requires
        0 <= k <= s.len(),
    ensures
        k <= skip_name(s, k) <= s.len(),
        forall|m: int| k <= m < skip_name(s, k) ==> is_name_char(#[trigger] s[m]),
    decreases s.len() - k,
{
    if k < s.len() && is_name_char(s[k]) {
        lemma_skip_name_bounds(s, k + 1);
        assert forall|m: int| k <= m < skip_name(s, k) implies is_name_char(#[trigger] s[m]) by {
            if m > k {
                assert(k + 1 <= m < skip_name(s, k + 1));
            }
        }
    }
}

/// A placeholder lies within the text, after its start, and is at least five
/// characters long.
pub proof fn lemma_placeholder_bounds(s: Seq<char>, i: int)
    requires
        placeholder_at(s, i) is Some,
    ensures
        ({
            let p = placeholder_at(s, i)->0;
            p.start == i && i + 5 <= p.end <= s.len()
        }),
{
    lemma_skip_space_bounds(s, i + 2);
    let ns = skip_space(s, i + 2);
    lemma_skip_name_bounds(s, ns);
    lemma_skip_space_bounds(s, skip_name(s, ns));
}

/// The placeholders of `s` from index `i` on, left to right: the first one that
/// starts at or after `i`, then the placeholders after its end.
pub open spec fn scan_from(s: Seq<char>, i: int) -> Seq<Placeholder>
    decreases s.len() - i,
{
    if i < 0 || i >= s.len() {
        seq![]
    } else {
        match placeholder_at(s, i) {
            Some(p) => seq![p] + scan_from(s, p.end),
            None => scan_from(s, i + 1),
        }
    }
}

/// The placeholders of `s`, left to right.
pub open spec fn scan(s: Seq<char>) -> Seq<Placeholder> {
    scan_from(s, 0)
}

/// A placeholder found by `find_variables`.
pub struct Variable {
    pub start_index: usize,
    pub end_index: usize,
    pub name: String,
}

impl View for Variable {
    type V = Placeholder;

    open spec fn view(&self) -> Placeholder {
        Placeholder { start: self.start_index as int, end: self.end_index as int, name: self.name@ }
    }
}

pub fn space(c: char) -> (r: bool)
    ensures
        r == is_space(c),
{
    ('\u{9}' <= c && c <= '\u{d}') || c == ' ' || c == '\u{85}' || c == '\u{a0}' || c
        == '\u{1680}' || ('\u{2000}' <= c && c <= '\u{200a}') || c == '\u{2028}' || c
        == '\u{2029}' || c == '\u{202f}' || c == '\u{205f}' || c == '\u{3000}'
}

pub fn name_char(c: char) -> (r: bool)
    ensures
        r == is_name_char(c),
{
    ('a' <= c && c <= 'z') || ('A' <= c && c <= 'Z') || ('0' <= c && c <= '9') || c == '_' || c
        == '.'
}

fn skip_spaces(v: &Vec<char>, k: usize) -> (r: usize)
    requires
        k <= v@.len(),
    ensures
        r == skip_space(v@, k as int),
{
    let mut j = k;
    while j < v.len() && space(v[j])
        invariant
            k <= j <= v@.len(),
            skip_space(v@, j as int) == skip_space(v@, k as int),
        decreases v@.len() - j,
    {
        j = j + 1;
    }
    j
}

fn skip_name_chars(v: &Vec<char>, k: usize) -> (r: usize)
    requires
        k <= v@.len(),
    ensures
        r == skip_name(v@, k as int),
{
    let mut j = k;
    while j < v.len() && name_char(v[j])
        invariant
            k <= j <= v@.len(),
            skip_name(v@, j as int) == skip_name(v@, k as int),
        decreases v@.len() - j,
    {
        j = j + 1;
    }
    j
}

/// The placeholder that starts at index `i` of `v`, as (end, name start, name end).
fn match_at(v: &Vec<char>, i: usize) -> (r: Option<(usize, usize, usize)>)
    requires
        i < v@.len(),
    ensures
        match r {
            Some((e, ns, ne)) => placeholder_at(v@, i as int) == Some(
                Placeholder { start: i as int, end: e as int, name: v@.subrange(ns as int, ne as int) },
            ) && ns <= ne <= v@.len(),
            None => placeholder_at(v@, i as int) is None,
        },
{
    if v.len() - i >= 2 && v[i] == '{' && v[i + 1] == '{' {
        let ns = skip_spaces(v, i + 2);
        proof {
            lemma_skip_space_bounds(v@, i + 2);
        }
        let ne = skip_name_chars(v, ns);
        proof {
            lemma_skip_name_bounds(v@, ns as int);
        }
        let cs = skip_spaces(v, ne);
        proof {
            lemma_skip_space_bounds(v@, ne as int);
        }
        if ns < ne && cs < v.len() && v.len() - cs >= 2 && v[cs] == '}' && v[cs + 1] == '}' {
            Some((cs + 2, ns, ne))
        } else {
            None
        }
    } else {
        None
    }
}

/// The placeholders of `content`, left to right; indices count characters.
pub fn find_variables(content: &str) -> (r: Vec<Variable>)
    ensures
        r@.len() == scan(content@).len(),
        forall|k: int| 0 <= k < r@.len() ==> #[trigger] r@[k]@ == scan(content@)[k],
{
    let v = chars_of(content);
    let ghost s = content@;
    let mut r: Vec<Variable> = Vec::new();
    let mut i: usize = 0;
    while i < v.len()
        invariant
            v@ == s,
            i <= v@.len(),
            r@.map_values(|x: Variable| x@) + scan_from(s, i as int) == scan(s),
        decreases v@.len() - i,
    {
        match match_at(&v, i) {
            Some((e, ns, ne)) => {
                proof {
                    lemma_placeholder_bounds(s, i as int);
                }
                let name = string_of_range(&v, ns, ne);
                let x = Variable { start_index: i, end_index: e, name };
                let ghost before = r@.map_values(|x: Variable| x@);
                r.push(x);
                assert(r@.map_values(|x: Variable| x@) =~= before.push(x@));
                assert(before.push(x@) + scan_from(s, e as int) =~= before + scan_from(s, i as int));
                i = e;
            },
            None => {
                i = i + 1;
            },
        }
    }
    proof {
        assert(r@.map_values(|x: Variable| x@) + scan_from(s, i as int) =~= r@.map_values(|x: Variable| x@));
        assert forall|k: int| 0 <= k < r@.len() implies #[trigger] r@[k]@ == scan(content@)[k] by {
            assert(r@.map_values(|x: Variable| x@)[k] == r@[k]@);
        }
    }
    r
}

} // verus!
