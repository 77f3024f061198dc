use vstd::prelude::*;
use crate::value::{Table, Value};

verus! {

/// The decimal digit for `d`, below ten.
pub open spec fn digit(d: nat) -> char {
    if d == 0 {
        '0'
    } else if d == 1 {
        '1'
    } else if d == 2 {
        '2'
    } else if d == 3 {
        '3'
    } else if d == 4 {
        '4'
    } else if d == 5 {
        '5'
    } else if d == 6 {
        '6'
    } else if d == 7 {
        '7'
    } else if d == 8 {
        '8'
    } else {
        '9'
    }
}

/// The decimal digits of `n`, without leading zeros.
pub open spec fn digits(n: nat) -> Seq<char>
    decreases n,
{
    if n < 10 {
        seq![digit(n)]
    } else {
        digits(n / 10).push(digit(n % 10))
    }
}

/// `n` in decimal, with a leading `-` when negative.
pub open spec fn decimal(n: int) -> Seq<char> {
    if n < 0 {
        seq!['-'] + digits((-n) as nat)
    } else {
        digits(n as nat)
    }
}

/// The text of a value in a document: a string as it is, an integer in decimal,
/// a boolean as `true` or `false`, a float or a date by its canonical text, an
/// array as `[a, b]` and a table as `{k = v, l = w}`. Inside an array or a table
/// a string stands between double quotes.
pub open spec fn render(v: Value) -> Seq<char>
    decreases v,
{
    match v {
        Value::String(s) => s@,
        Value::Integer(n) => decimal(n as int),
        Value::Boolean(b) => if b {
            seq!['t', 'r', 'u', 'e']
        } else {
            seq!['f', 'a', 'l', 's', 'e']
        },
        Value::Literal(s) => s@,
        Value::Array(items) => seq!['['] + render_list(items@) + seq![']'],
        Value::Table(t) => seq!['{'] + render_entries(t.entries@) + seq!['}'],
    }
}

/// The items of an array, each rendered as an element, separated by `, `.
pub open spec fn render_list(items: Seq<Value>) -> Seq<char>
    decreases items,
{
    if items.len() == 0 {
        seq![]
    } else {
        let last = items[items.len() - 1];
        let text = match last {
            Value::String(s) => seq!['"'] + s@ + seq!['"'],
            _ => render(last),
        };
        if items.len() == 1 {
            text
        } else {
            render_list(items.subrange(0, items.len() - 1)) + seq![',', ' '] + text
        }
    }
}

/// The entries of a table as `k = v`, separated by `, `.
pub open spec fn render_entries(entries: Seq<(String, Value)>) -> Seq<char>
    decreases entries,
{
    if entries.len() == 0 {
        seq![]
    } else {
        let last = entries[entries.len() - 1];
        let text = last.0@ + seq![' ', '=', ' '] + match last.1 {
            Value::String(s) => seq!['"'] + s@ + seq!['"'],
            _ => render(last.1),
        };
        if entries.len() == 1 {
            text
        } else {
            render_entries(entries.subrange(0, entries.len() - 1)) + seq![',', ' '] + text
        }
    }
}

fn digit_char(d: u64) -> (c: char)
    requires
        d < 10,
    ensures
        c == digit(d as nat),
{
    if d == 0 {
        '0'
    } else if d == 1 {
        '1'
    } else if d == 2 {
        '2'
    } else if d == 3 {
        '3'
    } else if d == 4 {
        '4'
    } else if d == 5 {
        '5'
    } else if d == 6 {
        '6'
    } else if d == 7 {
        '7'
    } else if d == 8 {
        '8'
    } else {
        '9'
    }
}

/// Appends `n` in decimal to `out`.
pub fn push_decimal(out: &mut String, n: i64)
    ensures
        final(out)@ == old(out)@ + decimal(n as int),
{
    let m: u64 = if n >= 0 {
        n as u64
    } else {
        ((-(n + 1)) as u64) + 1
    };
    let mut rest: u64 = m;
    let mut buf: Vec<char> = Vec::new();
    while rest >= 10
        invariant
            digits(m as nat) == digits(rest as nat) + buf@,
        decreases rest,
    {
        let ghost before = buf@;
        buf.insert(0, digit_char(rest % 10));
        assert(digits(rest as nat) == digits((rest / 10) as nat).push(digit((rest % 10) as nat)));
        assert(digits(rest as nat) + before =~= digits((rest / 10) as nat) + buf@);
        rest = rest / 10;
    }
    let ghost before = buf@;
    buf.insert(0, digit_char(rest));
    assert(buf@ =~= digits(rest as nat) + before);
    let ghost start = out@;
    if n < 0 {
        out.push('-');
    }
    let ghost mid = out@;
    let mut i: usize = 0;
    while i < buf.len()
        invariant
            out@ == mid + buf@.subrange(0, i as int),
            i <= buf@.len(),
        decreases buf@.len() - i,
    {
        out.push(buf[i]);
        i = i + 1;
        assert(out@ =~= mid + buf@.subrange(0, i as int));
    }
    assert(buf@.subrange(0, i as int) =~= buf@);
    assert(buf@ == digits(m as nat));
    if n < 0 {
        assert(m as int == -(n as int));
        assert(out@ =~= start + decimal(n as int));
    }
}

fn push_str(out: &mut String, s: &String)
    ensures
        final(out)@ == old(out)@ + s@,
{
    out.append(s.as_str());
}

/// Appends `render(*v)` to `out`.
pub fn push_rendered(out: &mut String, v: &Value)
    ensures
        final(out)@ == old(out)@ + render(*v),
    decreases v, 0nat,
{
    match v {
        Value::String(s) => push_str(out, s),
        Value::Integer(n) => push_decimal(out, *n),
        Value::Boolean(b) => {
            let ghost start = out@;
            if *b {
                out.push('t');
                out.push('r');
                out.push('u');
                out.push('e');
            } else {
                out.push('f');
                out.push('a');
                out.push('l');
                out.push('s');
                out.push('e');
            }
            assert(out@ =~= start + render(*v));
        },
        Value::Literal(s) => push_str(out, s),
        Value::Array(items) => push_array(out, items),
        Value::Table(t) => push_table(out, t),
    }
}

/// Appends an item of an array: a string between double quotes, anything else
/// rendered.
fn push_element(out: &mut String, v: &Value)
    ensures
        final(out)@ == old(out)@ + match *v {
            Value::String(s) => seq!['"'] + s@ + seq!['"'],
            _ => render(*v),
        },
    decreases v, 1nat,
{
    match v {
        Value::String(s) => {
            let ghost start = out@;
            out.push('"');
            push_str(out, s);
            out.push('"');
            assert(out@ =~= start + seq!['"'] + s@ + seq!['"']);
        },
        _ => push_rendered(out, v),
    }
}

fn push_array(out: &mut String, items: &Vec<Value>)
    ensures
        final(out)@ == old(out)@ + render(Value::Array(*items)),
    decreases items, 0nat,
{
    let ghost start = out@;
    out.push('[');
    let mut i: usize = 0;
    while i < items.len()
        invariant
            i <= items@.len(),
            out@ == start + seq!['['] + render_list(items@.subrange(0, i as int)),
        decreases items@.len() - i,
    {
        if i > 0 {
            out.push(',');
            out.push(' ');
        }
        push_element(out, &items[i]);
        let ghost sub = items@.subrange(0, i as int + 1);
        assert(sub.subrange(0, i as int) =~= items@.subrange(0, i as int));
        assert(sub[i as int] == items@[i as int]);
        i = i + 1;
        assert(out@ =~= start + seq!['['] + render_list(sub));
    }
    assert(items@.subrange(0, i as int) =~= items@);
    out.push(']');
    assert(out@ =~= start + render(Value::Array(*items)));
}

fn push_table(out: &mut String, t: &Table)
    ensures
        final(out)@ == old(out)@ + render(Value::Table(*t)),
    decreases t, 0nat,
{
    let ghost start = out@;
    out.push('{');
    let mut i: usize = 0;
    while i < t.entries.len()
        invariant
            i <= t.entries@.len(),
            out@ == start + seq!['{'] + render_entries(t.entries@.subrange(0, i as int)),
        decreases t.entries@.len() - i,
    {
        if i > 0 {
            out.push(',');
            out.push(' ');
        }
        let ghost mid = out@;
        push_str(out, &t.entries[i].0);
        out.push(' ');
        out.push('=');
        out.push(' ');
        push_element(out, &t.entries[i].1);
        let ghost sub = t.entries@.subrange(0, i as int + 1);
        assert(sub.subrange(0, i as int) =~= t.entries@.subrange(0, i as int));
        assert(sub[i as int] == t.entries@[i as int]);
        i = i + 1;
        assert(out@ =~= start + seq!['{'] + render_entries(sub));
    }
    assert(t.entries@.subrange(0, i as int) =~= t.entries@);
    out.push('}');
    assert(out@ =~= start + render(Value::Table(*t)));
}

} // verus!
