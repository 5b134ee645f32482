use vstd::prelude::*;

use crate::text::{
    all_digits, i64_text, int_chars, int_text, is_digit, lemma_int_chars, parse_i64, push_int,
    string_of,
};
use crate::value::{
    entries_model, lemma_entries_model_take, lemma_list_model_take, list_model, value_model, Key,
    KeyModel, Value, ValueModel,
};

verus! {

// Wire text: `true`, `false`, decimal integers, floats as `<mantissa>e<exponent>`,
// quoted strings with `\"`, `\\`, `\n`, `\r` and `\t` escaped, `[a,b]` for
// lists and `{k:v}` for maps, whose keys are booleans, integers or strings.
// Nothing is written between tokens. Decoding also takes the numbers that a
// script engine writes: a fraction (`1.25`) and an exponent with `+`.

/// The escaped form of one character inside a quoted string.
pub open spec fn escape_char(c: char) -> Seq<char> {
    if c == '"' {
        seq!['\\', '"']
    } else if c == '\\' {
        seq!['\\', '\\']
    } else if c == '\n' {
        seq!['\\', 'n']
    } else if c == '\r' {
        seq!['\\', 'r']
    } else if c == '\t' {
        seq!['\\', 't']
    } else {
        seq![c]
    }
}

pub open spec fn escaped(t: Seq<char>) -> Seq<char>
    decreases t.len(),
{
    if t.len() == 0 {
        Seq::empty()
    } else {
        escaped(t.drop_last()) + escape_char(t.last())
    }
}

pub open spec fn quoted(t: Seq<char>) -> Seq<char> {
    seq!['"'] + escaped(t) + seq!['"']
}

pub open spec fn bool_chars(b: bool) -> Seq<char> {
    if b {
        seq!['t', 'r', 'u', 'e']
    } else {
        seq!['f', 'a', 'l', 's', 'e']
    }
}

pub open spec fn key_text(k: KeyModel) -> Seq<char> {
    match k {
        KeyModel::Bool(b) => bool_chars(b),
        KeyModel::Int(n) => int_chars(n as int),
        KeyModel::Text(t) => quoted(t),
    }
}

/// The wire text of a value.
pub open spec fn value_text(v: ValueModel) -> Seq<char>
    decreases v,
{
    match v {
        ValueModel::Bool(b) => bool_chars(b),
        ValueModel::Int(n) => int_chars(n as int),
        ValueModel::Float(m, e) => int_chars(m as int) + seq!['e'] + int_chars(e as int),
        ValueModel::Text(t) => quoted(t),
        ValueModel::List(items) => seq!['['] + items_text(items) + seq![']'],
        ValueModel::Mapping(entries) => seq!['{'] + entries_text(entries) + seq!['}'],
    }
}

/// The items of a list, separated by commas.
pub open spec fn items_text(s: Seq<ValueModel>) -> Seq<char>
    decreases s,
{
    if s.len() == 0 {
        Seq::empty()
    } else if s.len() == 1 {
        value_text(s[0])
    } else {
        value_text(s[0]) + seq![','] + items_text(s.subrange(1, s.len() as int))
    }
}

/// The entries of a map, each `key:value`, separated by commas.
pub open spec fn entries_text(s: Seq<(KeyModel, ValueModel)>) -> Seq<char>
    decreases s,
{
    if s.len() == 0 {
        Seq::empty()
    } else if s.len() == 1 {
        key_text(s[0].0) + seq![':'] + value_text(s[0].1)
    } else {
        key_text(s[0].0) + seq![':'] + value_text(s[0].1) + seq![','] + entries_text(
            s.subrange(1, s.len() as int),
        )
    }
}

fn push_bool(out: &mut Vec<char>, b: bool)
    ensures
        final(out)@ == old(out)@ + bool_chars(b),
{
    if b {
        out.push('t');
        out.push('r');
        out.push('u');
        out.push('e');
    } else {
        out.push('f');
        out.push('a');
        out.push('l');
        out.push('s');
        out.push('e');
    }
    assert(final(out)@ =~= old(out)@ + bool_chars(b));
}

pub(crate) fn push_quoted(out: &mut Vec<char>, t: &String)
    ensures
        final(out)@ == old(out)@ + quoted(t@),
{
    let cs = crate::text::chars_of(t.as_str());
    let ghost start = out@;
    out.push('"');
    let mut i: usize = 0;
    while i < cs.len()
        invariant
            i <= cs@.len(),
            cs@ == t@,
            out@ == start + seq!['"'] + escaped(cs@.take(i as int)),
        decreases cs@.len() - i,
    {
        let c = cs[i];
        assert(cs@.take(i + 1).drop_last() =~= cs@.take(i as int));
        if c == '"' {
            out.push('\\');
            out.push('"');
        } else if c == '\\' {
            out.push('\\');
            out.push('\\');
        } else if c == '\n' {
            out.push('\\');
            out.push('n');
        } else if c == '\r' {
            out.push('\\');
            out.push('r');
        } else if c == '\t' {
            out.push('\\');
            out.push('t');
        } else {
            out.push(c);
        }
        i = i + 1;
        assert(out@ =~= start + seq!['"'] + escaped(cs@.take(i as int)));
    }
    assert(cs@.take(cs@.len() as int) =~= t@);
    out.push('"');
    assert(final(out)@ =~= old(out)@ + quoted(t@));
}

fn push_key(out: &mut Vec<char>, k: &Key)
    ensures
        final(out)@ == old(out)@ + key_text(k@),
{
    match k {
        Key::Bool(b) => push_bool(out, *b),
        Key::Int(n) => push_int(out, *n),
        Key::Text(t) => push_quoted(out, t),
    }
}

proof fn lemma_items_push(s: Seq<ValueModel>, x: ValueModel)
    requires
        s.len() >= 1,
    ensures
        items_text(s.push(x)) == items_text(s) + seq![','] + value_text(x),
    decreases s.len(),
{
    let t = s.push(x);
    if s.len() == 1 {
        assert(t.subrange(1, t.len() as int) =~= seq![x]);
        assert(items_text(seq![x]) == value_text(seq![x][0]));
    } else {
        lemma_items_push(s.subrange(1, s.len() as int), x);
        assert(t.subrange(1, t.len() as int) =~= s.subrange(1, s.len() as int).push(x));
    }
}

proof fn lemma_entries_push(s: Seq<(KeyModel, ValueModel)>, x: (KeyModel, ValueModel))
    requires
        s.len() >= 1,
    ensures
        entries_text(s.push(x)) == entries_text(s) + seq![','] + key_text(x.0) + seq![':']
            + value_text(x.1),
    decreases s.len(),
{
    let t = s.push(x);
    if s.len() == 1 {
        assert(t.subrange(1, t.len() as int) =~= seq![x]);
        assert(entries_text(seq![x]) == key_text(seq![x][0].0) + seq![':'] + value_text(
            seq![x][0].1,
        ));
        assert(entries_text(t) =~= entries_text(s) + seq![','] + key_text(x.0) + seq![':']
            + value_text(x.1));
    } else {
        lemma_entries_push(s.subrange(1, s.len() as int), x);
        assert(t.subrange(1, t.len() as int) =~= s.subrange(1, s.len() as int).push(x));
        assert(entries_text(t) =~= entries_text(s) + seq![','] + key_text(x.0) + seq![':']
            + value_text(x.1));
    }
}

/// Appends the wire text of `v`.
pub fn push_value(out: &mut Vec<char>, v: &Value)
    ensures
        final(out)@ == old(out)@ + value_text(v@),
    decreases v,
{
    match v {
        Value::Bool(b) => push_bool(out, *b),
        Value::Int(n) => push_int(out, *n),
        Value::Float(m, e) => {
            push_int(out, *m);
            out.push('e');
            push_int(out, *e as i64);
            assert(final(out)@ =~= old(out)@ + value_text(v@));
        },
        Value::Text(t) => push_quoted(out, t),
        Value::List(items) => {
            let ghost start = out@;
            out.push('[');
            let mut i: usize = 0;
            while i < items.len()
                invariant
                    i <= items@.len(),
                    *v == Value::List(*items),
                    out@ == start + seq!['['] + items_text(list_model(items@.take(i as int))),
                decreases items@.len() - i,
            {
                proof {
                    lemma_list_model_take(items@, i as int);
                    vstd::std_specs::vec::axiom_vec_index_decreases(*items, i as int);
                    assert(decreases_to!(*v => (*v)->List_0));
                    assert(decreases_to!(*v => items[i as int]));
                }
                let ghost before = out@;
                if i > 0 {
                    out.push(',');
                    proof {
                        lemma_items_push(list_model(items@.take(i as int)), value_model(items@[i as int]));
                    }
                } else {
                    assert(list_model(items@.take(1)) =~= seq![value_model(items@[0])]);
                }
                push_value(out, &items[i]);
                i = i + 1;
                assert(out@ =~= start + seq!['['] + items_text(list_model(items@.take(i as int))));
            }
            assert(items@.take(items@.len() as int) =~= items@);
            out.push(']');
            assert(final(out)@ =~= old(out)@ + value_text(v@));
        },
        Value::Mapping(entries) => {
            let ghost start = out@;
            out.push('{');
            let mut i: usize = 0;
            while i < entries.len()
                invariant
                    i <= entries@.len(),
                    *v == Value::Mapping(*entries),
                    out@ == start + seq!['{'] + entries_text(entries_model(entries@.take(i as int))),
                decreases entries@.len() - i,
            {
                proof {
                    lemma_entries_model_take(entries@, i as int);
                    vstd::std_specs::vec::axiom_vec_index_decreases(*entries, i as int);
                    assert(decreases_to!(*v => (*v)->Mapping_0));
                    assert(decreases_to!(entries[i as int] => entries[i as int].1));
                    assert(decreases_to!(*v => entries[i as int].1));
                }
                if i > 0 {
                    out.push(',');
                    proof {
                        lemma_entries_push(
                            entries_model(entries@.take(i as int)),
                            (entries@[i as int].0@, value_model(entries@[i as int].1)),
                        );
                    }
                } else {
                    assert(entries_model(entries@.take(1)) =~= seq![
                        (entries@[0].0@, value_model(entries@[0].1)),
                    ]);
                }
                let entry = &entries[i];
                push_key(out, &entry.0);
                out.push(':');
                push_value(out, &entry.1);
                i = i + 1;
                assert(out@ =~= start + seq!['{'] + entries_text(
                    entries_model(entries@.take(i as int)),
                ));
            }
            assert(entries@.take(entries@.len() as int) =~= entries@);
            out.push('}');
            assert(final(out)@ =~= old(out)@ + value_text(v@));
        },
    }
}

/// The wire text of `v`.
pub fn encode(v: &Value) -> (r: String)
    ensures
        r@ == value_text(v@),
{
    let mut out: Vec<char> = Vec::new();
    push_value(&mut out, v);
    assert(out@ =~= value_text(v@));
    string_of(&out)
}


// Decoding. Each parser reads `s` from index `i` and gives what it read and
// the index just past it.

pub open spec fn is_number_char(c: char) -> bool {
    c == '-' || c == '+' || c == '.' || c == 'e' || is_digit(c)
}

/// The end of the run of number characters that starts at `i`.
pub open spec fn number_end(s: Seq<char>, i: int) -> int
    decreases s.len() - i,
{
    if 0 <= i < s.len() && is_number_char(s[i]) {
        number_end(s, i + 1)
    } else {
        i
    }
}

/// The first `c` in `t` at or after `k`, or `t.len()`.
pub open spec fn first_of(t: Seq<char>, c: char, k: int) -> int
    decreases t.len() - k,
{
    if 0 <= k < t.len() {
        if t[k] == c {
            k
        } else {
            first_of(t, c, k + 1)
        }
    } else {
        t.len() as int
    }
}

/// The mantissa of a number token, `<int>` or `<int>.<digits>`, as the
/// integer its digits spell and the count of digits after the point.
pub open spec fn mantissa_value(t: Seq<char>) -> Option<(i64, int)> {
    let d = first_of(t, '.', 0);
    if d >= t.len() {
        match i64_text(t) {
            Some(n) => Some((n, 0)),
            None => None,
        }
    } else {
        let whole = t.take(d);
        let frac = t.skip(d + 1);
        if frac.len() > 0 && all_digits(frac) && int_text(whole) is Some {
            match i64_text(whole + frac) {
                Some(n) => Some((n, frac.len() as int)),
                None => None,
            }
        } else {
            None
        }
    }
}

/// An exponent: an integer, or digits after a `+`.
pub open spec fn exponent_value(t: Seq<char>) -> Option<i64> {
    if t.len() > 1 && t[0] == '+' && all_digits(t.drop_first()) {
        i64_text(t.drop_first())
    } else {
        i64_text(t)
    }
}

/// A number token: an integer, or a float `<mantissa>[e<exponent>]` whose
/// mantissa has a fraction or which has an exponent.
pub open spec fn number_value(t: Seq<char>) -> Option<ValueModel> {
    match i64_text(t) {
        Some(n) => Some(ValueModel::Int(n)),
        None => {
            let k = first_of(t, 'e', 0);
            let m = if k < t.len() {
                mantissa_value(t.take(k))
            } else {
                mantissa_value(t)
            };
            let e = if k < t.len() {
                exponent_value(t.skip(k + 1))
            } else {
                Some(0i64)
            };
            match (m, e) {
                (Some((mv, f)), Some(ev)) => if i32::MIN <= ev - f <= i32::MAX {
                    Some(ValueModel::Float(mv, (ev - f) as i32))
                } else {
                    None
                },
                _ => None,
            }
        },
    }
}

/// The character that an escape `\c` stands for.
pub open spec fn unescape(c: char) -> Option<char> {
    if c == '"' {
        Some('"')
    } else if c == '\\' {
        Some('\\')
    } else if c == '/' {
        Some('/')
    } else if c == 'n' {
        Some('\n')
    } else if c == 'r' {
        Some('\r')
    } else if c == 't' {
        Some('\t')
    } else if c == 'b' {
        Some('\x08')
    } else if c == 'f' {
        Some('\x0c')
    } else {
        None
    }
}

pub open spec fn prefixed(p: Seq<char>, r: Option<(Seq<char>, int)>) -> Option<(Seq<char>, int)> {
    match r {
        Some((t, j)) => Some((p + t, j)),
        None => None,
    }
}

/// The body of a quoted string that starts at `i`, just past its opening quote.
pub open spec fn parse_string(s: Seq<char>, i: int) -> Option<(Seq<char>, int)>
    decreases s.len() - i,
{
    if i < 0 || i >= s.len() {
        None
    } else if s[i] == '"' {
        Some((Seq::empty(), i + 1))
    } else if s[i] == '\\' {
        if i + 1 < s.len() {
            match unescape(s[i + 1]) {
                Some(c) => prefixed(seq![c], parse_string(s, i + 2)),
                None => None,
            }
        } else {
            None
        }
    } else {
        prefixed(seq![s[i]], parse_string(s, i + 1))
    }
}

pub open spec fn word_at(s: Seq<char>, i: int, w: Seq<char>) -> bool {
    0 <= i && i + w.len() <= s.len() && s.subrange(i, i + w.len()) == w
}

/// A boolean or a string at `i`.
pub open spec fn parse_atom(s: Seq<char>, i: int) -> Option<(KeyModel, int)> {
    if i < 0 || i >= s.len() {
        None
    } else if s[i] == 't' {
        if word_at(s, i, bool_chars(true)) {
            Some((KeyModel::Bool(true), i + 4))
        } else {
            None
        }
    } else if s[i] == 'f' {
        if word_at(s, i, bool_chars(false)) {
            Some((KeyModel::Bool(false), i + 5))
        } else {
            None
        }
    } else if s[i] == '"' {
        match parse_string(s, i + 1) {
            Some((t, j)) => Some((KeyModel::Text(t), j)),
            None => None,
        }
    } else {
        None
    }
}

/// A map key at `i`.
pub open spec fn parse_key(s: Seq<char>, i: int) -> Option<(KeyModel, int)> {
    if 0 <= i < s.len() && (s[i] == '-' || is_digit(s[i])) {
        let j = number_end(s, i);
        match i64_text(s.subrange(i, j)) {
            Some(n) => Some((KeyModel::Int(n), j)),
            None => None,
        }
    } else {
        parse_atom(s, i)
    }
}

/// A value at `i`.
pub open spec fn parse_value(s: Seq<char>, i: int) -> Option<(ValueModel, int)>
    decreases s.len() - i, 0nat,
{
    if i < 0 || i >= s.len() {
        None
    } else if s[i] == '-' || is_digit(s[i]) {
        let j = number_end(s, i);
        match number_value(s.subrange(i, j)) {
            Some(v) => Some((v, j)),
            None => None,
        }
    } else if s[i] == '[' {
        if i + 1 < s.len() && s[i + 1] == ']' {
            Some((ValueModel::List(Seq::empty()), i + 2))
        } else {
            match parse_items(s, i + 1) {
                Some((items, j)) => Some((ValueModel::List(items), j)),
                None => None,
            }
        }
    } else if s[i] == '{' {
        if i + 1 < s.len() && s[i + 1] == '}' {
            Some((ValueModel::Mapping(Seq::empty()), i + 2))
        } else {
            match parse_entries(s, i + 1) {
                Some((entries, j)) => Some((ValueModel::Mapping(entries), j)),
                None => None,
            }
        }
    } else {
        match parse_atom(s, i) {
            Some((KeyModel::Bool(b), j)) => Some((ValueModel::Bool(b), j)),
            Some((KeyModel::Text(t), j)) => Some((ValueModel::Text(t), j)),
            _ => None,
        }
    }
}

/// The items of a non-empty list, up to and past its closing `]`.
pub open spec fn parse_items(s: Seq<char>, i: int) -> Option<(Seq<ValueModel>, int)>
    decreases s.len() - i, 1nat,
{
    if i < 0 {
        None
    } else {
        match parse_value(s, i) {
            Some((v, j)) => if j <= i || j >= s.len() {
                None
            } else if s[j] == ']' {
                Some((seq![v], j + 1))
            } else if s[j] == ',' {
                match parse_items(s, j + 1) {
                    Some((rest, k)) => Some((seq![v] + rest, k)),
                    None => None,
                }
            } else {
                None
            },
            None => None,
        }
    }
}

/// The entries of a non-empty map, up to and past its closing `}`.
pub open spec fn parse_entries(s: Seq<char>, i: int) -> Option<(Seq<(KeyModel, ValueModel)>, int)>
    decreases s.len() - i, 1nat,
{
    if i < 0 {
        None
    } else {
        match parse_key(s, i) {
            Some((k, j)) => {
                if j <= i || j >= s.len() || s[j] != ':' {
                    None
                } else {
                    parse_entry_rest(s, i, k, j)
                }
            },
            None => None,
        }
    }
}

/// The value of an entry whose key `k` ends at the `:` at `j`, and what follows it.
pub open spec fn parse_entry_rest(s: Seq<char>, i: int, k: KeyModel, j: int) -> Option<
    (Seq<(KeyModel, ValueModel)>, int),
>
    decreases s.len() - i, 0nat,
{
    if i < 0 || j <= i || j >= s.len() {
        None
    } else {
        match parse_value(s, j + 1) {
            Some((v, m)) => {
                if m <= j || m >= s.len() {
                    None
                } else if s[m] == '}' {
                    Some((seq![(k, v)], m + 1))
                } else if s[m] == ',' {
                    match parse_entries(s, m + 1) {
                        Some((rest, n)) => Some((seq![(k, v)] + rest, n)),
                        None => None,
                    }
                } else {
                    None
                }
            },
            None => None,
        }
    }
}

/// The value that the whole of `s` spells, if it spells one.
pub open spec fn decode_text(s: Seq<char>) -> Option<ValueModel> {
    match parse_value(s, 0) {
        Some((v, j)) => if j == s.len() {
            Some(v)
        } else {
            None
        },
        None => None,
    }
}


/// Why a wire text was refused.
#[derive(Clone, Copy, Debug, PartialEq, Eq, Structural)]
pub enum DecodeError {
    Malformed,
}

fn number_end_at(s: &Vec<char>, i: usize) -> (r: usize)
    requires
        i <= s@.len(),
    ensures
        r == number_end(s@, i as int),
        i <= r <= s@.len(),
{
    let mut j: usize = i;
    while j < s.len() && (s[j] == '-' || s[j] == '+' || s[j] == '.' || s[j] == 'e' || ((s[j] as u32)
        >= 48 && (s[j] as u32) <= 57))
        invariant
            i <= j <= s@.len(),
            number_end(s@, i as int) == number_end(s@, j as int),
        decreases s@.len() - j,
    {
        j = j + 1;
    }
    j
}

fn first_in(s: &Vec<char>, lo: usize, hi: usize, c: char) -> (r: usize)
    requires
        lo <= hi <= s@.len(),
    ensures
        lo <= r <= hi,
        r - lo == first_of(s@.subrange(lo as int, hi as int), c, 0),
{
    let ghost t = s@.subrange(lo as int, hi as int);
    let mut k: usize = lo;
    while k < hi && s[k] != c
        invariant
            lo <= k <= hi <= s@.len(),
            t == s@.subrange(lo as int, hi as int),
            first_of(t, c, 0) == first_of(t, c, k - lo),
        decreases hi - k,
    {
        assert(t[k - lo] == s@[k as int]);
        k = k + 1;
    }
    if k < hi {
        assert(t[k - lo] == s@[k as int]);
    }
    k
}

fn int_syntax_in(s: &Vec<char>, lo: usize, hi: usize) -> (r: bool)
    requires
        lo <= hi <= s@.len(),
    ensures
        r == (int_text(s@.subrange(lo as int, hi as int)) is Some),
{
    let ghost t = s@.subrange(lo as int, hi as int);
    if hi - lo > 1 && s[lo] == '-' {
        assert(t.drop_first() =~= s@.subrange(lo + 1, hi as int));
        if crate::text::all_digits_in(s, lo + 1, hi) {
            return true;
        }
    }
    hi > lo && crate::text::all_digits_in(s, lo, hi)
}

fn mantissa_in(s: &Vec<char>, lo: usize, hi: usize) -> (r: Option<(i64, usize)>)
    requires
        lo <= hi <= s@.len(),
    ensures
        match r {
            Some((n, f)) => mantissa_value(s@.subrange(lo as int, hi as int)) == Some(
                (n, f as int),
            ),
            None => mantissa_value(s@.subrange(lo as int, hi as int)) is None,
        },
{
    let ghost t = s@.subrange(lo as int, hi as int);
    let d = first_in(s, lo, hi, '.');
    if d >= hi {
        match parse_i64(s, lo, hi) {
            Some(n) => Some((n, 0)),
            None => None,
        }
    } else {
        assert(t.take(d - lo) =~= s@.subrange(lo as int, d as int));
        assert(t.skip(d - lo + 1) =~= s@.subrange(d + 1, hi as int));
        if !(d + 1 < hi && crate::text::all_digits_in(s, d + 1, hi) && int_syntax_in(s, lo, d)) {
            return None;
        }
        let mut buf: Vec<char> = Vec::new();
        let mut k: usize = lo;
        while k < d
            invariant
                lo <= k <= d < hi <= s@.len(),
                buf@ == s@.subrange(lo as int, k as int),
            decreases d - k,
        {
            buf.push(s[k]);
            k = k + 1;
            assert(buf@ =~= s@.subrange(lo as int, k as int));
        }
        let mut k: usize = d + 1;
        while k < hi
            invariant
                d < k <= hi <= s@.len(),
                lo <= d,
                buf@ == s@.subrange(lo as int, d as int) + s@.subrange(d + 1, k as int),
            decreases hi - k,
        {
            buf.push(s[k]);
            k = k + 1;
            assert(buf@ =~= s@.subrange(lo as int, d as int) + s@.subrange(d + 1, k as int));
        }
        let n = parse_i64(&buf, 0, buf.len());
        assert(buf@.subrange(0, buf@.len() as int) =~= buf@);
        match n {
            Some(n) => Some((n, hi - d - 1)),
            None => None,
        }
    }
}

fn exponent_in(s: &Vec<char>, lo: usize, hi: usize) -> (r: Option<i64>)
    requires
        lo <= hi <= s@.len(),
    ensures
        r == exponent_value(s@.subrange(lo as int, hi as int)),
{
    let ghost t = s@.subrange(lo as int, hi as int);
    if hi - lo > 1 && s[lo] == '+' {
        assert(t.drop_first() =~= s@.subrange(lo + 1, hi as int));
        if crate::text::all_digits_in(s, lo + 1, hi) {
            return parse_i64(s, lo + 1, hi);
        }
    }
    parse_i64(s, lo, hi)
}

fn decode_number(s: &Vec<char>, i: usize, j: usize) -> (r: Option<Value>)
    requires
        i <= j <= s@.len(),
    ensures
        match r {
            Some(v) => number_value(s@.subrange(i as int, j as int)) == Some(v@),
            None => number_value(s@.subrange(i as int, j as int)) is None,
        },
{
    let ghost t = s@.subrange(i as int, j as int);
    match parse_i64(s, i, j) {
        Some(n) => Some(Value::Int(n)),
        None => {
            let k = first_in(s, i, j, 'e');
            let (m, e) = if k < j {
                assert(t.take(k - i) =~= s@.subrange(i as int, k as int));
                assert(t.skip(k - i + 1) =~= s@.subrange(k + 1, j as int));
                (mantissa_in(s, i, k), exponent_in(s, k + 1, j))
            } else {
                (mantissa_in(s, i, j), Some(0i64))
            };
            match (m, e) {
                (Some((mv, f)), Some(ev)) => {
                    let x: i128 = ev as i128 - f as i128;
                    if x >= i32::MIN as i128 && x <= i32::MAX as i128 {
                        Some(Value::Float(mv, x as i32))
                    } else {
                        None
                    }
                },
                _ => None,
            }
        },
    }
}

fn unescape_char(c: char) -> (r: Option<char>)
    ensures
        r == unescape(c),
{
    if c == '"' {
        Some('"')
    } else if c == '\\' {
        Some('\\')
    } else if c == '/' {
        Some('/')
    } else if c == 'n' {
        Some('\n')
    } else if c == 'r' {
        Some('\r')
    } else if c == 't' {
        Some('\t')
    } else if c == 'b' {
        Some('\x08')
    } else if c == 'f' {
        Some('\x0c')
    } else {
        None
    }
}

fn decode_string(s: &Vec<char>, i: usize) -> (r: Option<(String, usize)>)
    requires
        i <= s@.len(),
    ensures
        match r {
            Some((t, j)) => parse_string(s@, i as int) == Some((t@, j as int)),
            None => parse_string(s@, i as int) is None,
        },
{
    let mut out: Vec<char> = Vec::new();
    let mut k: usize = i;
    while k < s.len()
        invariant
            i <= k <= s@.len(),
            parse_string(s@, i as int) == prefixed(out@, parse_string(s@, k as int)),
        decreases s@.len() - k,
    {
        let c = s[k];
        if c == '"' {
            assert(out@ + Seq::<char>::empty() =~= out@);
            return Some((string_of(&out), k + 1));
        } else if c == '\\' {
            if k + 1 < s.len() {
                match unescape_char(s[k + 1]) {
                    Some(e) => {
                        assert(forall|t: Seq<char>| out@ + (seq![e] + t) =~= out@.push(e) + t);
                        out.push(e);
                        k = k + 2;
                    },
                    None => {
                        return None;
                    },
                }
            } else {
                return None;
            }
        } else {
            assert(forall|t: Seq<char>| out@ + (seq![c] + t) =~= out@.push(c) + t);
            out.push(c);
            k = k + 1;
        }
    }
    None
}

fn word_at_exec(s: &Vec<char>, i: usize, w: &str) -> (r: bool)
    requires
        i <= s@.len(),
    ensures
        r == word_at(s@, i as int, w@),
{
    let wc = crate::text::chars_of(w);
    if wc.len() > s.len() - i {
        return false;
    }
    let mut k: usize = 0;
    while k < wc.len()
        invariant
            k <= wc@.len(),
            wc@ == w@,
            i + wc@.len() <= s@.len() <= usize::MAX,
            forall|m: int| 0 <= m < k ==> s@[i + m] == wc@[m],
        decreases wc@.len() - k,
    {
        assert(i + k < s@.len());
        if s[i + k] != wc[k] {
            assert(s@.subrange(i as int, i + wc@.len())[k as int] == s@[i + k]);
            return false;
        }
        k = k + 1;
    }
    assert(s@.subrange(i as int, i + wc@.len()) =~= wc@);
    true
}

fn decode_atom(s: &Vec<char>, i: usize) -> (r: Option<(Key, usize)>)
    requires
        i <= s@.len(),
    ensures
        match r {
            Some((k, j)) => parse_atom(s@, i as int) == Some((k@, j as int)) && i < j <= s@.len(),
            None => parse_atom(s@, i as int) is None,
        },
{
    if i >= s.len() {
        None
    } else if s[i] == 't' {
        proof {
            reveal_strlit("true");
            assert("true"@ =~= bool_chars(true));
        }
        if word_at_exec(s, i, "true") {
            Some((Key::Bool(true), i + 4))
        } else {
            None
        }
    } else if s[i] == 'f' {
        proof {
            reveal_strlit("false");
            assert("false"@ =~= bool_chars(false));
        }
        if word_at_exec(s, i, "false") {
            Some((Key::Bool(false), i + 5))
        } else {
            None
        }
    } else if s[i] == '"' {
        match decode_string(s, i + 1) {
            Some((t, j)) => {
                proof {
                    lemma_parse_string_advances(s@, i + 1);
                }
                Some((Key::Text(t), j))
            },
            None => None,
        }
    } else {
        None
    }
}

proof fn lemma_parse_string_advances(s: Seq<char>, i: int)
    ensures
        match parse_string(s, i) {
            Some((t, j)) => i < j <= s.len(),
            None => true,
        },
    decreases s.len() - i,
{
    if 0 <= i < s.len() {
        if s[i] == '\\' {
            if i + 1 < s.len() {
                lemma_parse_string_advances(s, i + 2);
            }
        } else if s[i] != '"' {
            lemma_parse_string_advances(s, i + 1);
        }
    }
}

fn decode_key(s: &Vec<char>, i: usize) -> (r: Option<(Key, usize)>)
    requires
        i <= s@.len(),
    ensures
        match r {
            Some((k, j)) => parse_key(s@, i as int) == Some((k@, j as int)) && i < j <= s@.len(),
            None => parse_key(s@, i as int) is None,
        },
{
    if i < s.len() && (s[i] == '-' || ((s[i] as u32) >= 48 && (s[i] as u32) <= 57)) {
        let j = number_end_at(s, i);
        match parse_i64(s, i, j) {
            Some(n) => {
                assert(j > i);
                Some((Key::Int(n), j))
            },
            None => None,
        }
    } else {
        decode_atom(s, i)
    }
}

proof fn lemma_list_model_cons(x: Value, t: Seq<Value>)
    ensures
        list_model(seq![x] + t) == seq![value_model(x)] + list_model(t),
{
    let u = seq![x] + t;
    assert(u.subrange(1, u.len() as int) =~= t);
    assert(u[0] == x);
}

proof fn lemma_entries_model_cons(x: (Key, Value), t: Seq<(Key, Value)>)
    ensures
        entries_model(seq![x] + t) == seq![(x.0@, value_model(x.1))] + entries_model(t),
{
    let u = seq![x] + t;
    assert(u.subrange(1, u.len() as int) =~= t);
    assert(u[0] == x);
}

fn decode_value(s: &Vec<char>, i: usize) -> (r: Option<(Value, usize)>)
    requires
        i <= s@.len(),
    ensures
        match r {
            Some((v, j)) => parse_value(s@, i as int) == Some((v@, j as int)) && j <= s@.len(),
            None => parse_value(s@, i as int) is None,
        },
    decreases s@.len() - i, 0nat,
{
    if i >= s.len() {
        None
    } else if s[i] == '-' || ((s[i] as u32) >= 48 && (s[i] as u32) <= 57) {
        let j = number_end_at(s, i);
        match decode_number(s, i, j) {
            Some(v) => Some((v, j)),
            None => None,
        }
    } else if s[i] == '[' {
        if i + 1 < s.len() && s[i + 1] == ']' {
            let v = Value::List(Vec::new());
            assert(v@ == ValueModel::List(Seq::empty())) by {
                assert(list_model(Seq::<Value>::empty()) =~= Seq::<ValueModel>::empty());
            }
            Some((v, i + 2))
        } else {
            match decode_items(s, i + 1) {
                Some((items, j)) => Some((Value::List(items), j)),
                None => None,
            }
        }
    } else if s[i] == '{' {
        if i + 1 < s.len() && s[i + 1] == '}' {
            let v = Value::Mapping(Vec::new());
            assert(v@ == ValueModel::Mapping(Seq::empty())) by {
                assert(entries_model(Seq::<(Key, Value)>::empty()) =~= Seq::<
                    (KeyModel, ValueModel),
                >::empty());
            }
            Some((v, i + 2))
        } else {
            match decode_entries(s, i + 1) {
                Some((entries, j)) => Some((Value::Mapping(entries), j)),
                None => None,
            }
        }
    } else {
        match decode_atom(s, i) {
            Some((Key::Bool(b), j)) => Some((Value::Bool(b), j)),
            Some((Key::Text(t), j)) => Some((Value::Text(t), j)),
            _ => None,
        }
    }
}

fn decode_items(s: &Vec<char>, i: usize) -> (r: Option<(Vec<Value>, usize)>)
    requires
        i <= s@.len(),
    ensures
        match r {
            Some((items, j)) => parse_items(s@, i as int) == Some((list_model(items@), j as int))
                && j <= s@.len(),
            None => parse_items(s@, i as int) is None,
        },
    decreases s@.len() - i, 1nat,
{
    match decode_value(s, i) {
        Some((v, j)) => {
            if j <= i || j >= s.len() {
                None
            } else if s[j] == ']' {
                let mut items: Vec<Value> = Vec::new();
                items.push(v);
                proof {
                    lemma_list_model_cons(items@[0], Seq::empty());
                    assert(items@ =~= seq![items@[0]] + Seq::<Value>::empty());
                    assert(list_model(Seq::<Value>::empty()) =~= Seq::<ValueModel>::empty());
                }
                Some((items, j + 1))
            } else if s[j] == ',' {
                match decode_items(s, j + 1) {
                    Some((mut rest, k)) => {
                        let ghost old_rest = rest@;
                        rest.insert(0, v);
                        proof {
                            assert(rest@ =~= seq![rest@[0]] + old_rest);
                            lemma_list_model_cons(rest@[0], old_rest);
                        }
                        Some((rest, k))
                    },
                    None => None,
                }
            } else {
                None
            }
        },
        None => None,
    }
}

fn decode_entries(s: &Vec<char>, i: usize) -> (r: Option<(Vec<(Key, Value)>, usize)>)
    requires
        i <= s@.len(),
    ensures
        match r {
            Some((entries, j)) => parse_entries(s@, i as int) == Some(
                (entries_model(entries@), j as int),
            ) && j <= s@.len(),
            None => parse_entries(s@, i as int) is None,
        },
    decreases s@.len() - i, 1nat,
{
    match decode_key(s, i) {
        Some((k, j)) => {
            if j <= i || j >= s.len() || s[j] != ':' {
                None
            } else {
                match decode_value(s, j + 1) {
                    Some((v, m)) => {
                        if m <= j || m >= s.len() {
                            None
                        } else if s[m] == '}' {
                            let mut entries: Vec<(Key, Value)> = Vec::new();
                            entries.push((k, v));
                            proof {
                                lemma_entries_model_cons(entries@[0], Seq::empty());
                                assert(entries@ =~= seq![entries@[0]] + Seq::<(Key, Value)>::empty());
                                assert(entries_model(Seq::<(Key, Value)>::empty()) =~= Seq::<
                                    (KeyModel, ValueModel),
                                >::empty());
                            }
                            Some((entries, m + 1))
                        } else if s[m] == ',' {
                            match decode_entries(s, m + 1) {
                                Some((mut rest, n)) => {
                                    let ghost old_rest = rest@;
                                    rest.insert(0, (k, v));
                                    proof {
                                        assert(rest@ =~= seq![rest@[0]] + old_rest);
                                        lemma_entries_model_cons(rest@[0], old_rest);
                                    }
                                    Some((rest, n))
                                },
                                None => None,
                            }
                        } else {
                            None
                        }
                    },
                    None => None,
                }
            }
        },
        None => None,
    }
}

/// Reads a whole wire text as one value.
pub fn decode(text: &str) -> (r: Result<Value, DecodeError>)
    ensures
        match r {
            Ok(v) => decode_text(text@) == Some(v@),
            Err(_) => decode_text(text@) is None,
        },
{
    let s = crate::text::chars_of(text);
    match decode_value(&s, 0) {
        Some((v, j)) => if j == s.len() {
            Ok(v)
        } else {
            Err(DecodeError::Malformed)
        },
        None => Err(DecodeError::Malformed),
    }
}


// The round trip.

/// The character at `j` may follow a value.
pub open spec fn ends_value(s: Seq<char>, j: int) -> bool {
    j == s.len() || (0 <= j < s.len() && (s[j] == ',' || s[j] == ']' || s[j] == '}'))
}

proof fn lemma_word_split(s: Seq<char>, i: int, a: Seq<char>, b: Seq<char>)
    requires
        word_at(s, i, a + b),
    ensures
        word_at(s, i, a),
        word_at(s, i + a.len(), b),
        forall|k: int| 0 <= k < a.len() ==> s[i + k] == #[trigger] a[k],
        forall|k: int| 0 <= k < b.len() ==> s[i + a.len() + k] == #[trigger] b[k],
        a.len() > 0 ==> s[i] == a[0],
        b.len() > 0 ==> s[i + a.len()] == b[0],
        i + a.len() + b.len() <= s.len(),
{
    assert(s.subrange(i, i + a.len()) =~= a) by {
        assert forall|k: int| 0 <= k < a.len() implies s.subrange(i, i + a.len())[k] == a[k] by {
            assert(s.subrange(i, i + (a + b).len())[k] == (a + b)[k]);
        }
    }
    assert(s.subrange(i + a.len(), i + a.len() + b.len()) =~= b) by {
        assert forall|k: int| 0 <= k < b.len() implies s.subrange(
            i + a.len(),
            i + a.len() + b.len(),
        )[k] == b[k] by {
            assert(s.subrange(i, i + (a + b).len())[a.len() + k] == (a + b)[a.len() + k]);
        }
    }
    assert forall|k: int| 0 <= k < a.len() implies s[i + k] == #[trigger] a[k] by {
        assert(s.subrange(i, i + a.len())[k] == a[k]);
    }
    assert forall|k: int| 0 <= k < b.len() implies s[i + a.len() + k] == #[trigger] b[k] by {
        assert(s.subrange(i + a.len(), i + a.len() + b.len())[k] == b[k]);
    }
    if a.len() > 0 {
        assert(s[i + 0] == a[0]);
    }
    if b.len() > 0 {
        assert(s[i + a.len() + 0] == b[0]);
    }
}

proof fn lemma_escaped_front(c: char, t: Seq<char>)
    ensures
        escaped(seq![c] + t) == escape_char(c) + escaped(t),
    decreases t.len(),
{
    let u = seq![c] + t;
    if t.len() == 0 {
        assert(u.drop_last() =~= Seq::<char>::empty());
        assert(u.last() == c);
        assert(escaped(Seq::<char>::empty()) =~= Seq::<char>::empty());
        assert(escaped(u) == escaped(u.drop_last()) + escape_char(u.last()));
        assert(escaped(u) =~= escape_char(c) + escaped(t));
    } else {
        lemma_escaped_front(c, t.drop_last());
        assert(u.drop_last() =~= seq![c] + t.drop_last());
        assert(u.last() == t.last());
        assert(escaped(u) =~= escape_char(c) + escaped(t));
    }
}

proof fn lemma_parse_string_text(t: Seq<char>, s: Seq<char>, i: int)
    requires
        0 <= i,
        word_at(s, i, escaped(t) + seq!['"']),
    ensures
        parse_string(s, i) == Some((t, i + escaped(t).len() + 1)),
    decreases t.len(),
{
    lemma_word_split(s, i, escaped(t), seq!['"']);
    if t.len() == 0 {
        assert(s[i] == '"');
    } else {
        let c = t[0];
        let rest = t.drop_first();
        assert(t =~= seq![c] + rest);
        lemma_escaped_front(c, rest);
        let e = escape_char(c);
        assert(escaped(t) + seq!['"'] =~= e + (escaped(rest) + seq!['"']));
        lemma_word_split(s, i, e, escaped(rest) + seq!['"']);
        lemma_parse_string_text(rest, s, i + e.len());
        assert(e[0] == s[i]);
        if e.len() == 2 {
            assert(e[1] == s[i + 1]);
        }
        assert(seq![c] + rest =~= t);
    }
}

proof fn lemma_number_end(s: Seq<char>, i: int, j: int)
    requires
        0 <= i <= j <= s.len(),
        forall|k: int| i <= k < j ==> is_number_char(#[trigger] s[k]),
        j == s.len() || !is_number_char(s[j]),
    ensures
        number_end(s, i) == j,
    decreases j - i,
{
    if i < j {
        lemma_number_end(s, i + 1, j);
    }
}

proof fn lemma_first_of(t: Seq<char>, c: char, k: int, p: int)
    requires
        0 <= k <= p <= t.len(),
        p < t.len() ==> t[p] == c,
        forall|q: int| k <= q < p ==> #[trigger] t[q] != c,
    ensures
        first_of(t, c, k) == p,
    decreases p - k,
{
    if k < p {
        lemma_first_of(t, c, k + 1, p);
    }
}

proof fn lemma_number_text(v: ValueModel, s: Seq<char>, i: int)
    requires
        0 <= i,
        v is Int || v is Float,
        word_at(s, i, value_text(v)),
        ends_value(s, i + value_text(v).len()),
    ensures
        parse_value(s, i) == Some((v, i + value_text(v).len())),
        value_text(v).len() >= 1,
{
    let w = value_text(v);
    let j = i + w.len();
    match v {
        ValueModel::Int(n) => {
            lemma_int_chars(n);
            assert(w + Seq::<char>::empty() =~= w);
            lemma_word_split(s, i, w, Seq::empty());
            assert forall|k: int| i <= k < j implies is_number_char(#[trigger] s[k]) by {
                assert(s[i + (k - i)] == w[k - i]);
            }
            lemma_number_end(s, i, j);
            assert(s.subrange(i, j) =~= w);
        },
        ValueModel::Float(m, e) => {
            let a = int_chars(m as int);
            let b = int_chars(e as int);
            lemma_int_chars(m);
            lemma_int_chars(e as i64);
            assert(w =~= a + (seq!['e'] + b));
            lemma_word_split(s, i, a, seq!['e'] + b);
            lemma_word_split(s, i + a.len(), seq!['e'], b);
            assert forall|k: int| i <= k < j implies is_number_char(#[trigger] s[k]) by {
                if k < i + a.len() {
                    assert(s[i + (k - i)] == a[k - i]);
                } else if k > i + a.len() {
                    assert(s[i + a.len() + 1 + (k - i - a.len() - 1)] == b[k - i - a.len() - 1]);
                }
            }
            lemma_number_end(s, i, j);
            let t = s.subrange(i, j);
            assert(t =~= w);
            assert(!all_digits(t)) by {
                assert(!is_digit(t[a.len() as int]));
            }
            assert(!all_digits(t.drop_first())) by {
                assert(t.drop_first()[a.len() - 1] == t[a.len() as int]);
            }
            assert(int_text(t) is None);
            lemma_first_of(t, 'e', 0, a.len() as int);
            assert(t.take(a.len() as int) =~= a);
            assert(t.skip(a.len() as int + 1) =~= b);
            lemma_first_of(a, '.', 0, a.len() as int);
        },
        _ => {},
    }
}

proof fn lemma_value_text_start(v: ValueModel)
    ensures
        value_text(v).len() >= 1,
        value_text(v)[0] != ']' && value_text(v)[0] != '}' && value_text(v)[0] != ',',
{
    match v {
        ValueModel::Int(n) => {
            lemma_int_chars(n);
        },
        ValueModel::Float(m, e) => {
            lemma_int_chars(m);
        },
        _ => {},
    }
}

proof fn lemma_key_text(k: KeyModel, s: Seq<char>, i: int)
    requires
        0 <= i,
        word_at(s, i, key_text(k) + seq![':']),
    ensures
        parse_key(s, i) == Some((k, i + key_text(k).len())),
        key_text(k).len() >= 1,
        key_text(k)[0] != '}',
{
    let w = key_text(k);
    lemma_word_split(s, i, w, seq![':']);
    let j = i + w.len();
    match k {
        KeyModel::Int(n) => {
            lemma_int_chars(n);
            assert forall|q: int| i <= q < j implies is_number_char(#[trigger] s[q]) by {
                assert(s[i + (q - i)] == w[q - i]);
            }
            lemma_number_end(s, i, j);
            assert(s.subrange(i, j) =~= w);
        },
        KeyModel::Bool(b) => {
            assert(s.subrange(i, i + w.len()) =~= w);
        },
        KeyModel::Text(t) => {
            assert(w =~= seq!['"'] + (escaped(t) + seq!['"']));
            lemma_word_split(s, i, seq!['"'], escaped(t) + seq!['"']);
            lemma_parse_string_text(t, s, i + 1);
        },
    }
}

proof fn lemma_value_text(v: ValueModel, s: Seq<char>, i: int)
    requires
        0 <= i,
        word_at(s, i, value_text(v)),
        ends_value(s, i + value_text(v).len()),
    ensures
        parse_value(s, i) == Some((v, i + value_text(v).len())),
    decreases v,
{
    let w = value_text(v);
    lemma_value_text_start(v);
    assert(w + Seq::<char>::empty() =~= w);
    lemma_word_split(s, i, w, Seq::empty());
    match v {
        ValueModel::Int(n) => {
            lemma_number_text(v, s, i);
            assert(parse_value(s, i) == Some((v, i + w.len())));
        },
        ValueModel::Float(_, _) => {
            lemma_number_text(v, s, i);
        },
        ValueModel::Bool(b) => {
            assert(s.subrange(i, i + w.len()) =~= w);
            assert(parse_value(s, i) == Some((v, i + w.len())));
        },
        ValueModel::Text(t) => {
            assert(w =~= seq!['"'] + (escaped(t) + seq!['"']));
            lemma_word_split(s, i, seq!['"'], escaped(t) + seq!['"']);
            lemma_parse_string_text(t, s, i + 1);
            assert(parse_value(s, i) == Some((v, i + w.len())));
        },
        ValueModel::List(items) => {
            if items.len() == 0 {
                assert(w =~= seq!['[', ']']);
                assert(s[i + 1] == w[1]);
                assert(items =~= Seq::<ValueModel>::empty());
            } else {
                assert(w =~= seq!['['] + (items_text(items) + seq![']']));
                lemma_word_split(s, i, seq!['['], items_text(items) + seq![']']);
                lemma_items_text(items, s, i + 1);
                lemma_items_text_start(items);
                assert(s[i + 1] == items_text(items)[0]);
                assert(parse_value(s, i) == Some((v, i + w.len())));
            }
        },
        ValueModel::Mapping(entries) => {
            if entries.len() == 0 {
                assert(w =~= seq!['{', '}']);
                assert(s[i + 1] == w[1]);
                assert(entries =~= Seq::<(KeyModel, ValueModel)>::empty());
            } else {
                assert(w =~= seq!['{'] + (entries_text(entries) + seq!['}']));
                lemma_word_split(s, i, seq!['{'], entries_text(entries) + seq!['}']);
                lemma_entries_text(entries, s, i + 1);
                lemma_entries_text_start(entries);
                assert(s[i + 1] == entries_text(entries)[0]);
                assert(parse_value(s, i) == Some((v, i + w.len())));
            }
        },
    }
}

proof fn lemma_items_text_start(items: Seq<ValueModel>)
    requires
        items.len() >= 1,
    ensures
        items_text(items).len() >= 1,
        items_text(items)[0] == value_text(items[0])[0],
        items_text(items)[0] != ']',
{
    lemma_value_text_start(items[0]);
}

proof fn lemma_entries_text_start(entries: Seq<(KeyModel, ValueModel)>)
    requires
        entries.len() >= 1,
    ensures
        entries_text(entries).len() >= 1,
        entries_text(entries)[0] != '}',
{
    let k = entries[0].0;
    let s = key_text(k) + seq![':'];
    assert(s.subrange(0, s.len() as int) =~= s);
    lemma_key_text(k, s, 0);
}

proof fn lemma_items_text(items: Seq<ValueModel>, s: Seq<char>, i: int)
    requires
        0 <= i,
        items.len() >= 1,
        word_at(s, i, items_text(items) + seq![']']),
    ensures
        parse_items(s, i) == Some((items, i + items_text(items).len() + 1)),
    decreases items,
{
    let x = items[0];
    let wx = value_text(x);
    lemma_value_text_start(x);
    if items.len() == 1 {
        lemma_word_split(s, i, wx, seq![']']);
        lemma_value_text(x, s, i);
        assert(items =~= seq![x]);
    } else {
        let rest = items.subrange(1, items.len() as int);
        assert(items_text(items) + seq![']'] =~= wx + (seq![','] + (items_text(rest) + seq![']'])));
        lemma_word_split(s, i, wx, seq![','] + (items_text(rest) + seq![']']));
        lemma_word_split(s, i + wx.len(), seq![','], items_text(rest) + seq![']']);
        lemma_value_text(x, s, i);
        lemma_items_text(rest, s, i + wx.len() + 1);
        assert(items =~= seq![x] + rest);
    }
}

proof fn lemma_entries_text(entries: Seq<(KeyModel, ValueModel)>, s: Seq<char>, i: int)
    requires
        0 <= i,
        entries.len() >= 1,
        word_at(s, i, entries_text(entries) + seq!['}']),
    ensures
        parse_entries(s, i) == Some((entries, i + entries_text(entries).len() + 1)),
    decreases entries,
{
    let (k, x) = entries[0];
    let wk = key_text(k);
    let wx = value_text(x);
    lemma_value_text_start(x);
    assert(decreases_to!(entries => entries[0]));
    if entries.len() == 1 {
        assert(entries_text(entries) + seq!['}'] =~= wk + (seq![':'] + (wx + seq!['}'])));
        lemma_word_split(s, i, wk, seq![':'] + (wx + seq!['}']));
        lemma_word_split(s, i + wk.len(), seq![':'], wx + seq!['}']);
        lemma_word_split(s, i + wk.len() + 1, wx, seq!['}']);
        assert(wk + seq![':'] + (wx + seq!['}']) =~= wk + (seq![':'] + (wx + seq!['}'])));
        lemma_word_split(s, i, wk + seq![':'], wx + seq!['}']);
        lemma_key_text(k, s, i);
        lemma_value_text(x, s, i + wk.len() + 1);
        assert(entries =~= seq![(k, x)]);
    } else {
        let rest = entries.subrange(1, entries.len() as int);
        let tail = seq![','] + (entries_text(rest) + seq!['}']);
        assert(entries_text(entries) + seq!['}'] =~= wk + (seq![':'] + (wx + tail)));
        lemma_word_split(s, i, wk, seq![':'] + (wx + tail));
        lemma_word_split(s, i + wk.len(), seq![':'], wx + tail);
        lemma_word_split(s, i + wk.len() + 1, wx, tail);
        lemma_word_split(s, i + wk.len() + 1 + wx.len(), seq![','], entries_text(rest) + seq!['}']);
        assert(wk + seq![':'] + (wx + tail) =~= wk + (seq![':'] + (wx + tail)));
        lemma_word_split(s, i, wk + seq![':'], wx + tail);
        lemma_key_text(k, s, i);
        lemma_value_text(x, s, i + wk.len() + 1);
        lemma_entries_text(rest, s, i + wk.len() + 1 + wx.len() + 1);
        assert(entries =~= seq![(k, x)] + rest);
    }
}

/// Decoding the wire text of any value gives that value back, nested lists
/// and maps included.
pub proof fn lemma_round_trip(v: ValueModel)
    ensures
        decode_text(value_text(v)) == Some(v),
{
    let s = value_text(v);
    assert(s.subrange(0, s.len() as int) =~= s);
    lemma_value_text(v, s, 0);
}

} // verus!
