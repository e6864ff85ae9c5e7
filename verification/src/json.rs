//! JSON values as this crate's logic reads them.
//!
//! Parsing text into a value is done at the edge; the rules that walk a value
//! (which key holds a tool's output, which string a stored frame carries) live
//! beside the code that uses them and speak of this model.
use vstd::prelude::*;

use crate::text::{chars_eq, chars_of};

verus! {

/// A JSON value. A number is kept as the text it was written as; an object's
/// entries keep the order its map iterates them in.
pub enum Json {
    Null,
    Bool(bool),
    Number(String),
    Str(String),
    Array(Vec<Json>),
    Object(Vec<(String, Json)>),
}

/// The value under `key` among `entries`: the first entry that has it.
pub open spec fn entry(entries: Seq<(String, Json)>, key: Seq<char>) -> Option<Json>
    decreases entries.len(),
{
    if entries.len() == 0 {
        None
    } else if entries[0].0@ == key {
        Some(entries[0].1)
    } else {
        entry(entries.subrange(1, entries.len() as int), key)
    }
}

/// The value under `key` of an object, as `Value::get` gives it; nothing
/// for any other kind of value.
pub open spec fn get_spec(v: Json, key: Seq<char>) -> Option<Json> {
    match v {
        Json::Object(entries) => entry(entries@, key),
        _ => None,
    }
}

/// Where `key` sits among `entries`.
pub fn find_key(entries: &Vec<(String, Json)>, key: &str) -> (r: Option<usize>)
    ensures
        match r {
            Some(k) => k < entries.len() && entry(entries@, key@) == Some(entries@[k as int].1),
            None => entry(entries@, key@) is None,
        },
{
    let wanted = chars_of(key);
    let n = entries.len();
    let mut i: usize = 0;
    assert(entries@.subrange(0, n as int) =~= entries@);
    while i < n
        invariant
            n == entries.len(),
            i <= n,
            wanted@ == key@,
            entry(entries@, key@) == entry(entries@.subrange(i as int, n as int), key@),
        decreases n - i,
    {
        let ghost rest = entries@.subrange(i as int, n as int);
        assert(rest[0] == entries@[i as int]);
        assert(rest.subrange(1, rest.len() as int) =~= entries@.subrange(i + 1, n as int));
        let name = chars_of(entries[i].0.as_str());
        if chars_eq(&name, &wanted) {
            return Some(i);
        }
        i = i + 1;
    }
    None
}

/// The value under `key`, if `v` is an object that has it.
pub fn get<'a>(v: &'a Json, key: &str) -> (r: Option<&'a Json>)
    ensures
        match r {
            Some(x) => get_spec(*v, key@) == Some(*x),
            None => get_spec(*v, key@) is None,
        },
{
    match v {
        Json::Object(entries) => match find_key(entries, key) {
            Some(k) => Some(&entries[k].1),
            None => None,
        },
        _ => None,
    }
}

/// The lowercase hex digit for `d`.
pub open spec fn hex_digit_char(d: int) -> char {
    if d < 10 {
        (('0' as int) + d) as char
    } else {
        (('a' as int) + d - 10) as char
    }
}

/// How one character is written inside a JSON string, as `serde_json`
/// writes it: quote and backslash escaped, the common control characters by
/// their short escapes, the other control characters as `\u00XX`, and
/// everything else as itself.
pub open spec fn escape_char(c: char) -> Seq<char> {
    if c == '"' {
        seq!['\\', '"']
    } else if c == '\\' {
        seq!['\\', '\\']
    } else if c == '\n' {
        seq!['\\', 'n']
    } else if c == '\r' {
        seq!['\\', 'r']
    } else if c == '\t' {
        seq!['\\', 't']
    } else if c == '\x08' {
        seq!['\\', 'b']
    } else if c == '\x0C' {
        seq!['\\', 'f']
    } else if (c as int) < 0x20 {
        seq!['\\', 'u', '0', '0', hex_digit_char((c as int) / 16), hex_digit_char((c as int) % 16)]
    } else {
        seq![c]
    }
}

/// The characters of `s` escaped for a JSON string, in order.
pub open spec fn escape_text(s: Seq<char>) -> Seq<char>
    decreases s.len(),
{
    if s.len() == 0 {
        Seq::empty()
    } else {
        escape_text(s.drop_last()) + escape_char(s.last())
    }
}

/// `s` as a JSON string literal.
pub open spec fn quoted(s: Seq<char>) -> Seq<char> {
    seq!['"'] + escape_text(s) + seq!['"']
}

fn hex_char(d: u32) -> (c: char)
    requires
        d < 16,
    ensures
        c == hex_digit_char(d as int),
{
    if d < 10 {
        match d {
            0 => '0',
            1 => '1',
            2 => '2',
            3 => '3',
            4 => '4',
            5 => '5',
            6 => '6',
            7 => '7',
            8 => '8',
            _ => '9',
        }
    } else {
        match d {
            10 => 'a',
            11 => 'b',
            12 => 'c',
            13 => 'd',
            14 => 'e',
            _ => 'f',
        }
    }
}

/// The code of a control character.
fn control_code(c: char) -> (d: u32)
    requires
        '\x1F' >= c,
    ensures
        d as int == c as int,
        d < 32,
{
    if c == '\x00' {
        0
    } else     if c == '\x01' {
        1
    } else     if c == '\x02' {
        2
    } else     if c == '\x03' {
        3
    } else     if c == '\x04' {
        4
    } else     if c == '\x05' {
        5
    } else     if c == '\x06' {
        6
    } else     if c == '\x07' {
        7
    } else     if c == '\x08' {
        8
    } else     if c == '\x09' {
        9
    } else     if c == '\x0A' {
        10
    } else     if c == '\x0B' {
        11
    } else     if c == '\x0C' {
        12
    } else     if c == '\x0D' {
        13
    } else     if c == '\x0E' {
        14
    } else     if c == '\x0F' {
        15
    } else     if c == '\x10' {
        16
    } else     if c == '\x11' {
        17
    } else     if c == '\x12' {
        18
    } else     if c == '\x13' {
        19
    } else     if c == '\x14' {
        20
    } else     if c == '\x15' {
        21
    } else     if c == '\x16' {
        22
    } else     if c == '\x17' {
        23
    } else     if c == '\x18' {
        24
    } else     if c == '\x19' {
        25
    } else     if c == '\x1A' {
        26
    } else     if c == '\x1B' {
        27
    } else     if c == '\x1C' {
        28
    } else     if c == '\x1D' {
        29
    } else     if c == '\x1E' {
        30
    } else     if c == '\x1F' {
        31
    } else {
        31
    }
}

/// Appends `s` to `out` as a JSON string literal.
pub fn push_quoted(out: &mut String, s: &str)
    ensures
        final(out)@ == old(out)@ + quoted(s@),
{
    let ghost start = out@;
    let cs = chars_of(s);
    crate::text::push_char(out, '"');
    let mut i: usize = 0;
    while i < cs.len()
        invariant
            i <= cs.len(),
            cs@ == s@,
            out@ == start + seq!['"'] + escape_text(cs@.take(i as int)),
        decreases cs.len() - i,
    {
        proof {
            assert(cs@.take(i + 1).drop_last() =~= cs@.take(i as int));
        }
        let c = cs[i];
        let ghost before = out@;
        if c == '"' {
            crate::text::push_char(out, '\\');
            crate::text::push_char(out, '"');
        } else if c == '\\' {
            crate::text::push_char(out, '\\');
            crate::text::push_char(out, '\\');
        } else if c == '\n' {
            crate::text::push_char(out, '\\');
            crate::text::push_char(out, 'n');
        } else if c == '\r' {
            crate::text::push_char(out, '\\');
            crate::text::push_char(out, 'r');
        } else if c == '\t' {
            crate::text::push_char(out, '\\');
            crate::text::push_char(out, 't');
        } else if c == '\x08' {
            crate::text::push_char(out, '\\');
            crate::text::push_char(out, 'b');
        } else if c == '\x0C' {
            crate::text::push_char(out, '\\');
            crate::text::push_char(out, 'f');
        } else if '\x1F' >= c {
            let v = control_code(c);
            crate::text::push_char(out, '\\');
            crate::text::push_char(out, 'u');
            crate::text::push_char(out, '0');
            crate::text::push_char(out, '0');
            crate::text::push_char(out, hex_char(v / 16));
            crate::text::push_char(out, hex_char(v % 16));
        } else {
            crate::text::push_char(out, c);
        }
        assert(out@ =~= before + escape_char(c));
        i = i + 1;
        assert(out@ =~= start + seq!['"'] + escape_text(cs@.take(i as int)));
    }
    crate::text::push_char(out, '"');
    assert(cs@.take(cs.len() as int) =~= cs@);
    assert(out@ =~= start + quoted(s@));
}

} // verus!
