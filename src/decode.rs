use vstd::prelude::*;

use crate::json::{escape, escape_char, hex_digit, json_member, json_members, json_object, json_string};
use crate::store::{as_map, Entry};

verus! {

/// The value of a hexadecimal digit of either case, if `c` is one.
pub open spec fn hex_value(c: char) -> Option<int> {
    let n = c as u32;
    if 48 <= n <= 57 {
        Some(n - 48)
    } else if 97 <= n <= 102 {
        Some(n - 87)
    } else if 65 <= n <= 70 {
        Some(n - 55)
    } else {
        None
    }
}

/// The code unit that four hexadecimal digits spell, unless it is a surrogate.
pub open spec fn unit_value(t: Seq<char>) -> Option<int>
    recommends
        t.len() == 4,
{
    match (hex_value(t[0]), hex_value(t[1]), hex_value(t[2]), hex_value(t[3])) {
        (Some(a), Some(b), Some(c), Some(d)) => {
            let n = 4096 * a + 256 * b + 16 * c + d;
            if 0xD800 <= n <= 0xDFFF {
                None
            } else {
                Some(n)
            }
        },
        _ => None,
    }
}

/// The character with code `n`.
pub open spec fn char_of(n: int) -> char {
    choose|c: char| #[trigger] (c as u32) == n
}

/// The character that a backslash followed by `c` stands for, for the
/// two-character escapes.
pub open spec fn escaped_target(c: char) -> Option<char> {
    if c == '"' {
        Some('"')
    } else if c == '\\' {
        Some('\\')
    } else if c == '/' {
        Some('/')
    } else if c == 'b' {
        Some('\x08')
    } else if c == 'f' {
        Some('\x0c')
    } else if c == 'n' {
        Some('\n')
    } else if c == 'r' {
        Some('\r')
    } else if c == 't' {
        Some('\t')
    } else {
        None
    }
}

/// `c` in front of the decoded text of a successful result.
pub open spec fn prepend(c: char, r: Option<(Seq<char>, Seq<char>)>) -> Option<
    (Seq<char>, Seq<char>),
> {
    match r {
        Some((d, rest)) => Some((seq![c] + d, rest)),
        None => None,
    }
}

/// Reads the inside of a JSON string literal up to and including its closing
/// quote: the decoded characters and the text after the quote.
pub open spec fn decode_string_body(t: Seq<char>) -> Option<(Seq<char>, Seq<char>)>
    decreases t.len(),
{
    if t.len() == 0 {
        None
    } else if t[0] == '"' {
        Some((Seq::empty(), t.drop_first()))
    } else if t[0] == '\\' {
        if t.len() < 2 {
            None
        } else if t[1] == 'u' {
            if t.len() < 6 {
                None
            } else {
                match unit_value(t.subrange(2, 6)) {
                    Some(n) => prepend(char_of(n), decode_string_body(t.subrange(6, t.len() as int))),
                    None => None,
                }
            }
        } else {
            match escaped_target(t[1]) {
                Some(c) => prepend(c, decode_string_body(t.subrange(2, t.len() as int))),
                None => None,
            }
        }
    } else if (t[0] as u32) < 0x20 {
        None
    } else {
        prepend(t[0], decode_string_body(t.drop_first()))
    }
}

/// Reads a JSON string literal at the start of `t`.
pub open spec fn decode_string(t: Seq<char>) -> Option<(Seq<char>, Seq<char>)> {
    if t.len() > 0 && t[0] == '"' {
        decode_string_body(t.drop_first())
    } else {
        None
    }
}

/// Reads `"key":"value"` members separated by commas, up to the closing
/// brace that must end the text. `fuel` bounds the number of members.
pub open spec fn decode_members(t: Seq<char>, fuel: nat) -> Option<Seq<Entry>>
    decreases fuel,
{
    if fuel == 0 {
        None
    } else {
        match decode_string(t) {
            None => None,
            Some((k, r1)) => if r1.len() == 0 || r1[0] != ':' {
                None
            } else {
                match decode_string(r1.drop_first()) {
                    None => None,
                    Some((v, r2)) => {
                        let e: Entry = (k, v);
                        if r2 == seq!['}'] {
                            Some(seq![e])
                        } else if r2.len() > 0 && r2[0] == ',' {
                            match decode_members(r2.drop_first(), (fuel - 1) as nat) {
                                Some(rest) => Some(seq![e] + rest),
                                None => None,
                            }
                        } else {
                            None
                        }
                    },
                }
            },
        }
    }
}

/// Reads a compact JSON object whose members are all strings: the members
/// in the order they appear.
pub open spec fn decode_object(t: Seq<char>) -> Option<Seq<Entry>> {
    if t == seq!['{', '}'] {
        Some(Seq::empty())
    } else if t.len() > 0 && t[0] == '{' {
        decode_members(t.drop_first(), t.len())
    } else {
        None
    }
}

proof fn lemma_hex_round_trip(n: u32)
    requires
        n < 16,
    ensures
        hex_value(hex_digit(n)) == Some(n as int),
{
}

/// Reading the escaped form of one character in front of `u` gives that
/// character in front of what reading `u` gives.
proof fn lemma_decode_char(c: char, u: Seq<char>)
    ensures
        decode_string_body(escape_char(c) + u) == prepend(c, decode_string_body(u)),
{
    let e = escape_char(c);
    let t = e + u;
    if c == '"' || c == '\\' || c == '\n' || c == '\r' || c == '\t' || c == '\x08' || c == '\x0c' {
        assert(t[0] == '\\');
        assert(t[1] == e[1]);
        assert(t.subrange(2, t.len() as int) =~= u);
    } else if (c as u32) < 0x20 {
        let n = c as u32;
        lemma_hex_round_trip(n / 16);
        lemma_hex_round_trip(n % 16);
        assert(t[0] == '\\');
        assert(t[1] == 'u');
        assert(t.subrange(2, 6) =~= seq!['0', '0', hex_digit(n / 16), hex_digit(n % 16)]);
        assert(unit_value(t.subrange(2, 6)) == Some(n as int));
        assert(c as u32 == n);
        assert(char_of(n as int) as u32 == n);
        assert(t.subrange(6, t.len() as int) =~= u);
    } else {
        assert(t[0] == c);
        assert(t.drop_first() =~= u);
    }
}

/// Reading the escaped form of `s` followed by a closing quote gives back `s`
/// and the text after the quote.
proof fn lemma_decode_escaped(s: Seq<char>, rest: Seq<char>)
    ensures
        decode_string_body(escape(s) + seq!['"'] + rest) == Some((s, rest)),
    decreases s.len(),
{
    let t = escape(s) + seq!['"'] + rest;
    if s.len() == 0 {
        assert(t =~= seq!['"'] + rest);
        assert(t.drop_first() =~= rest);
    } else {
        let c = s[0];
        let tail = s.drop_first();
        let u = escape(tail) + seq!['"'] + rest;
        lemma_decode_escaped(tail, rest);
        assert(t =~= escape_char(c) + u);
        lemma_decode_char(c, u);
        assert(seq![c] + tail =~= s);
    }
}

/// Reading a JSON string literal of `s` in front of `r` gives `s` and `r`.
proof fn lemma_decode_string(s: Seq<char>, r: Seq<char>)
    ensures
        decode_string(json_string(s) + r) == Some((s, r)),
{
    let t = json_string(s) + r;
    assert(t[0] == '"');
    assert(t.drop_first() =~= escape(s) + seq!['"'] + r);
    lemma_decode_escaped(s, r);
}

/// The length of the members text is at least the number of entries.
proof fn lemma_members_len(p: Seq<Entry>)
    ensures
        json_members(p).len() >= p.len(),
    decreases p.len(),
{
    if p.len() > 1 {
        lemma_members_len(p.drop_first());
    }
}

proof fn lemma_decode_members(p: Seq<Entry>, fuel: nat)
    requires
        p.len() > 0,
        fuel >= p.len(),
    ensures
        decode_members(json_members(p) + seq!['}'], fuel) == Some(p),
    decreases p.len(),
{
    let k = p[0].0;
    let v = p[0].1;
    let after = if p.len() == 1 {
        seq!['}']
    } else {
        seq![','] + json_members(p.drop_first()) + seq!['}']
    };
    let t = json_members(p) + seq!['}'];
    let r1 = seq![':'] + json_string(v) + after;
    assert(t =~= json_string(k) + r1);
    lemma_decode_string(k, r1);
    assert(r1.drop_first() =~= json_string(v) + after);
    lemma_decode_string(v, after);
    let e: Entry = (k, v);
    assert(e == p[0]);
    if p.len() == 1 {
        assert(seq![e] =~= p);
    } else {
        let q = p.drop_first();
        assert(after != seq!['}']) by {
            assert(after[0] == ',');
        }
        assert(after.drop_first() =~= json_members(q) + seq!['}']);
        lemma_decode_members(q, (fuel - 1) as nat);
        assert(seq![e] + q =~= p);
    }
}

/// Reading back the JSON object of any entries gives those entries, in
/// order, and so the same key-to-value mapping.
pub proof fn lemma_json_round_trip(p: Seq<Entry>)
    ensures
        decode_object(json_object(p)) == Some(p),
        as_map(decode_object(json_object(p)).unwrap()) == as_map(p),
{
    let t = json_object(p);
    if p.len() == 0 {
        assert(t =~= seq!['{', '}']);
    } else {
        lemma_members_len(p);
        assert(json_members(p)[0] == '"');
        assert(t[1] == '"');
        assert(t != seq!['{', '}']);
        assert(t.drop_first() =~= json_members(p) + seq!['}']);
        lemma_decode_members(p, t.len());
    }
}

} // verus!
