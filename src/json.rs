use vstd::prelude::*;

use crate::store::{Entry, PairStore};

verus! {

/// The lower-case hexadecimal digit for `n` (below 16).
pub open spec fn hex_digit(n: u32) -> char {
    if n < 10 {
        if n == 0 { '0' } else if n == 1 { '1' } else if n == 2 { '2' } else if n == 3 { '3' }
        else if n == 4 { '4' } else if n == 5 { '5' } else if n == 6 { '6' } else if n == 7 { '7' }
        else if n == 8 { '8' } else { '9' }
    } else {
        if n == 10 { 'a' } else if n == 11 { 'b' } else if n == 12 { 'c' } else if n == 13 { 'd' }
        else if n == 14 { 'e' } else { 'f' }
    }
}

/// How one character stands inside a JSON string literal: quote and
/// backslash get a backslash, the control characters with a short form use
/// it, the other control characters become `\u00XX`, anything else stands
/// as it is.
pub open spec fn escape_char(c: char) -> Seq<char> {
    if c == '"' {
        seq!['\\', '"']
    } else if c == '\\' {
        seq!['\\', '\\']
    } else if c == '\n' {
        seq!['\\', 'n']
    } else if c == '\r' {
        seq!['\\', 'r']
    } else if c == '\t' {
        seq!['\\', 't']
    } else if c == '\x08' {
        seq!['\\', 'b']
    } else if c == '\x0c' {
        seq!['\\', 'f']
    } else if (c as u32) < 0x20 {
        seq!['\\', 'u', '0', '0', hex_digit((c as u32) / 16), hex_digit((c as u32) % 16)]
    } else {
        seq![c]
    }
}

/// The escaped form of a whole string, character by character.
pub open spec fn escape(s: Seq<char>) -> Seq<char>
    decreases s.len(),
{
    if s.len() == 0 {
        Seq::empty()
    } else {
        escape_char(s[0]) + escape(s.drop_first())
    }
}

/// A JSON string literal holding `s`.
pub open spec fn json_string(s: Seq<char>) -> Seq<char> {
    seq!['"'] + escape(s) + seq!['"']
}

/// One `"key":"value"` member.
pub open spec fn json_member(e: Entry) -> Seq<char> {
    json_string(e.0) + seq![':'] + json_string(e.1)
}

/// The members of `p` in order, separated by commas.
pub open spec fn json_members(p: Seq<Entry>) -> Seq<char>
    decreases p.len(),
{
    if p.len() == 0 {
        Seq::empty()
    } else if p.len() == 1 {
        json_member(p[0])
    } else {
        json_member(p[0]) + seq![','] + json_members(p.drop_first())
    }
}

/// The compact JSON object of the entries, in their order.
pub open spec fn json_object(p: Seq<Entry>) -> Seq<char> {
    seq!['{'] + json_members(p) + seq!['}']
}

/// Escaping distributes over concatenation.
pub proof fn lemma_escape_append(a: Seq<char>, b: Seq<char>)
    ensures
        escape(a + b) == escape(a) + escape(b),
    decreases a.len(),
{
    if a.len() == 0 {
        assert(a + b =~= b);
        assert(escape(a) + escape(b) =~= escape(b));
    } else {
        assert((a + b).drop_first() =~= a.drop_first() + b);
        lemma_escape_append(a.drop_first(), b);
        assert(escape(a + b) =~= escape(a) + escape(b));
    }
}

/// Appending an entry appends a comma and its member.
pub proof fn lemma_members_push(p: Seq<Entry>, e: Entry)
    requires
        p.len() > 0,
    ensures
        json_members(p.push(e)) == json_members(p) + seq![','] + json_member(e),
    decreases p.len(),
{
    let q = p.push(e);
    assert(q[0] == p[0]);
    if p.len() == 1 {
        assert(q.drop_first() =~= seq![e]);
        assert(json_members(seq![e]) == json_member(e));
        assert(json_members(q) =~= json_members(p) + seq![','] + json_member(e));
    } else {
        assert(q.drop_first() =~= p.drop_first().push(e));
        lemma_members_push(p.drop_first(), e);
        assert(json_members(q) =~= json_members(p) + seq![','] + json_member(e));
    }
}

/// A single character escapes to its own escaped form.
pub proof fn lemma_escape_single(c: char)
    ensures
        escape(seq![c]) == escape_char(c),
{
    let t = seq![c];
    assert(t.drop_first() =~= Seq::<char>::empty());
    assert(escape(Seq::<char>::empty()) == Seq::<char>::empty());
    assert(escape(t) == escape_char(t[0]) + escape(t.drop_first()));
    assert(escape(t) =~= escape_char(c));
}

/// The object of no entries is exactly the two braces.
pub proof fn lemma_empty_object()
    ensures
        json_object(Seq::<Entry>::empty()) == seq!['{', '}'],
{
    assert(json_object(Seq::<Entry>::empty()) =~= seq!['{', '}']);
}

fn hex_digit_exec(n: u32) -> (r: char)
    requires
        n < 16,
    ensures
        r == hex_digit(n),
{
    if n < 10 {
        if n == 0 { '0' } else if n == 1 { '1' } else if n == 2 { '2' } else if n == 3 { '3' }
        else if n == 4 { '4' } else if n == 5 { '5' } else if n == 6 { '6' } else if n == 7 { '7' }
        else if n == 8 { '8' } else { '9' }
    } else {
        if n == 10 { 'a' } else if n == 11 { 'b' } else if n == 12 { 'c' } else if n == 13 { 'd' }
        else if n == 14 { 'e' } else { 'f' }
    }
}

/// Appends the escaped form of `c` to `out`.
pub fn push_escaped_char(out: &mut Vec<char>, c: char)
    ensures
        final(out)@ == old(out)@ + escape_char(c),
{
    let ghost start = out@;
    if c == '"' {
        out.push('\\');
        out.push('"');
    } else if c == '\\' {
        out.push('\\');
        out.push('\\');
    } else if c == '\n' {
        out.push('\\');
        out.push('n');
    } else if c == '\r' {
        out.push('\\');
        out.push('r');
    } else if c == '\t' {
        out.push('\\');
        out.push('t');
    } else if c == '\x08' {
        out.push('\\');
        out.push('b');
    } else if c == '\x0c' {
        out.push('\\');
        out.push('f');
    } else if (c as u32) < 0x20 {
        let n = c as u32;
        out.push('\\');
        out.push('u');
        out.push('0');
        out.push('0');
        out.push(hex_digit_exec(n / 16));
        out.push(hex_digit_exec(n % 16));
    } else {
        out.push(c);
    }
    assert(out@ =~= start + escape_char(c));
}

/// Appends the JSON string literal of `s` to `out`.
pub fn push_json_string(out: &mut Vec<char>, s: &Vec<char>)
    ensures
        final(out)@ == old(out)@ + json_string(s@),
{
    let ghost start = out@;
    out.push('"');
    let mut i: usize = 0;
    while i < s.len()
        invariant
            i <= s.len(),
            out@ == start + seq!['"'] + escape(s@.subrange(0, i as int)),
        decreases s.len() - i,
    {
        proof {
            lemma_escape_append(s@.subrange(0, i as int), seq![s@[i as int]]);
            assert(s@.subrange(0, i + 1) =~= s@.subrange(0, i as int) + seq![s@[i as int]]);
            lemma_escape_single(s@[i as int]);
        }
        push_escaped_char(out, s[i]);
        i = i + 1;
    }
    out.push('"');
    assert(s@.subrange(0, s@.len() as int) =~= s@);
    assert(out@ =~= start + json_string(s@));
}

/// Relies on `String`'s `FromIterator<char>` impl, which appends the
/// characters in the order the iterator yields them.
#[verifier::external_body]
fn string_from_chars(v: &Vec<char>) -> (r: String)
    ensures
        r@ == v@,
{
    v.iter().collect::<String>()
}

impl PairStore {
    /// The entries as a compact JSON object, keys in insertion order.
    pub fn to_json_chars(&self) -> (r: Vec<char>)
        ensures
            r@ == json_object(self.view()),
    {
        let mut out: Vec<char> = Vec::new();
        out.push('{');
        let mut i: usize = 0;
        while i < self.len()
            invariant
                i <= self.view().len(),
                out@ == seq!['{'] + json_members(self.view().subrange(0, i as int)),
            decreases self.view().len() - i,
        {
            if i > 0 {
                out.push(',');
            }
            push_json_string(&mut out, self.key_at(i));
            out.push(':');
            push_json_string(&mut out, self.value_at(i));
            proof {
                let p = self.view().subrange(0, i as int);
                let e = self.view()[i as int];
                assert(self.view().subrange(0, i + 1) =~= p.push(e));
                if i == 0 {
                    assert(p.push(e) =~= seq![e]);
                    assert(json_members(seq![e]) == json_member(e));
                } else {
                    lemma_members_push(p, e);
                }
                assert(out@ =~= seq!['{'] + json_members(p.push(e)));
            }
            i = i + 1;
        }
        out.push('}');
        assert(self.view().subrange(0, self.view().len() as int) =~= self.view());
        assert(out@ =~= json_object(self.view()));
        out
    }

    /// The entries as a compact JSON object, keys in insertion order.
    pub fn to_json(&self) -> (r: String)
        ensures
            r@ == json_object(self.view()),
    {
        let chars = self.to_json_chars();
        string_from_chars(&chars)
    }
}

} // verus!
