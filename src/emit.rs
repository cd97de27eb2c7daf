//! Text of the token-prefixed output lines.
use vstd::prelude::*;

verus! {

/// The escaped form of one character inside a quoted field.
pub open spec fn escape_char(c: char) -> Seq<char> {
    if c == '\\' {
        seq!['\\', '\\']
    } else if c == '"' {
        seq!['\\', '"']
    } else if c == '\n' {
        seq!['\\', 'n']
    } else if c == '\r' {
        seq!['\\', 'r']
    } else if c == '\t' {
        seq!['\\', 't']
    } else {
        seq![c]
    }
}

/// Every character of `s` escaped, in order.
pub open spec fn escaped(s: Seq<char>) -> Seq<char>
    decreases s.len(),
{
    if s.len() == 0 {
        Seq::empty()
    } else {
        escaped(s.drop_last()) + escape_char(s.last())
    }
}

/// A textual field value: `s` escaped between double quotes.
pub open spec fn quoted(s: Seq<char>) -> Seq<char> {
    seq!['"'] + escaped(s) + seq!['"']
}

/// The upper-case hexadecimal digit of `d` (`0 <= d < 16`).
pub open spec fn hex_digit(d: int) -> char {
    if d < 10 {
        (('0' as int) + d) as char
    } else {
        (('A' as int) + d - 10) as char
    }
}

/// The lowest `width` hexadecimal digits of `v`, most significant first.
pub open spec fn hex_fixed(v: nat, width: nat) -> Seq<char>
    decreases width,
{
    if width == 0 {
        Seq::empty()
    } else {
        hex_fixed(v / 16, (width - 1) as nat).push(hex_digit((v % 16) as int))
    }
}

/// `0x` followed by `width` hexadecimal digits of `v`.
pub open spec fn hex_literal(v: nat, width: nat) -> Seq<char> {
    seq!['0', 'x'] + hex_fixed(v, width)
}

fn hex_digit_char(d: u64) -> (r: char)
    requires
        d < 16,
    ensures
        r == hex_digit(d as int),
{
    if d < 10 {
        ((48 + d) as u8) as char
    } else {
        ((55 + d) as u8) as char
    }
}

pub(crate) fn push_hex(out: &mut Vec<char>, v: u64, width: usize)
    ensures
        final(out)@ == old(out)@ + hex_fixed(v as nat, width as nat),
    decreases width,
{
    if width == 0 {
        assert(old(out)@ + hex_fixed(v as nat, 0) == old(out)@);
        return ;
    }
    push_hex(out, v / 16, width - 1);
    out.push(hex_digit_char(v % 16));
    assert(hex_fixed(v as nat, width as nat) == hex_fixed((v / 16) as nat, (width - 1) as nat).push(
        hex_digit((v % 16) as int),
    ));
}

/// A key and a value, as one field of an output line.
pub fn field(key: &str, value: &str) -> (r: (String, String))
    ensures
        r.0@ == key@,
        r.1@ == value@,
{
    (key.to_owned(), value.to_owned())
}

/// Quotes a textual field: backslash, double quote, newline, carriage return
/// and tab are escaped, and the whole is put between double quotes.
pub fn quote(value: &str) -> (r: String)
    ensures
        r@ == quoted(value@),
{
    let chars = crate::text::chars_of(value);
    let mut out: Vec<char> = Vec::new();
    out.push('"');
    let mut i: usize = 0;
    while i < chars.len()
        invariant
            i <= chars.len(),
            chars@ == value@,
            out@ == seq!['"'] + escaped(chars@.subrange(0, i as int)),
        decreases chars.len() - i,
    {
        let c = chars[i];
        let ghost before = out@;
        if c == '\\' {
            out.push('\\');
            out.push('\\');
        } else if c == '"' {
            out.push('\\');
            out.push('"');
        } else if c == '\n' {
            out.push('\\');
            out.push('n');
        } else if c == '\r' {
            out.push('\\');
            out.push('r');
        } else if c == '\t' {
            out.push('\\');
            out.push('t');
        } else {
            out.push(c);
        }
        proof {
            let pre = chars@.subrange(0, i + 1);
            assert(pre.drop_last() == chars@.subrange(0, i as int));
            assert(out@ == before + escape_char(c));
        }
        i += 1;
    }
    out.push('"');
    proof {
        assert(chars@.subrange(0, chars@.len() as int) == chars@);
    }
    crate::text::string_of(&out)
}

/// `0x` and eight upper-case hexadecimal digits.
pub fn hex_u32(value: u32) -> (r: String)
    ensures
        r@ == hex_literal(value as nat, 8),
{
    let mut out: Vec<char> = Vec::new();
    out.push('0');
    out.push('x');
    push_hex(&mut out, value as u64, 8);
    crate::text::string_of(&out)
}

/// `0x` and sixteen upper-case hexadecimal digits.
pub fn hex_usize(value: usize) -> (r: String)
    ensures
        r@ == hex_literal(value as nat, 16),
{
    let mut out: Vec<char> = Vec::new();
    out.push('0');
    out.push('x');
    push_hex(&mut out, value as u64, 16);
    crate::text::string_of(&out)
}

} // verus!

verus! {

/// `n` in decimal.
pub open spec fn dec_digits(n: nat) -> Seq<char>
    decreases n,
{
    if n < 10 {
        seq![hex_digit(n as int)]
    } else {
        dec_digits(n / 10).push(hex_digit((n % 10) as int))
    }
}

fn push_decimal(out: &mut Vec<char>, n: u64)
    ensures
        final(out)@ == old(out)@ + dec_digits(n as nat),
    decreases n,
{
    if n < 10 {
        out.push(hex_digit_char(n));
        assert(final(out)@ =~= old(out)@ + dec_digits(n as nat)) by {
            assert(dec_digits(n as nat) == seq![hex_digit(n as int)]);
        }
        return ;
    }
    push_decimal(out, n / 10);
    out.push(hex_digit_char(n % 10));
}

/// `n` in decimal.
pub fn decimal(n: u64) -> (r: String)
    ensures
        r@ == dec_digits(n as nat),
{
    let mut out: Vec<char> = Vec::new();
    push_decimal(&mut out, n);
    assert(out@ =~= dec_digits(n as nat));
    crate::text::string_of(&out)
}

/// The text of the fields of a line: ` key=value` for each.
pub open spec fn fields_text(fields: Seq<(Seq<char>, Seq<char>)>) -> Seq<char>
    decreases fields.len(),
{
    if fields.len() == 0 {
        Seq::empty()
    } else {
        fields_text(fields.drop_last()) + seq![' '] + fields.last().0 + seq!['='] + fields.last().1
    }
}

/// The key and value texts of a list of fields.
pub open spec fn fields_view(fields: Seq<(String, String)>) -> Seq<(Seq<char>, Seq<char>)> {
    fields.map_values(|f: (String, String)| (f.0@, f.1@))
}

fn push_str(out: &mut Vec<char>, s: &str)
    ensures
        final(out)@ == old(out)@ + s@,
{
    let c = crate::text::chars_of(s);
    let mut i: usize = 0;
    while i < c.len()
        invariant
            i <= c.len(),
            c@ == s@,
            out@ == old(out)@ + c@.subrange(0, i as int),
        decreases c.len() - i,
    {
        out.push(c[i]);
        proof {
            assert(c@.subrange(0, i + 1) == c@.subrange(0, i as int).push(c@[i as int]));
        }
        i += 1;
    }
    proof {
        assert(c@.subrange(0, c@.len() as int) == c@);
    }
}

/// One output line: the token, then ` key=value` for each field.
pub fn format_line(token: &str, fields: &[(String, String)]) -> (r: String)
    ensures
        r@ == token@ + fields_text(fields_view(fields@)),
{
    let mut out = crate::text::chars_of(token);
    let mut i: usize = 0;
    while i < fields.len()
        invariant
            i <= fields.len(),
            out@ == token@ + fields_text(fields_view(fields@.subrange(0, i as int))),
        decreases fields.len() - i,
    {
        let ghost before = out@;
        out.push(' ');
        push_str(&mut out, fields[i].0.as_str());
        out.push('=');
        push_str(&mut out, fields[i].1.as_str());
        proof {
            let p = fields_view(fields@.subrange(0, i + 1));
            assert(p.drop_last() =~= fields_view(fields@.subrange(0, i as int)));
            assert(out@ =~= before + seq![' '] + p.last().0 + seq!['='] + p.last().1);
        }
        i += 1;
    }
    proof {
        assert(fields@.subrange(0, fields@.len() as int) == fields@);
    }
    crate::text::string_of(&out)
}

} // verus!
