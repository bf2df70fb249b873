//! JSON text construction for the wire format: string escaping and the
//! `,"key":value` field fragments that the block and header serializers are
//! built from. The escaping scheme is the usual JSON one: quote and backslash
//! get a backslash, the control characters with short escape forms use them,
//! and the remaining control characters are written as `\u00XX`.

use vstd::prelude::*;

use crate::text::{dec_digit_char, digit_char, hex_char, hex_digit_char, push_dec_u64, spec_dec};

verus! {

/// The escape of one character inside a JSON string literal.
pub open spec fn esc_char(c: char) -> Seq<char> {
    if c == '"' {
        seq!['\\', '"']
    } else if c == '\\' {
        seq!['\\', '\\']
    } else if c == '\u{8}' {
        seq!['\\', 'b']
    } else if c == '\u{c}' {
        seq!['\\', 'f']
    } else if c == '\n' {
        seq!['\\', 'n']
    } else if c == '\r' {
        seq!['\\', 'r']
    } else if c == '\t' {
        seq!['\\', 't']
    } else if (c as int) < 32 {
        seq!['\\', 'u', '0', '0', hex_digit_char(c as int / 16), hex_digit_char(c as int % 16)]
    } else {
        seq![c]
    }
}

/// The body of a JSON string literal for `s`: every character escaped.
pub open spec fn json_escape(s: Seq<char>) -> Seq<char>
    decreases s.len(),
{
    if s.len() == 0 {
        Seq::empty()
    } else {
        esc_char(s[0]) + json_escape(s.drop_first())
    }
}

/// A whole JSON string literal for `s`, quotes included.
pub open spec fn json_string(s: Seq<char>) -> Seq<char> {
    seq!['"'] + json_escape(s) + seq!['"']
}

pub proof fn lemma_json_escape_snoc(s: Seq<char>, c: char)
    ensures
        json_escape(s.push(c)) == json_escape(s) + esc_char(c),
    decreases s.len(),
{
    if s.len() == 0 {
        assert(s.push(c)[0] == c);
        let rest = s.push(c).drop_first();
        assert(rest =~= Seq::<char>::empty());
        assert(json_escape(s.push(c)) == esc_char(c) + json_escape(rest));
        assert(json_escape(rest) == Seq::<char>::empty());
        assert(json_escape(s) == Seq::<char>::empty());
        assert(json_escape(s.push(c)) =~= json_escape(s) + esc_char(c));
    } else {
        assert(s.push(c).drop_first() =~= s.drop_first().push(c));
        lemma_json_escape_snoc(s.drop_first(), c);
        assert(json_escape(s.push(c)) =~= json_escape(s) + esc_char(c));
    }
}

/// Appends the escape of the single character `c`.
fn push_esc_char(out: &mut Vec<char>, c: char)
    ensures
        final(out)@ == old(out)@ + esc_char(c),
{
    if c == '"' {
        out.push('\\');
        out.push('"');
    } else if c == '\\' {
        out.push('\\');
        out.push('\\');
    } else if c == '\u{8}' {
        out.push('\\');
        out.push('b');
    } else if c == '\u{c}' {
        out.push('\\');
        out.push('f');
    } else if c == '\n' {
        out.push('\\');
        out.push('n');
    } else if c == '\r' {
        out.push('\\');
        out.push('r');
    } else if c == '\t' {
        out.push('\\');
        out.push('t');
    } else {
        let v = c as u32;
        if v < 32 {
            out.push('\\');
            out.push('u');
            out.push('0');
            out.push('0');
            out.push(hex_char((v / 16) as u8));
            out.push(hex_char((v % 16) as u8));
        } else {
            out.push(c);
        }
    }
    proof {
        assert(out@ =~= old(out)@ + esc_char(c));
    }
}

/// Appends the JSON string literal for `s`, quotes included.
pub fn push_json_string(out: &mut Vec<char>, s: &str)
    ensures
        final(out)@ == old(out)@ + json_string(s@),
{
    out.push('"');
    let n = s.unicode_len();
    let mut i: usize = 0;
    while i < n
        invariant
            i <= n,
            n == s@.len(),
            out@ == old(out)@ + seq!['"'] + json_escape(s@.take(i as int)),
        decreases n - i,
    {
        let c = s.get_char(i);
        push_esc_char(out, c);
        proof {
            assert(s@.take(i + 1 as int) =~= s@.take(i as int).push(s@[i as int]));
            lemma_json_escape_snoc(s@.take(i as int), s@[i as int]);
            assert(out@ =~= old(out)@ + seq!['"'] + json_escape(s@.take(i + 1 as int)));
        }
        i += 1;
    }
    out.push('"');
    proof {
        assert(s@.take(n as int) =~= s@);
        assert(out@ =~= old(out)@ + json_string(s@));
    }
}

/// The fragment `,"key":"value"` for a present optional string field, empty
/// for an absent one.
pub open spec fn field_sep_str(key: Seq<char>, v: Option<String>) -> Seq<char> {
    match v {
        Some(s) => seq![','] + json_string(key) + seq![':'] + json_string(s@),
        None => Seq::empty(),
    }
}

/// The fragment `,"key":N` for a present optional integer field.
pub open spec fn field_sep_u16(key: Seq<char>, v: Option<u16>) -> Seq<char> {
    match v {
        Some(n) => seq![','] + json_string(key) + seq![':'] + spec_dec(n as nat),
        None => Seq::empty(),
    }
}

/// The fragment `,"key":true` or `,"key":false` for a present optional
/// boolean field.
pub open spec fn field_sep_bool(key: Seq<char>, v: Option<bool>) -> Seq<char> {
    match v {
        Some(b) => seq![','] + json_string(key) + seq![':'] + (if b {
            "true"@
        } else {
            "false"@
        }),
        None => Seq::empty(),
    }
}

/// `s` stays on one line of the stream: it holds no newline character.
pub open spec fn line_safe(s: Seq<char>) -> bool {
    forall|i: int| 0 <= i < s.len() ==> s[i] != '\n'
}

pub proof fn lemma_line_safe_concat(a: Seq<char>, b: Seq<char>)
    requires
        line_safe(a),
        line_safe(b),
    ensures
        line_safe(a + b),
{
    assert forall|i: int| 0 <= i < (a + b).len() implies (a + b)[i] != '\n' by {
        if i < a.len() {
            assert((a + b)[i] == a[i]);
        } else {
            assert((a + b)[i] == b[i - a.len()]);
        }
    }
}

proof fn lemma_esc_char_line_safe(c: char)
    ensures
        line_safe(esc_char(c)),
{
    assert forall|i: int| 0 <= i < esc_char(c).len() implies esc_char(c)[i] != '\n' by {
        if !(c == '"' || c == '\\' || c == '\u{8}' || c == '\u{c}' || c == '\n' || c == '\r'
            || c == '\t') && (c as int) < 32 {
            assert(hex_digit_char(c as int / 16) != '\n');
            assert(hex_digit_char(c as int % 16) != '\n');
        }
    }
}

pub proof fn lemma_json_escape_line_safe(s: Seq<char>)
    ensures
        line_safe(json_escape(s)),
    decreases s.len(),
{
    if s.len() == 0 {
    } else {
        lemma_esc_char_line_safe(s[0]);
        lemma_json_escape_line_safe(s.drop_first());
        lemma_line_safe_concat(esc_char(s[0]), json_escape(s.drop_first()));
    }
}

/// The escaping law behind the line protocol: a JSON string literal built by
/// `json_string` never holds a raw newline, whatever text goes in.
pub proof fn lemma_json_string_line_safe(s: Seq<char>)
    ensures
        line_safe(json_string(s)),
{
    lemma_json_escape_line_safe(s);
    lemma_line_safe_concat(seq!['"'], json_escape(s));
    lemma_line_safe_concat(seq!['"'] + json_escape(s), seq!['"']);
    assert(json_string(s) =~= (seq!['"'] + json_escape(s)) + seq!['"']);
}

proof fn lemma_spec_dec_line_safe(n: nat)
    ensures
        line_safe(spec_dec(n)),
    decreases n,
{
    if n < 10 {
        assert(dec_digit_char(n as int) != '\n');
    } else {
        lemma_spec_dec_line_safe(n / 10);
        assert(dec_digit_char((n % 10) as int) != '\n');
        assert(spec_dec(n) == spec_dec(n / 10).push(dec_digit_char((n % 10) as int)));
        assert forall|i: int| 0 <= i < spec_dec(n).len() implies spec_dec(n)[i] != '\n' by {
            if i < spec_dec(n / 10).len() {
                assert(spec_dec(n)[i] == spec_dec(n / 10)[i]);
            }
        }
    }
}

pub proof fn lemma_field_sep_str_line_safe(key: Seq<char>, v: Option<String>)
    ensures
        line_safe(field_sep_str(key, v)),
{
    match v {
        Some(s) => {
            lemma_json_string_line_safe(key);
            lemma_json_string_line_safe(s@);
            lemma_line_safe_concat(seq![','], json_string(key));
            lemma_line_safe_concat(seq![','] + json_string(key), seq![':']);
            lemma_line_safe_concat((seq![','] + json_string(key)) + seq![':'], json_string(s@));
            assert(field_sep_str(key, v) =~= ((seq![','] + json_string(key)) + seq![':'])
                + json_string(s@));
        },
        None => {},
    }
}

pub proof fn lemma_field_sep_u16_line_safe(key: Seq<char>, v: Option<u16>)
    ensures
        line_safe(field_sep_u16(key, v)),
{
    match v {
        Some(n) => {
            lemma_json_string_line_safe(key);
            lemma_spec_dec_line_safe(n as nat);
            lemma_line_safe_concat(seq![','], json_string(key));
            lemma_line_safe_concat(seq![','] + json_string(key), seq![':']);
            lemma_line_safe_concat((seq![','] + json_string(key)) + seq![':'], spec_dec(n as nat));
            assert(field_sep_u16(key, v) =~= ((seq![','] + json_string(key)) + seq![':'])
                + spec_dec(n as nat));
        },
        None => {},
    }
}

pub proof fn lemma_field_sep_bool_line_safe(key: Seq<char>, v: Option<bool>)
    ensures
        line_safe(field_sep_bool(key, v)),
{
    match v {
        Some(b) => {
            reveal_strlit("true");
            reveal_strlit("false");
            let word = if b {
                "true"@
            } else {
                "false"@
            };
            assert(line_safe(word));
            lemma_json_string_line_safe(key);
            lemma_line_safe_concat(seq![','], json_string(key));
            lemma_line_safe_concat(seq![','] + json_string(key), seq![':']);
            lemma_line_safe_concat((seq![','] + json_string(key)) + seq![':'], word);
            assert(field_sep_bool(key, v) =~= ((seq![','] + json_string(key)) + seq![':']) + word);
        },
        None => {},
    }
}

pub fn push_field_sep_str(out: &mut Vec<char>, key: &str, v: &Option<String>)
    ensures
        final(out)@ == old(out)@ + field_sep_str(key@, *v),
{
    match v {
        Some(s) => {
            out.push(',');
            push_json_string(out, key);
            out.push(':');
            push_json_string(out, s.as_str());
            proof {
                assert(out@ =~= old(out)@ + field_sep_str(key@, *v));
            }
        },
        None => {
            proof {
                assert(out@ =~= old(out)@ + field_sep_str(key@, *v));
            }
        },
    }
}

pub fn push_field_sep_u16(out: &mut Vec<char>, key: &str, v: &Option<u16>)
    ensures
        final(out)@ == old(out)@ + field_sep_u16(key@, *v),
{
    match v {
        Some(n) => {
            out.push(',');
            push_json_string(out, key);
            out.push(':');
            push_dec_u64(out, *n as u64);
            proof {
                assert(out@ =~= old(out)@ + field_sep_u16(key@, *v));
            }
        },
        None => {
            proof {
                assert(out@ =~= old(out)@ + field_sep_u16(key@, *v));
            }
        },
    }
}

pub fn push_field_sep_bool(out: &mut Vec<char>, key: &str, v: &Option<bool>)
    ensures
        final(out)@ == old(out)@ + field_sep_bool(key@, *v),
{
    match v {
        Some(b) => {
            out.push(',');
            push_json_string(out, key);
            out.push(':');
            if *b {
                crate::text::push_str_chars(out, "true");
            } else {
                crate::text::push_str_chars(out, "false");
            }
            proof {
                assert(out@ =~= old(out)@ + field_sep_bool(key@, *v));
            }
        },
        None => {
            proof {
                assert(out@ =~= old(out)@ + field_sep_bool(key@, *v));
            }
        },
    }
}

} // verus!
