//! Rendering of numbers and JSON string escaping, the building blocks of the
//! wire records the bar emits.

use vstd::prelude::*;

verus! {

/// The character for one decimal digit value.
pub open spec fn dec_digit(n: nat) -> char {
    if n == 0 {
        '0'
    } else if n == 1 {
        '1'
    } else if n == 2 {
        '2'
    } else if n == 3 {
        '3'
    } else if n == 4 {
        '4'
    } else if n == 5 {
        '5'
    } else if n == 6 {
        '6'
    } else if n == 7 {
        '7'
    } else if n == 8 {
        '8'
    } else {
        '9'
    }
}

/// The usual decimal rendering of a natural number, without leading zeros
/// (except for the number zero itself).
pub open spec fn dec_rep(n: nat) -> Seq<char>
    decreases n,
{
    if n < 10 {
        seq![dec_digit(n)]
    } else {
        dec_rep(n / 10) + seq![dec_digit(n % 10)]
    }
}

/// The character for one hexadecimal digit value, lower case.
pub open spec fn hex_digit(n: nat) -> char {
    if n < 10 {
        dec_digit(n)
    } else if n == 10 {
        'a'
    } else if n == 11 {
        'b'
    } else if n == 12 {
        'c'
    } else if n == 13 {
        'd'
    } else if n == 14 {
        'e'
    } else {
        'f'
    }
}

/// A byte as exactly two lower-case hexadecimal digits.
pub open spec fn hex_byte(n: nat) -> Seq<char> {
    seq![hex_digit(n / 16), hex_digit(n % 16)]
}

/// A one-character string for a decimal digit value.
fn digit_str(d: u8) -> (r: &'static str)
    requires
        d < 10,
    ensures
        r@ == seq![dec_digit(d as nat)],
{
    proof {
        reveal_strlit("0");
        reveal_strlit("1");
        reveal_strlit("2");
        reveal_strlit("3");
        reveal_strlit("4");
        reveal_strlit("5");
        reveal_strlit("6");
        reveal_strlit("7");
        reveal_strlit("8");
        reveal_strlit("9");
    }
    let r = match d {
        0 => "0",
        1 => "1",
        2 => "2",
        3 => "3",
        4 => "4",
        5 => "5",
        6 => "6",
        7 => "7",
        8 => "8",
        _ => "9",
    };
    proof {
        assert(r@ =~= seq![dec_digit(d as nat)]);
    }
    r
}

/// A one-character string for a hexadecimal digit value, lower case.
fn hex_digit_str(d: u8) -> (r: &'static str)
    requires
        d < 16,
    ensures
        r@ == seq![hex_digit(d as nat)],
{
    if d < 10 {
        digit_str(d)
    } else {
        proof {
            reveal_strlit("a");
            reveal_strlit("b");
            reveal_strlit("c");
            reveal_strlit("d");
            reveal_strlit("e");
            reveal_strlit("f");
        }
        let r = match d {
            10 => "a",
            11 => "b",
            12 => "c",
            13 => "d",
            14 => "e",
            _ => "f",
        };
        proof {
            assert(r@ =~= seq![hex_digit(d as nat)]);
        }
        r
    }
}

/// Renders a number in decimal.
pub fn u64_string(n: u64) -> (r: String)
    ensures
        r@ == dec_rep(n as nat),
    decreases n,
{
    let d = digit_str((n % 10) as u8);
    if n < 10 {
        d.to_owned()
    } else {
        let mut r = u64_string(n / 10);
        r.append(d);
        r
    }
}

/// Renders a number in decimal.
pub fn u32_string(n: u32) -> (r: String)
    ensures
        r@ == dec_rep(n as nat),
{
    u64_string(n as u64)
}

/// Appends a byte as two lower-case hexadecimal digits.
pub fn append_hex_byte(out: &mut String, b: u8)
    ensures
        final(out)@ == old(out)@ + hex_byte(b as nat),
{
    out.append(hex_digit_str(b / 16));
    out.append(hex_digit_str(b % 16));
}

/// A number in decimal, padded with one leading zero to at least two
/// digits.
pub open spec fn pad2(n: nat) -> Seq<char> {
    if n < 10 {
        seq!['0', dec_digit(n)]
    } else {
        dec_rep(n)
    }
}

/// Appends a number in decimal, zero-padded to at least two digits.
pub fn append_pad2(out: &mut String, n: u64)
    ensures
        final(out)@ == old(out)@ + pad2(n as nat),
{
    if n < 10 {
        out.append("0");
        proof {
            reveal_strlit("0");
            assert(("0")@ =~= seq!['0']);
        }
    }
    let s = u64_string(n);
    out.append(s.as_str());
    proof {
        assert(out@ =~= old(out)@ + pad2(n as nat));
    }
}

/// The escaped form of one character inside a JSON string literal: the two
/// quote and escape characters and the control characters are escaped, every
/// other character stands for itself.
pub open spec fn esc_char(c: char) -> Seq<char> {
    if c == '"' {
        seq!['\\', '"']
    } else if c == '\\' {
        seq!['\\', '\\']
    } else if c == '\u{8}' {
        seq!['\\', 'b']
    } else if c == '\t' {
        seq!['\\', 't']
    } else if c == '\n' {
        seq!['\\', 'n']
    } else if c == '\u{c}' {
        seq!['\\', 'f']
    } else if c == '\r' {
        seq!['\\', 'r']
    } else if (c as u32) < 32 {
        seq!['\\', 'u', '0', '0'] + hex_byte((c as u32) as nat)
    } else {
        seq![c]
    }
}

/// The body of a JSON string literal holding the characters of `s`.
pub open spec fn esc_str(s: Seq<char>) -> Seq<char>
    decreases s.len(),
{
    if s.len() == 0 {
        Seq::empty()
    } else {
        esc_char(s[0]) + esc_str(s.drop_first())
    }
}

/// Escaping a string one character longer escapes the prefix and then the
/// last character.
proof fn lemma_esc_str_push(s: Seq<char>, c: char)
    ensures
        esc_str(s.push(c)) == esc_str(s) + esc_char(c),
    decreases s.len(),
{
    assert(s.push(c)[0] == if s.len() == 0 { c } else { s[0] });
    if s.len() == 0 {
        assert(s.push(c).drop_first() =~= Seq::<char>::empty());
        assert(esc_str(s.push(c)) == esc_char(c) + esc_str(Seq::<char>::empty()));
        assert(esc_str(s.push(c)) =~= esc_str(s) + esc_char(c));
    } else {
        lemma_esc_str_push(s.drop_first(), c);
        assert(s.push(c).drop_first() =~= s.drop_first().push(c));
        assert(esc_str(s.push(c)) =~= esc_str(s) + esc_char(c));
    }
}

/// Appends the characters of `s`, escaped as the body of a JSON string
/// literal.
pub fn append_json_escaped(out: &mut String, s: &str)
    ensures
        final(out)@ == old(out)@ + esc_str(s@),
{
    let len = s.unicode_len();
    let mut i: usize = 0;
    while i < len
        invariant
            len == s@.len(),
            i <= len,
            out@ == old(out)@ + esc_str(s@.take(i as int)),
        decreases len - i,
    {
        let c = s.get_char(i);
        if c == '"' {
            out.append("\\\"");
            proof {
                reveal_strlit("\\\"");
                assert(("\\\"")@ =~= esc_char(c));
            }
        } else if c == '\\' {
            out.append("\\\\");
            proof {
                reveal_strlit("\\\\");
                assert(("\\\\")@ =~= esc_char(c));
            }
        } else if c == '\u{8}' {
            out.append("\\b");
            proof {
                reveal_strlit("\\b");
                assert(("\\b")@ =~= esc_char(c));
            }
        } else if c == '\t' {
            out.append("\\t");
            proof {
                reveal_strlit("\\t");
                assert(("\\t")@ =~= esc_char(c));
            }
        } else if c == '\n' {
            out.append("\\n");
            proof {
                reveal_strlit("\\n");
                assert(("\\n")@ =~= esc_char(c));
            }
        } else if c == '\u{c}' {
            out.append("\\f");
            proof {
                reveal_strlit("\\f");
                assert(("\\f")@ =~= esc_char(c));
            }
        } else if c == '\r' {
            out.append("\\r");
            proof {
                reveal_strlit("\\r");
                assert(("\\r")@ =~= esc_char(c));
            }
        } else if (c as u32) < 32 {
            let ghost before = out@;
            out.append("\\u00");
            append_hex_byte(out, (c as u32) as u8);
            proof {
                reveal_strlit("\\u00");
                assert(("\\u00")@ =~= seq!['\\', 'u', '0', '0']);
                assert(out@ =~= before + esc_char(c));
            }
        } else {
            let piece = s.substring_char(i, i + 1);
            out.append(piece);
            proof {
                assert(piece@ =~= seq![s@[i as int]]);
                assert(piece@ =~= esc_char(c));
            }
        }
        proof {
            lemma_esc_str_push(s@.take(i as int), c);
            assert(s@.take(i as int).push(c) =~= s@.take(i + 1 as int));
            assert(out@ =~= old(out)@ + esc_str(s@.take(i + 1 as int)));
        }
        i = i + 1;
    }
    proof {
        assert(s@.take(len as int) =~= s@);
    }
}

/// A complete JSON string literal holding the characters of `s`.
pub open spec fn json_str(s: Seq<char>) -> Seq<char> {
    seq!['"'] + esc_str(s) + seq!['"']
}

/// Equal sequences with an equal prefix have equal tails.
proof fn lemma_concat_cancel(a: Seq<char>, s: Seq<char>, t: Seq<char>)
    requires
        a + s == a + t,
    ensures
        s == t,
{
    assert((a + s).len() == a.len() + s.len());
    assert((a + t).len() == a.len() + t.len());
    assert(s.len() == t.len());
    assert forall|i: int| 0 <= i < s.len() implies s[i] == t[i] by {
        assert((a + s)[a.len() + i] == s[i]);
        assert((a + t)[a.len() + i] == t[i]);
    }
    assert(s =~= t);
}

/// Hexadecimal digits render distinct values distinctly.
proof fn lemma_hex_digit_injective(u: nat, v: nat)
    requires
        u < 16,
        v < 16,
        hex_digit(u) == hex_digit(v),
    ensures
        u == v,
{
}

/// Whether `c` is written escaped inside a JSON string literal.
spec fn needs_escape(c: char) -> bool {
    c == '"' || c == '\\' || c == '\u{8}' || c == '\t' || c == '\n' || c == '\u{c}' || c == '\r'
        || (c as u32) < 32
}

/// An escaped string body starting with one character's escape determines
/// that character and the rest: the escape forms make a prefix code.
proof fn lemma_esc_char_prefix(x: char, y: char, s: Seq<char>, t: Seq<char>)
    requires
        esc_char(x) + s == esc_char(y) + t,
    ensures
        x == y,
        s == t,
{
    let ex = esc_char(x);
    let ey = esc_char(y);
    assert((ex + s)[0] == (ey + t)[0]);
    if !needs_escape(x) && !needs_escape(y) {
        assert(ex[0] == x && ey[0] == y);
    } else if needs_escape(x) && needs_escape(y) {
        assert(ex[0] == '\\' && ey[0] == '\\');
        assert((ex + s)[1] == (ey + t)[1]);
        if ex.len() == 6 && ey.len() == 6 {
            assert((ex + s)[4] == (ey + t)[4]);
            assert((ex + s)[5] == (ey + t)[5]);
            assert(hex_digit(((x as u32) as nat) / 16) == hex_digit(((y as u32) as nat) / 16));
            assert(hex_digit(((x as u32) as nat) % 16) == hex_digit(((y as u32) as nat) % 16));
            lemma_hex_digit_injective(((x as u32) as nat) / 16, ((y as u32) as nat) / 16);
            lemma_hex_digit_injective(((x as u32) as nat) % 16, ((y as u32) as nat) % 16);
            assert((x as u32) == (y as u32));
            assert(x == y);
        } else {
            assert(ex[1] == ey[1]);
            assert(x == y);
        }
    } else {
        // one escaped, one bare: a bare character is never a backslash
        assert(false);
    }
    assert(ex == ey);
    lemma_concat_cancel(ex, s, t);
}

/// Escaping loses nothing: two strings with the same escaped body are the
/// same string, so the written text decodes to exactly one value.
pub proof fn lemma_esc_str_injective(a: Seq<char>, b: Seq<char>)
    requires
        esc_str(a) == esc_str(b),
    ensures
        a == b,
    decreases a.len(),
{
    if a.len() == 0 && b.len() == 0 {
        assert(a =~= b);
    } else if a.len() == 0 {
        assert(esc_str(a).len() == 0);
        assert(esc_str(b) == esc_char(b[0]) + esc_str(b.drop_first()));
        assert(esc_char(b[0]).len() >= 1);
        assert(esc_str(b).len() >= 1);
        assert(false);
    } else if b.len() == 0 {
        assert(esc_str(b).len() == 0);
        assert(esc_str(a) == esc_char(a[0]) + esc_str(a.drop_first()));
        assert(esc_char(a[0]).len() >= 1);
        assert(esc_str(a).len() >= 1);
        assert(false);
    } else {
        lemma_esc_char_prefix(a[0], b[0], esc_str(a.drop_first()), esc_str(b.drop_first()));
        lemma_esc_str_injective(a.drop_first(), b.drop_first());
        assert(a.len() == b.len());
        assert forall|i: int| 0 <= i < a.len() implies a[i] == b[i] by {
            if i > 0 {
                assert(a[i] == a.drop_first()[i - 1]);
                assert(b[i] == b.drop_first()[i - 1]);
            }
        }
        assert(a =~= b);
    }
}

/// A JSON string literal determines its contents: the quotes strip off and
/// the body decodes to exactly one value.
pub proof fn lemma_json_str_injective(a: Seq<char>, b: Seq<char>)
    requires
        json_str(a) == json_str(b),
    ensures
        a == b,
{
    assert(seq!['"'] + (esc_str(a) + seq!['"']) =~= json_str(a));
    assert(seq!['"'] + (esc_str(b) + seq!['"']) =~= json_str(b));
    lemma_concat_cancel(seq!['"'], esc_str(a) + seq!['"'], esc_str(b) + seq!['"']);
    let ea = esc_str(a);
    let eb = esc_str(b);
    assert((ea + seq!['"']).len() == (eb + seq!['"']).len());
    assert(ea.len() == eb.len());
    assert forall|i: int| 0 <= i < ea.len() implies ea[i] == eb[i] by {
        assert((ea + seq!['"'])[i] == ea[i]);
        assert((eb + seq!['"'])[i] == eb[i]);
    }
    assert(ea =~= eb);
    lemma_esc_str_injective(a, b);
}

/// Whether no character of `s` is a newline, so that `s` fits in one
/// line-oriented record.
pub open spec fn newline_free(s: Seq<char>) -> bool {
    forall|i: int| 0 <= i < s.len() ==> (#[trigger] s[i]) != '\n'
}

/// Decimal renderings hold digits only.
pub proof fn lemma_dec_rep_newline_free(n: nat)
    ensures
        newline_free(dec_rep(n)),
    decreases n,
{
    if n >= 10 {
        lemma_dec_rep_newline_free(n / 10);
    }
}

/// Hexadecimal renderings hold digits and letters only.
pub proof fn lemma_hex_byte_newline_free(n: nat)
    ensures
        newline_free(hex_byte(n)),
{
}

/// Escaping one character never yields a newline: the newline itself
/// escapes to a backslash and a letter.
proof fn lemma_esc_char_newline_free(c: char)
    ensures
        newline_free(esc_char(c)),
{
    if !(c == '"' || c == '\\' || c == '\u{8}' || c == '\t' || c == '\n' || c == '\u{c}' || c
        == '\r') && (c as u32) < 32 {
        lemma_hex_byte_newline_free((c as u32) as nat)
    }
}

/// An escaped string body never holds a newline.
pub proof fn lemma_esc_str_newline_free(s: Seq<char>)
    ensures
        newline_free(esc_str(s)),
    decreases s.len(),
{
    if s.len() > 0 {
        lemma_esc_char_newline_free(s[0]);
        lemma_esc_str_newline_free(s.drop_first());
    }
}

/// A JSON string literal never holds a newline.
pub proof fn lemma_json_str_newline_free(s: Seq<char>)
    ensures
        newline_free(json_str(s)),
{
    lemma_esc_str_newline_free(s);
}

/// Appends a complete JSON string literal holding the characters of `s`.
pub fn append_json_string(out: &mut String, s: &str)
    ensures
        final(out)@ == old(out)@ + json_str(s@),
{
    let ghost before = out@;
    out.append("\"");
    append_json_escaped(out, s);
    out.append("\"");
    proof {
        reveal_strlit("\"");
        assert(("\"")@ =~= seq!['"']);
        assert(out@ =~= before + json_str(s@));
    }
}

} // verus!
