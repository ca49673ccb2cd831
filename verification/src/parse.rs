//! Reading plain values out of text: string comparison, decimal numbers,
//! and splitting on separator characters.

use vstd::prelude::*;

verus! {

/// Whether two strings hold the same characters.
pub fn str_eq(a: &str, b: &str) -> (r: bool)
    ensures
        r == (a@ == b@),
{
    let n = a.unicode_len();
    if n != b.unicode_len() {
        proof {
            assert(a@ != b@);
        }
        return false;
    }
    let mut i: usize = 0;
    while i < n
        invariant
            n == a@.len(),
            n == b@.len(),
            i <= n,
            forall|j: int| 0 <= j < i ==> a@[j] == b@[j],
        decreases n - i,
    {
        if a.get_char(i) != b.get_char(i) {
            proof {
                assert(a@[i as int] != b@[i as int]);
            }
            return false;
        }
        i = i + 1;
    }
    proof {
        assert(a@ =~= b@);
    }
    true
}

/// Whether `c` is a decimal digit.
pub open spec fn is_digit(c: char) -> bool {
    48 <= c as u32 <= 57
}

/// The value of a decimal digit.
pub open spec fn digit_val(c: char) -> nat {
    (c as u32 - 48) as nat
}

/// Whether every character of `s` is a decimal digit.
pub open spec fn all_digits(s: Seq<char>) -> bool {
    forall|j: int| 0 <= j < s.len() ==> is_digit(#[trigger] s[j])
}

/// The number a sequence of decimal digits denotes.
pub open spec fn dec_val(s: Seq<char>) -> nat
    decreases s.len(),
{
    if s.len() == 0 {
        0
    } else {
        dec_val(s.drop_last()) * 10 + digit_val(s.last())
    }
}

/// A digit string denotes at least what any of its prefixes denotes.
proof fn lemma_dec_val_prefix(s: Seq<char>, i: int)
    requires
        0 <= i <= s.len(),
    ensures
        dec_val(s) >= dec_val(s.take(i)),
    decreases s.len() - i,
{
    if i == s.len() {
        assert(s.take(i) =~= s);
    } else {
        lemma_dec_val_prefix(s, i + 1);
        assert(s.take(i + 1).drop_last() =~= s.take(i));
        assert(dec_val(s.take(i + 1)) == dec_val(s.take(i)) * 10 + digit_val(s.take(i + 1).last()));
    }
}

/// Whether `s` is a plain decimal numeral denoting a value within `bound`.
pub open spec fn is_dec_u64(s: Seq<char>) -> bool {
    s.len() > 0 && all_digits(s) && dec_val(s) <= u64::MAX
}

/// Reads a plain decimal numeral: no sign, no blanks, every character a
/// digit, and the value representable.
pub fn parse_u64(s: &str) -> (r: Option<u64>)
    ensures
        r is Some <==> is_dec_u64(s@),
        r is Some ==> r.unwrap() == dec_val(s@),
{
    let n = s.unicode_len();
    if n == 0 {
        return None;
    }
    let mut v: u64 = 0;
    let mut i: usize = 0;
    while i < n
        invariant
            n == s@.len(),
            i <= n,
            all_digits(s@.take(i as int)),
            v == dec_val(s@.take(i as int)),
        decreases n - i,
    {
        let c = s.get_char(i);
        let cv = c as u32;
        if cv < 48 || cv > 57 {
            proof {
                assert(!is_digit(s@[i as int]));
            }
            return None;
        }
        let d = (cv - 48) as u64;
        proof {
            assert(s@.take(i + 1 as int).drop_last() =~= s@.take(i as int));
            assert(s@.take(i + 1 as int).last() == s@[i as int]);
        }
        if v > (u64::MAX - d) / 10 {
            proof {
                assert(dec_val(s@.take(i + 1 as int)) == v * 10 + d);
                assert(v * 10 + d > u64::MAX);
                lemma_dec_val_prefix(s@, i + 1);
            }
            return None;
        }
        v = v * 10 + d;
        i = i + 1;
    }
    proof {
        assert(s@.take(n as int) =~= s@);
    }
    Some(v)
}

/// Whether `s` is a plain decimal numeral denoting a value a `u32` can
/// hold.
pub open spec fn is_dec_u32(s: Seq<char>) -> bool {
    s.len() > 0 && all_digits(s) && dec_val(s) <= u32::MAX
}

/// Reads a plain decimal numeral into a `u32`.
pub fn parse_u32(s: &str) -> (r: Option<u32>)
    ensures
        r is Some <==> is_dec_u32(s@),
        r is Some ==> r.unwrap() == dec_val(s@),
{
    match parse_u64(s) {
        Some(v) => if v <= u32::MAX as u64 {
            Some(v as u32)
        } else {
            proof {
                assert(!is_dec_u32(s@));
            }
            None
        },
        None => None,
    }
}

/// Whether `c` separates tokens: a space or a tab.
pub open spec fn is_sep(c: char) -> bool {
    c == ' ' || c == '\t'
}

/// The tokens of `s`, split at every separator character.  Splitting keeps
/// empty tokens: two adjacent separators enclose one, and the empty string
/// has exactly one empty token.
pub open spec fn split_seps(s: Seq<char>) -> Seq<Seq<char>>
    decreases s.len(),
{
    if s.len() == 0 {
        seq![Seq::<char>::empty()]
    } else if is_sep(s.last()) {
        split_seps(s.drop_last()).push(Seq::empty())
    } else {
        let t = split_seps(s.drop_last());
        t.update(t.len() - 1, t.last().push(s.last()))
    }
}

/// Splitting never yields an empty token list.
proof fn lemma_split_seps_len(s: Seq<char>)
    ensures
        split_seps(s).len() >= 1,
    decreases s.len(),
{
    if s.len() > 0 {
        lemma_split_seps_len(s.drop_last());
    }
}

/// The views of a sequence of owned strings.
pub open spec fn strings_view(v: Seq<String>) -> Seq<Seq<char>> {
    v.map_values(|t: String| t@)
}

/// Splits `s` at every space or tab, keeping empty tokens, as
/// [`split_seps`] describes.
pub fn split_tokens(s: &str) -> (r: Vec<String>)
    ensures
        strings_view(r@) == split_seps(s@),
{
    let n = s.unicode_len();
    let mut done: Vec<String> = Vec::new();
    let mut cur = String::new();
    let mut i: usize = 0;
    while i < n
        invariant
            n == s@.len(),
            i <= n,
            strings_view(done@).push(cur@) =~~= split_seps(s@.take(i as int)),
        decreases n - i,
    {
        let ghost prefix = s@.take(i as int);
        let c = s.get_char(i);
        proof {
            assert(s@.take(i + 1 as int).drop_last() =~= prefix);
            assert(s@.take(i + 1 as int).last() == s@[i as int]);
            lemma_split_seps_len(prefix);
        }
        if c == ' ' || c == '\t' {
            done.push(cur);
            cur = String::new();
            proof {
                assert(strings_view(done@).push(cur@) =~~= split_seps(s@.take(i + 1 as int)));
            }
        } else {
            let piece = s.substring_char(i, i + 1);
            cur.append(piece);
            proof {
                assert(piece@ =~= seq![s@[i as int]]);
                let t = split_seps(prefix);
                assert(t.update(t.len() - 1, t.last().push(s@[i as int])) =~~= split_seps(
                    s@.take(i + 1 as int),
                ));
                assert(strings_view(done@).push(cur@) =~~= split_seps(s@.take(i + 1 as int)));
            }
        }
        i = i + 1;
    }
    done.push(cur);
    proof {
        assert(s@.take(n as int) =~= s@);
        assert(strings_view(done@) =~~= split_seps(s@));
    }
    done
}

} // verus!
