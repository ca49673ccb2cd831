//! The stock price widget: picking the latest and the previous trading
//! day out of a daily series, reading decimal prices into cents, and
//! rendering the closing price with its move against the previous close.
//! Fetching and decoding the quote service's response is the caller's;
//! everything decided from the entries is here.

use vstd::prelude::*;

use crate::encode::{append_pad2, dec_digit, dec_rep, pad2, u64_string};
use crate::parse::{all_digits, dec_val, digit_val, is_digit, parse_u64, str_eq};
use crate::protocol::{Block, MarkupLang};
use crate::widget::WidgetUpdate;

verus! {

/// One trading day as the quote service reports it: the date key and the
/// five decimal figures, all as text.
pub struct DailyEntry {
    pub date: String,
    pub open: String,
    pub high: String,
    pub low: String,
    pub close: String,
    pub volume: String,
}

/// One trading day's figures in hundredths.
#[derive(Debug, Clone, Copy, PartialEq, Eq, Structural)]
pub struct StockPrice {
    pub previous_close: i64,
    pub open: i64,
    pub high: i64,
    pub low: i64,
    pub close: i64,
    pub volume: i64,
}

/// Strict lexicographic order on character sequences, by code point; on
/// the service's `YYYY-MM-DD` keys this is date order.
pub open spec fn lex_lt(a: Seq<char>, b: Seq<char>) -> bool
    decreases a.len(),
{
    if a.len() == 0 {
        b.len() > 0
    } else if b.len() == 0 {
        false
    } else if (a[0] as u32) < (b[0] as u32) {
        true
    } else if a[0] == b[0] {
        lex_lt(a.drop_first(), b.drop_first())
    } else {
        false
    }
}

/// Dropping an equal prefix does not change the order.
proof fn lemma_lex_skip(a: Seq<char>, b: Seq<char>, i: int)
    requires
        0 <= i <= a.len(),
        i <= b.len(),
        forall|j: int| 0 <= j < i ==> a[j] == b[j],
    ensures
        lex_lt(a, b) == lex_lt(a.skip(i), b.skip(i)),
    decreases i,
{
    if i > 0 {
        assert(a.len() > 0 && b.len() > 0);
        assert(a[0] == b[0]);
        lemma_lex_skip(a.drop_first(), b.drop_first(), i - 1);
        assert(a.drop_first().skip(i - 1) =~= a.skip(i));
        assert(b.drop_first().skip(i - 1) =~= b.skip(i));
    } else {
        assert(a.skip(0) =~= a);
        assert(b.skip(0) =~= b);
    }
}

/// Whether `a` comes strictly before `b` in [`lex_lt`] order.
pub fn str_lt(a: &str, b: &str) -> (r: bool)
    ensures
        r == lex_lt(a@, b@),
{
    let na = a.unicode_len();
    let nb = b.unicode_len();
    let mut i: usize = 0;
    loop
        invariant
            na == a@.len(),
            nb == b@.len(),
            i <= na,
            i <= nb,
            forall|j: int| 0 <= j < i ==> a@[j] == b@[j],
        decreases na - i,
    {
        proof {
            lemma_lex_skip(a@, b@, i as int);
        }
        if i >= na {
            return i < nb;
        }
        if i >= nb {
            return false;
        }
        let ca = a.get_char(i);
        let cb = b.get_char(i);
        if (ca as u32) < (cb as u32) {
            proof {
                assert(a@.skip(i as int)[0] == ca && b@.skip(i as int)[0] == cb);
            }
            return true;
        }
        if ca != cb {
            proof {
                assert(a@.skip(i as int)[0] == ca && b@.skip(i as int)[0] == cb);
            }
            return false;
        }
        i = i + 1;
    }
}

/// Where the first dot of `s` stands; the length when there is none.
pub open spec fn first_dot(s: Seq<char>) -> int
    decreases s.len(),
{
    if s.len() == 0 {
        0
    } else if s[0] == '.' {
        0
    } else {
        1 + first_dot(s.drop_first())
    }
}

/// The first dot is a dot, and nothing before it is.
proof fn lemma_first_dot(s: Seq<char>)
    ensures
        0 <= first_dot(s) <= s.len(),
        first_dot(s) < s.len() ==> s[first_dot(s)] == '.',
        forall|j: int| 0 <= j < first_dot(s) ==> s[j] != '.',
    decreases s.len(),
{
    if s.len() > 0 && s[0] != '.' {
        lemma_first_dot(s.drop_first());
        assert forall|j: int| 0 <= j < first_dot(s) implies s[j] != '.' by {
            if j > 0 {
                assert(s.drop_first()[j - 1] == s[j]);
            }
        }
    }
}

/// The first two digits after the dot, as hundredths: missing digits read
/// as zero, further digits are cut off.
pub open spec fn frac_cents(f: Seq<char>) -> nat {
    if f.len() == 0 {
        0
    } else if f.len() == 1 {
        digit_val(f[0]) * 10
    } else {
        digit_val(f[0]) * 10 + digit_val(f[1])
    }
}

/// A decimal figure as hundredths: digits, optionally a dot and digits,
/// and the value representable; anything else reads as nothing.
pub open spec fn price_cents(s: Seq<char>) -> Option<int> {
    let k = first_dot(s);
    let whole = s.take(k);
    let frac = if k < s.len() {
        s.skip(k + 1)
    } else {
        Seq::<char>::empty()
    };
    if k == 0 {
        None
    } else if !all_digits(whole) {
        None
    } else if !all_digits(frac) {
        None
    } else if dec_val(whole) * 100 + frac_cents(frac) > i64::MAX {
        None
    } else {
        Some((dec_val(whole) * 100 + frac_cents(frac)) as int)
    }
}

/// A decimal figure as hundredths, with an unreadable figure as zero.
pub open spec fn cents_or_zero(s: Seq<char>) -> int {
    match price_cents(s) {
        Some(v) => v,
        None => 0,
    }
}

/// Reads a decimal figure into hundredths, as [`price_cents`] describes.
pub fn parse_price(s: &str) -> (r: Option<i64>)
    ensures
        r is Some <==> price_cents(s@) is Some,
        (r matches Some(v) ==> v == price_cents(s@).unwrap()),
{
    let n = s.unicode_len();
    let mut k: usize = 0;
    while k < n && s.get_char(k) != '.'
        invariant
            n == s@.len(),
            k <= n,
            forall|j: int| 0 <= j < k ==> s@[j] != '.',
        decreases n - k,
    {
        k = k + 1;
    }
    proof {
        lemma_first_dot(s@);
        if k < n {
            assert(s@[k as int] == '.');
        }
        assert(first_dot(s@) == k);
    }
    if k == 0 {
        return None;
    }
    let whole_str = s.substring_char(0, k);
    proof {
        assert(whole_str@ =~= s@.take(k as int));
    }
    let whole = match parse_u64(whole_str) {
        Some(v) => v,
        None => {
            proof {
                if all_digits(s@.take(k as int)) && dec_val(s@.take(k as int)) > u64::MAX {
                    assert(dec_val(s@.take(k as int)) * 100 >= dec_val(s@.take(k as int)))
                        by (nonlinear_arith)
                        requires
                            dec_val(s@.take(k as int)) >= 0,
                    ;
                }
            }
            return None;
        },
    };
    let mut cents: u64 = 0;
    let ghost frac = if (k as int) < s@.len() {
        s@.skip(k as int + 1)
    } else {
        Seq::<char>::empty()
    };
    if k < n {
        let mut j: usize = k + 1;
        while j < n
            invariant
                n == s@.len(),
                k < n,
                k >= 1,
                first_dot(s@) == k,
                k + 1 <= j <= n,
                frac == s@.skip(k as int + 1),
                forall|t: int| k + 1 <= t < j ==> is_digit(#[trigger] s@[t]),
            decreases n - j,
        {
            let c = s.get_char(j);
            let cv = c as u32;
            if cv < 48 || cv > 57 {
                proof {
                    assert(frac[j - (k + 1) as int] == s@[j as int]);
                    assert(!all_digits(frac));
                    assert(price_cents(s@) is None);
                }
                return None;
            }
            j = j + 1;
        }
        proof {
            assert forall|t: int| 0 <= t < frac.len() implies is_digit(#[trigger] frac[t]) by {
                assert(frac[t] == s@[t + k + 1]);
            }
        }
        if k + 1 < n {
            let d0 = (s.get_char(k + 1) as u32 - 48) as u64;
            cents = d0 * 10;
            if k + 2 < n {
                let d1 = (s.get_char(k + 2) as u32 - 48) as u64;
                cents = cents + d1;
            }
            proof {
                assert(frac[0] == s@[k + 1 as int]);
                if k + 2 < n {
                    assert(frac[1] == s@[k + 2 as int]);
                }
                assert(cents == frac_cents(frac));
            }
        }
    }
    proof {
        assert(cents == frac_cents(frac));
    }
    if whole > ((i64::MAX as u64) - cents) / 100 {
        proof {
            assert((whole as int) * 100 + cents > i64::MAX);
            assert(dec_val(s@.take(k as int)) * 100 + frac_cents(frac) > i64::MAX);
        }
        return None;
    }
    let v: u64 = whole * 100 + cents;
    Some(v as i64)
}

/// Reads a decimal figure into hundredths, with an unreadable figure as
/// zero.
pub fn price_or_zero(s: &str) -> (r: i64)
    ensures
        r == cents_or_zero(s@),
{
    match parse_price(s) {
        Some(v) => v,
        None => 0,
    }
}

/// Whether entry `m` carries the latest date: none is strictly later.
pub open spec fn is_latest(es: Seq<DailyEntry>, m: int) -> bool {
    &&& 0 <= m < es.len()
    &&& forall|j: int| 0 <= j < es.len() ==> !lex_lt(es[m].date@, (#[trigger] es[j]).date@)
}

/// Whether entry `y` carries the latest date apart from entry `m`'s date.
pub open spec fn is_prev(es: Seq<DailyEntry>, m: int, y: int) -> bool {
    &&& 0 <= y < es.len()
    &&& es[y].date@ != es[m].date@
    &&& forall|j: int|
        0 <= j < es.len() ==> (#[trigger] es[j]).date@ == es[m].date@ || !lex_lt(
            es[y].date@,
            es[j].date@,
        )
}

/// Whether any entry has a date other than entry `m`'s.
pub open spec fn has_prev(es: Seq<DailyEntry>, m: int) -> bool {
    exists|j: int| 0 <= j < es.len() && (#[trigger] es[j]).date@ != es[m].date@
}

/// The figures entry `m` and its previous day give, as hundredths: the
/// opening price must read, the others read as zero when unreadable, and
/// with no previous day the previous close is the opening price itself.
pub open spec fn price_of(es: Seq<DailyEntry>, m: int, p: StockPrice) -> bool {
    &&& price_cents(es[m].open@) is Some
    &&& p.open == price_cents(es[m].open@).unwrap()
    &&& p.high == cents_or_zero(es[m].high@)
    &&& p.low == cents_or_zero(es[m].low@)
    &&& p.close == cents_or_zero(es[m].close@)
    &&& p.volume == cents_or_zero(es[m].volume@)
    &&& (has_prev(es, m) ==> exists|y: int|
        #![trigger es[y].close]
        is_prev(es, m, y) && p.previous_close == cents_or_zero(es[y].close@))
    &&& (!has_prev(es, m) ==> p.previous_close == p.open)
}

/// Picks the latest trading day of a series and reads its figures;
/// nothing when the series is empty or the latest day's opening price is
/// unreadable.
pub fn select_latest(entries: &Vec<DailyEntry>) -> (r: Option<StockPrice>)
    ensures
        entries@.len() == 0 ==> r is None,
        (r matches Some(p) ==> exists|m: int| #[trigger] is_latest(entries@, m) && price_of(
            entries@,
            m,
            p,
        )),
        r is None && entries@.len() > 0 ==> exists|m: int|
            #[trigger] is_latest(entries@, m) && price_cents(entries@[m].open@) is None,
{
    let n = entries.len();
    if n == 0 {
        return None;
    }
    let mut m: usize = 0;
    let mut j: usize = 1;
    proof {
        lemma_lex_irrefl(entries@[0].date@);
    }
    while j < n
        invariant
            n == entries@.len(),
            m < j <= n,
            forall|t: int|
                0 <= t < j ==> !lex_lt(entries@[m as int].date@, (#[trigger] entries@[t]).date@),
        decreases n - j,
    {
        if str_lt(entries[m].date.as_str(), entries[j].date.as_str()) {
            let ghost oldm = m as int;
            m = j;
            proof {
                assert forall|t: int|
                    0 <= t < j + 1 implies !lex_lt(
                    entries@[m as int].date@,
                    (#[trigger] entries@[t]).date@,
                ) by {
                    if t < j {
                        lemma_lex_trans_not(
                            entries@[oldm].date@,
                            entries@[m as int].date@,
                            entries@[t].date@,
                        );
                    } else {
                        lemma_lex_irrefl(entries@[t].date@);
                    }
                }
            }
        }
        j = j + 1;
    }
    let open = match parse_price(entries[m].open.as_str()) {
        Some(v) => v,
        None => {
            proof {
                assert(is_latest(entries@, m as int));
            }
            return None;
        },
    };
    let mut y: usize = 0;
    let mut have_y = false;
    let mut j2: usize = 0;
    while j2 < n
        invariant
            n == entries@.len(),
            m < n,
            have_y ==> y < n && entries@[y as int].date@ != entries@[m as int].date@,
            have_y ==> forall|t: int|
                0 <= t < j2 ==> (#[trigger] entries@[t]).date@ == entries@[m as int].date@
                    || !lex_lt(entries@[y as int].date@, entries@[t].date@),
            !have_y ==> forall|t: int|
                0 <= t < j2 ==> (#[trigger] entries@[t]).date@ == entries@[m as int].date@,
            j2 <= n,
        decreases n - j2,
    {
        if !str_eq(entries[j2].date.as_str(), entries[m].date.as_str()) {
            if !have_y {
                y = j2;
                have_y = true;
                proof {
                    lemma_lex_irrefl(entries@[y as int].date@);
                }
            } else if str_lt(entries[y].date.as_str(), entries[j2].date.as_str()) {
                let ghost oldy = y as int;
                y = j2;
                proof {
                    assert forall|t: int|
                        0 <= t < j2 + 1 && !((#[trigger] entries@[t]).date@
                            == entries@[m as int].date@) implies !lex_lt(
                        entries@[y as int].date@,
                        entries@[t].date@,
                    ) by {
                        if t < j2 {
                            lemma_lex_trans_not(
                                entries@[oldy].date@,
                                entries@[y as int].date@,
                                entries@[t].date@,
                            );
                        } else {
                            lemma_lex_irrefl(entries@[t].date@);
                        }
                    }
                }
            }
        }
        j2 = j2 + 1;
    }
    let previous_close: i64 = if have_y {
        price_or_zero(entries[y].close.as_str())
    } else {
        open
    };
    let p = StockPrice {
        previous_close,
        open,
        high: price_or_zero(entries[m].high.as_str()),
        low: price_or_zero(entries[m].low.as_str()),
        close: price_or_zero(entries[m].close.as_str()),
        volume: price_or_zero(entries[m].volume.as_str()),
    };
    proof {
        assert(is_latest(entries@, m as int));
        if have_y {
            assert(is_prev(entries@, m as int, y as int));
            assert(has_prev(entries@, m as int));
        } else {
            assert(!has_prev(entries@, m as int));
        }
        assert(price_of(entries@, m as int, p));
    }
    Some(p)
}

/// Nothing comes before itself.
proof fn lemma_lex_irrefl(a: Seq<char>)
    ensures
        !lex_lt(a, a),
    decreases a.len(),
{
    if a.len() > 0 {
        lemma_lex_irrefl(a.drop_first());
    }
}

/// What does not come after a greater element does not come after the
/// smaller either.
proof fn lemma_lex_trans_not(a: Seq<char>, b: Seq<char>, c: Seq<char>)
    requires
        lex_lt(a, b),
        !lex_lt(a, c),
    ensures
        !lex_lt(b, c),
    decreases a.len() + b.len() + c.len(),
{
    if lex_lt(b, c) {
        lemma_lex_trans(a, b, c);
    }
}

/// The order is transitive.
proof fn lemma_lex_trans(a: Seq<char>, b: Seq<char>, c: Seq<char>)
    requires
        lex_lt(a, b),
        lex_lt(b, c),
    ensures
        lex_lt(a, c),
    decreases a.len() + b.len() + c.len(),
{
    if a.len() == 0 {
        assert(b.len() > 0);
        assert(c.len() > 0);
    } else {
        assert(b.len() > 0 && c.len() > 0);
        if a[0] == b[0] && b[0] == c[0] {
            lemma_lex_trans(a.drop_first(), b.drop_first(), c.drop_first());
        }
    }
}

/// The closing price with two decimals, for nonnegative hundredths.
pub open spec fn cents_text(c: int) -> Seq<char> {
    dec_rep((c / 100) as nat) + (".")@ + pad2((c % 100) as nat)
}

/// The move against the previous close, in tenths of a percent of it,
/// rounded; zero when there is no positive previous close.
pub open spec fn move_tenths(p: StockPrice) -> nat {
    if p.previous_close <= 0 {
        0
    } else {
        let d = if p.close >= p.previous_close {
            p.close - p.previous_close
        } else {
            p.previous_close - p.close
        };
        let t = (1000 * (d as int) + (p.previous_close as int) / 2) / (p.previous_close as int);
        if t > u64::MAX {
            u64::MAX as nat
        } else {
            t as nat
        }
    }
}

/// The color of the quote: red after a fall, green after a rise, white
/// when unchanged.
pub open spec fn stock_color(p: StockPrice) -> Seq<char> {
    if p.previous_close > p.close {
        ("#ff0000")@
    } else if p.previous_close < p.close {
        ("#00ff00")@
    } else {
        ("#ffffff")@
    }
}

/// The widget text: the symbol in light grey, then either the colored
/// quote with its move, or a waiting notice.
pub open spec fn stock_text(symbol: Seq<char>, latest: Option<StockPrice>) -> Seq<char> {
    ("<span foreground=\"#eaeaea\">")@ + symbol + (" </span>")@ + (match latest {
        None => ("<span foreground=\"#777777\">waiting</span>")@,
        Some(p) => ("<span foreground=\"")@ + stock_color(p) + ("\">")@ + cents_text(p.close as int)
            + ("(")@ + dec_rep(move_tenths(p) / 10) + (".")@ + seq![
            dec_digit(move_tenths(p) % 10),
        ] + ("%)</span>")@,
    })
}

/// Builds the full poll outcome for a symbol and its latest known
/// figures: the quote as a Pango block, due again in one second.
#[verifier::rlimit(50)]
pub fn stock_update(symbol: &str, latest: Option<&StockPrice>) -> (r: WidgetUpdate)
    requires
        latest matches Some(p) ==> p.close >= 0 && p.previous_close >= 0,
    ensures
        r.refresh_interval == 1000,
        r.data is Some,
        (r.data matches Some(d) ==> {
            &&& d@.full_text == stock_text(
                symbol@,
                match latest {
                    Some(p) => Some(*p),
                    None => None,
                },
            )
            &&& d@.markup == MarkupLang::Pango
            &&& d@.name.len() == 0
            &&& d@.instance.len() == 0
            &&& d@.short_text.len() == 0
            &&& d@.color is None
        }),
{
    let mut data = Block::new();
    data.use_pango();
    data.append_full_text("<span foreground=\"#eaeaea\">");
    data.append_full_text(symbol);
    data.append_full_text(" </span>");
    match latest {
        None => {
            data.append_full_text("<span foreground=\"#777777\">waiting</span>");
        },
        Some(p) => {
            data.append_full_text("<span foreground=\"");
            if p.previous_close > p.close {
                data.append_full_text("#ff0000");
            } else if p.previous_close < p.close {
                data.append_full_text("#00ff00");
            } else {
                data.append_full_text("#ffffff");
            }
            data.append_full_text("\">");
            let whole = u64_string((p.close / 100) as u64);
            data.append_full_text(whole.as_str());
            data.append_full_text(".");
            let mut frac = String::new();
            append_pad2(&mut frac, (p.close % 100) as u64);
            data.append_full_text(frac.as_str());
            data.append_full_text("(");
            let t: u64 = if p.previous_close <= 0 {
                0
            } else {
                let d: i64 = if p.close >= p.previous_close {
                    p.close - p.previous_close
                } else {
                    p.previous_close - p.close
                };
                let num: i128 = 1000 * (d as i128) + (p.previous_close as i128) / 2;
                let q: i128 = num / (p.previous_close as i128);
                proof {
                    assert(num / (p.previous_close as i128) >= 0) by (nonlinear_arith)
                        requires
                            num >= 0,
                            p.previous_close > 0,
                    ;
                    assert(num / (p.previous_close as i128) <= num) by (nonlinear_arith)
                        requires
                            num >= 0,
                            p.previous_close >= 1,
                    ;
                }
                if q > u64::MAX as i128 {
                    u64::MAX
                } else {
                    q as u64
                }
            };
            proof {
                assert(t == move_tenths(*p));
            }
            let mwhole = u64_string(t / 10);
            data.append_full_text(mwhole.as_str());
            data.append_full_text(".");
            let mfrac = u64_string(t % 10);
            data.append_full_text(mfrac.as_str());
            data.append_full_text("%)</span>");
            proof {
                assert(dec_rep((t % 10) as nat) =~= seq![dec_digit((t % 10) as nat)]);
            }
        },
    }
    proof {
        assert(data@.full_text =~= stock_text(
            symbol@,
            match latest {
                Some(p) => Some(*p),
                None => None,
            },
        ));
    }
    WidgetUpdate { refresh_interval: 1000, data: Some(data) }
}

} // verus!
