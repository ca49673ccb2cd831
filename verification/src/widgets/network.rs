//! The network speed widget: receive and transmit rates between two
//! counter samples, each shown with the widest binary unit that fits and
//! one decimal.  Reading the interface counters is the caller's; the rate
//! arithmetic and the formatting are decided here.

use vstd::prelude::*;

use crate::encode::{dec_digit, dec_rep, u64_string};
use crate::protocol::{Block, MarkupLang};
use crate::widget::WidgetUpdate;

verus! {

/// One reading of an interface's counters: bytes received and sent, and
/// when the reading was taken, in milliseconds.
#[derive(Debug, Clone, Copy, PartialEq, Eq, Structural)]
pub struct TransferStat {
    pub rx: u64,
    pub tx: u64,
    pub ts: u64,
}

/// A rate in bytes per second from a byte advance over a span of
/// milliseconds, capped at the largest representable value.
pub open spec fn rate_val(d_bytes: nat, d_ms: nat) -> nat {
    if d_bytes * 1000 / d_ms > u64::MAX {
        u64::MAX as nat
    } else {
        d_bytes * 1000 / d_ms
    }
}

/// The receive rate between two readings; none when no time has passed or
/// the counter has regressed.
pub open spec fn rx_rate_of(newer: TransferStat, older: TransferStat) -> Option<u64> {
    if newer.ts <= older.ts || newer.rx < older.rx {
        None
    } else {
        Some(rate_val((newer.rx - older.rx) as nat, (newer.ts - older.ts) as nat) as u64)
    }
}

/// The transmit rate between two readings; none when no time has passed or
/// the counter has regressed.
pub open spec fn tx_rate_of(newer: TransferStat, older: TransferStat) -> Option<u64> {
    if newer.ts <= older.ts || newer.tx < older.tx {
        None
    } else {
        Some(rate_val((newer.tx - older.tx) as nat, (newer.ts - older.ts) as nat) as u64)
    }
}

/// Computes a capped rate in bytes per second.
fn rate_per_sec(d_bytes: u64, d_ms: u64) -> (r: u64)
    requires
        d_ms > 0,
    ensures
        r == rate_val(d_bytes as nat, d_ms as nat),
{
    let wide: u128 = (d_bytes as u128) * 1000 / (d_ms as u128);
    proof {
        assert((d_bytes as int) * 1000 / (d_ms as int) >= 0) by (nonlinear_arith)
            requires
                d_bytes >= 0,
                d_ms > 0,
        ;
    }
    if wide > u64::MAX as u128 {
        u64::MAX
    } else {
        wide as u64
    }
}

impl TransferStat {
    /// The milliseconds between this reading and an earlier one; zero when
    /// the clock has not advanced.
    pub fn duration(&self, earlier: &Self) -> (r: u64)
        ensures
            r == if self.ts >= earlier.ts {
                (self.ts - earlier.ts) as int
            } else {
                0
            },
    {
        if self.ts >= earlier.ts {
            self.ts - earlier.ts
        } else {
            0
        }
    }

    /// The receive rate against an earlier reading.
    pub fn rx_rate(&self, earlier: &Self) -> (r: Option<u64>)
        ensures
            r == rx_rate_of(*self, *earlier),
    {
        let d = self.duration(earlier);
        if d == 0 || self.rx < earlier.rx {
            None
        } else {
            Some(rate_per_sec(self.rx - earlier.rx, d))
        }
    }

    /// The transmit rate against an earlier reading.
    pub fn tx_rate(&self, earlier: &Self) -> (r: Option<u64>)
        ensures
            r == tx_rate_of(*self, *earlier),
    {
        let d = self.duration(earlier);
        if d == 0 || self.tx < earlier.tx {
            None
        } else {
            Some(rate_per_sec(self.tx - earlier.tx, d))
        }
    }
}

/// The widest binary unit that fits the rate: 0 for bytes up to 5 for
/// pebibytes per second.
pub open spec fn unit_idx(r: nat) -> nat {
    if r >= 0x4_0000_0000_0000 {
        5
    } else if r >= 0x100_0000_0000 {
        4
    } else if r >= 0x4000_0000 {
        3
    } else if r >= 0x10_0000 {
        2
    } else if r >= 0x400 {
        1
    } else {
        0
    }
}

/// The scale of a unit: 1024 to the unit's power.
pub open spec fn unit_scale(k: nat) -> nat {
    if k == 0 {
        1
    } else if k == 1 {
        0x400
    } else if k == 2 {
        0x10_0000
    } else if k == 3 {
        0x4000_0000
    } else if k == 4 {
        0x100_0000_0000
    } else {
        0x4_0000_0000_0000
    }
}

/// The name of a unit, four characters each.
pub open spec fn unit_name(k: nat) -> Seq<char> {
    if k == 0 {
        (" B/s")@
    } else if k == 1 {
        ("KB/s")@
    } else if k == 2 {
        ("MB/s")@
    } else if k == 3 {
        ("GB/s")@
    } else if k == 4 {
        ("TB/s")@
    } else {
        ("PB/s")@
    }
}

/// The rate in its unit, rounded to tenths, capped at the largest
/// representable value.
pub open spec fn rate_tenths(r: nat) -> nat {
    let p = unit_scale(unit_idx(r));
    let t = (r * 10 + p / 2) / p;
    if t > u64::MAX {
        u64::MAX as nat
    } else {
        t
    }
}

/// The number with one decimal, right-aligned with spaces to at least six
/// characters.
pub open spec fn tenths_text(t: nat) -> Seq<char> {
    let body = dec_rep(t / 10) + (".")@ + seq![dec_digit(t % 10)];
    if body.len() >= 6 {
        body
    } else {
        Seq::new((6 - body.len()) as nat, |i: int| ' ') + body
    }
}

/// A rate on the bar: not available, or the scaled number with one decimal
/// and its unit.
pub open spec fn rate_text(rate: Option<u64>) -> Seq<char> {
    match rate {
        None => ("N/A")@,
        Some(r) => tenths_text(rate_tenths(r as nat)) + unit_name(unit_idx(r as nat)),
    }
}

/// Renders a rate as [`rate_text`] describes.
pub fn format_rate(rate: Option<u64>) -> (out: String)
    ensures
        out@ == rate_text(rate),
{
    let r = match rate {
        None => {
            let mut s = String::new();
            s.append("N/A");
            proof {
                assert(s@ =~= ("N/A")@);
            }
            return s;
        },
        Some(r) => r,
    };
    let p: u64 = if r >= 0x4_0000_0000_0000 {
        0x4_0000_0000_0000
    } else if r >= 0x100_0000_0000 {
        0x100_0000_0000
    } else if r >= 0x4000_0000 {
        0x4000_0000
    } else if r >= 0x10_0000 {
        0x10_0000
    } else if r >= 0x400 {
        0x400
    } else {
        1
    };
    proof {
        assert(p == unit_scale(unit_idx(r as nat)));
    }
    let wide: u128 = ((r as u128) * 10 + (p as u128) / 2) / (p as u128);
    proof {
        assert(((r as u128) * 10 + (p as u128) / 2) as int / (p as int) >= 0) by (nonlinear_arith)
            requires
                r >= 0,
                p >= 1,
        ;
    }
    let t: u64 = if wide > u64::MAX as u128 {
        u64::MAX
    } else {
        wide as u64
    };
    let ghost gt = rate_tenths(r as nat);
    proof {
        assert(t == gt);
    }
    let whole = u64_string(t / 10);
    let tenth = u64_string(t % 10);
    let mut body = String::new();
    body.append(whole.as_str());
    body.append(".");
    body.append(tenth.as_str());
    proof {
        assert(dec_rep((t % 10) as nat) =~= seq![dec_digit((t % 10) as nat)]);
        assert(body@ =~= dec_rep((t / 10) as nat) + (".")@ + seq![dec_digit((t % 10) as nat)]);
    }
    let mut out = String::new();
    let mut pad = body.as_str().unicode_len();
    while pad < 6
        invariant
            pad >= body@.len(),
            pad <= 6 || pad == body@.len(),
            out@ == Seq::new((pad - body@.len()) as nat, |i: int| ' '),
        decreases 6 - pad,
    {
        out.append(" ");
        proof {
            reveal_strlit(" ");
            assert(out@ =~= Seq::new((pad + 1 - body@.len()) as nat, |i: int| ' '));
        }
        pad = pad + 1;
    }
    out.append(body.as_str());
    let u = unit_str(p);
    out.append(u);
    proof {
        let ghost k = unit_idx(r as nat);
        assert(rate == Some(r));
        assert(u@ == unit_name(k));
        assert(out@ =~= tenths_text(gt) + unit_name(k));
        assert(out@ =~= rate_text(rate));
    }
    out
}

/// The unit suffix for a scale.
fn unit_str(p: u64) -> (r: &'static str)
    ensures
        p == 1 ==> r@ == unit_name(0),
        p == 0x400 ==> r@ == unit_name(1),
        p == 0x10_0000 ==> r@ == unit_name(2),
        p == 0x4000_0000 ==> r@ == unit_name(3),
        p == 0x100_0000_0000 ==> r@ == unit_name(4),
        p == 0x4_0000_0000_0000 ==> r@ == unit_name(5),
{
    if p == 1 {
        " B/s"
    } else if p == 0x400 {
        "KB/s"
    } else if p == 0x10_0000 {
        "MB/s"
    } else if p == 0x4000_0000 {
        "GB/s"
    } else if p == 0x100_0000_0000 {
        "TB/s"
    } else {
        "PB/s"
    }
}

/// The mathematical content of a [`NetworkSpeedWidget`].
pub ghost struct NetworkView {
    pub interface: Seq<char>,
    pub last_stat: TransferStat,
}

/// The network speed widget: the interface watched and the previous
/// counter reading.
pub struct NetworkSpeedWidget {
    interface: String,
    last_stat: TransferStat,
}

impl View for NetworkSpeedWidget {
    type V = NetworkView;

    closed spec fn view(&self) -> NetworkView {
        NetworkView { interface: self.interface@, last_stat: self.last_stat }
    }
}

impl NetworkSpeedWidget {
    /// Creates the widget for an interface, seeded with an initial counter
    /// reading.
    pub fn new(interface: &str, last_stat: TransferStat) -> (r: Self)
        ensures
            r@ == (NetworkView { interface: interface@, last_stat }),
    {
        NetworkSpeedWidget { interface: interface.to_owned(), last_stat }
    }

    /// Renders both rates for a new reading and remembers the reading for
    /// the next poll.
    pub fn get_human_readable_stat(&mut self, cur_stat: TransferStat) -> (r: (String, String))
        ensures
            r.0@ == rate_text(rx_rate_of(cur_stat, old(self)@.last_stat)),
            r.1@ == rate_text(tx_rate_of(cur_stat, old(self)@.last_stat)),
            final(self)@ == (NetworkView { last_stat: cur_stat, ..old(self)@ }),
    {
        let rx = cur_stat.rx_rate(&self.last_stat);
        let tx = cur_stat.tx_rate(&self.last_stat);
        self.last_stat = cur_stat;
        (format_rate(rx), format_rate(tx))
    }

    /// Builds the full poll outcome for one reading: both rates in
    /// monospace markup, due again in one second.
    pub fn update_with(&mut self, cur_stat: TransferStat) -> (r: WidgetUpdate)
        ensures
            final(self)@ == (NetworkView { last_stat: cur_stat, ..old(self)@ }),
            r.refresh_interval == 1000,
            r.data is Some,
            (r.data matches Some(d) ==> {
                &&& d@.full_text == ("Rx:<tt>")@ + rate_text(
                    rx_rate_of(cur_stat, old(self)@.last_stat),
                ) + ("</tt> Tx:<tt>")@ + rate_text(tx_rate_of(cur_stat, old(self)@.last_stat)) + (
                "</tt>")@
                &&& d@.markup == MarkupLang::Pango
                &&& d@.name.len() == 0
                &&& d@.instance.len() == 0
                &&& d@.short_text.len() == 0
                &&& d@.color is None
            }),
    {
        let (rx, tx) = self.get_human_readable_stat(cur_stat);
        let mut data = Block::new();
        data.use_pango();
        data.append_full_text("Rx:<tt>");
        data.append_full_text(rx.as_str());
        data.append_full_text("</tt> Tx:<tt>");
        data.append_full_text(tx.as_str());
        data.append_full_text("</tt>");
        proof {
            assert(data@.full_text =~= ("Rx:<tt>")@ + rate_text(
                rx_rate_of(cur_stat, old(self)@.last_stat),
            ) + ("</tt> Tx:<tt>")@ + rate_text(tx_rate_of(cur_stat, old(self)@.last_stat)) + (
            "</tt>")@);
        }
        WidgetUpdate { refresh_interval: 1000, data: Some(data) }
    }
}

} // verus!
