//! The battery widget: status letter, charge percentage, and — while
//! charging or discharging — the estimated time remaining and the drawn
//! power.  Reading the sysfs counters is the caller's; everything rendered
//! from them is decided here.

use vstd::prelude::*;

use crate::encode::{append_pad2, dec_digit, dec_rep, pad2, u64_string};
use crate::parse::{dec_val, is_dec_u32, parse_u32, str_eq};
use crate::protocol::{Block, ColorRGB, MarkupLang};
use crate::widget::WidgetUpdate;

verus! {

/// What the power supply reports it is doing.
#[derive(Debug, Clone, Copy, PartialEq, Eq, Structural)]
pub enum BatteryStatus {
    Unknown,
    Charging,
    Discharging,
    Full,
}

/// The status named by a sysfs `status` line.
pub open spec fn status_of(s: Seq<char>) -> BatteryStatus {
    if s == ("Charging")@ {
        BatteryStatus::Charging
    } else if s == ("Discharging")@ {
        BatteryStatus::Discharging
    } else if s == ("Full")@ {
        BatteryStatus::Full
    } else {
        BatteryStatus::Unknown
    }
}

/// The status letter as a colored markup span.
pub open spec fn status_text(s: BatteryStatus) -> Seq<char> {
    match s {
        BatteryStatus::Unknown => ("<span foreground=\"grey\">U</span> ")@,
        BatteryStatus::Charging => ("<span foreground=\"green\">C</span> ")@,
        BatteryStatus::Discharging => ("<span foreground=\"red\">D</span> ")@,
        BatteryStatus::Full => ("<span foreground=\"green\">F</span> ")@,
    }
}

impl BatteryStatus {
    /// Reads a sysfs `status` line; anything unrecognized is `Unknown`.
    pub fn from_str(status: &str) -> (r: BatteryStatus)
        ensures
            r == status_of(status@),
    {
        if str_eq(status, "Charging") {
            BatteryStatus::Charging
        } else if str_eq(status, "Discharging") {
            BatteryStatus::Discharging
        } else if str_eq(status, "Full") {
            BatteryStatus::Full
        } else {
            BatteryStatus::Unknown
        }
    }

    /// The status letter as a colored markup span.
    pub fn get_status_text(&self) -> (r: &'static str)
        ensures
            r@ == status_text(*self),
    {
        match self {
            BatteryStatus::Unknown => "<span foreground=\"grey\">U</span> ",
            BatteryStatus::Charging => "<span foreground=\"green\">C</span> ",
            BatteryStatus::Discharging => "<span foreground=\"red\">D</span> ",
            BatteryStatus::Full => "<span foreground=\"green\">F</span> ",
        }
    }
}

/// One reading of the battery counters, as sysfs reports them: charges in
/// microampere-hours, the rate in microamperes, the voltage in microvolts.
#[derive(Debug, Clone, Copy)]
pub struct BatteryState {
    pub full: u32,
    pub now: u32,
    pub design: u32,
    pub voltage: u32,
    pub rate: u32,
    pub stat: BatteryStatus,
}

/// The charge percentage, rounded to the nearest whole number and clamped
/// to one byte; a zero design capacity reads as full scale.
pub open spec fn rounded_pct(now: nat, design: nat) -> nat {
    if design == 0 {
        255
    } else if (now * 100 + design / 2) / design > 255 {
        255
    } else {
        (now * 100 + design / 2) / design
    }
}

/// Whether the state carries a time estimate: only while charging or
/// discharging.
pub open spec fn has_estimate(b: BatteryState) -> bool {
    b.stat == BatteryStatus::Charging || b.stat == BatteryStatus::Discharging
}

/// The charge still to move: up to full while charging, down to empty
/// while discharging.
pub open spec fn remaining_charge(b: BatteryState) -> nat {
    match b.stat {
        BatteryStatus::Charging => if b.full >= b.now {
            (b.full - b.now) as nat
        } else {
            (b.now - b.full) as nat
        },
        BatteryStatus::Discharging => b.now as nat,
        _ => 0,
    }
}

/// Seconds until the remaining charge has moved at the current rate,
/// rounded; a zero rate reads as forever.
pub open spec fn estimate_secs(b: BatteryState) -> nat {
    if b.rate == 0 {
        u64::MAX as nat
    } else {
        (3600 * remaining_charge(b) + (b.rate as nat) / 2) / (b.rate as nat)
    }
}

/// The drawn power in tenths of a watt, rounded: voltage times current,
/// microvolts times microamperes.
pub open spec fn tenths_watt(b: BatteryState) -> nat {
    ((b.voltage as nat) * (b.rate as nat) + 50_000_000_000) / 100_000_000_000
}

impl BatteryState {
    /// Builds a state from the sysfs lines for status, full and current
    /// charge, rate, design capacity and voltage; `None` when any counter
    /// is not a plain decimal number a `u32` holds.
    pub fn from_readings(
        status: &str,
        full: &str,
        now: &str,
        rate: &str,
        design: &str,
        voltage: &str,
    ) -> (r: Option<BatteryState>)
        ensures
            r is Some <==> is_dec_u32(full@) && is_dec_u32(now@) && is_dec_u32(rate@) && is_dec_u32(
                design@,
            ) && is_dec_u32(voltage@),
            r matches Some(b) ==> b == (BatteryState {
                full: dec_val(full@) as u32,
                now: dec_val(now@) as u32,
                design: dec_val(design@) as u32,
                voltage: dec_val(voltage@) as u32,
                rate: dec_val(rate@) as u32,
                stat: status_of(status@),
            }),
    {
        let stat = BatteryStatus::from_str(status);
        let full = match parse_u32(full) {
            Some(v) => v,
            None => {
                return None;
            },
        };
        let now = match parse_u32(now) {
            Some(v) => v,
            None => {
                return None;
            },
        };
        let rate = match parse_u32(rate) {
            Some(v) => v,
            None => {
                return None;
            },
        };
        let design = match parse_u32(design) {
            Some(v) => v,
            None => {
                return None;
            },
        };
        let voltage = match parse_u32(voltage) {
            Some(v) => v,
            None => {
                return None;
            },
        };
        Some(BatteryState { full, now, rate, stat, design, voltage })
    }

    /// The charge percentage, rounded and clamped to one byte.
    pub fn percentage(&self) -> (r: u8)
        ensures
            r as nat == rounded_pct(self.now as nat, self.design as nat),
    {
        if self.design == 0 {
            return 255;
        }
        let q = ((self.now as u64) * 100 + (self.design as u64) / 2) / (self.design as u64);
        if q > 255 {
            255
        } else {
            q as u8
        }
    }

    /// The estimated seconds remaining and the drawn power in tenths of a
    /// watt; `None` unless the battery is charging or discharging.
    pub fn time_remaining(&self) -> (r: Option<(u64, u64)>)
        ensures
            r is Some <==> has_estimate(*self),
            r matches Some(p) ==> p.0 == estimate_secs(*self) && p.1 == tenths_watt(*self),
    {
        match self.stat {
            BatteryStatus::Charging | BatteryStatus::Discharging => {},
            _ => {
                return None;
            },
        }
        let rem: u64 = match self.stat {
            BatteryStatus::Charging => if self.full >= self.now {
                (self.full - self.now) as u64
            } else {
                (self.now - self.full) as u64
            },
            _ => self.now as u64,
        };
        let secs: u64 = if self.rate == 0 {
            u64::MAX
        } else {
            (3600 * rem + (self.rate as u64) / 2) / (self.rate as u64)
        };
        proof {
            assert((self.voltage as u128) * (self.rate as u128) <= 0xFFFF_FFFFu128
                * 0xFFFF_FFFFu128) by (nonlinear_arith)
                requires
                    self.voltage <= 0xFFFF_FFFFu128,
                    self.rate <= 0xFFFF_FFFFu128,
            ;
        }
        let p: u128 = (self.voltage as u128) * (self.rate as u128) + 50_000_000_000;
        let tw_wide: u128 = p / 100_000_000_000;
        proof {
            assert(tw_wide * 100_000_000_000 <= p) by (nonlinear_arith)
                requires
                    tw_wide == p / 100_000_000_000,
                    p >= 0,
            ;
        }
        let tw: u64 = tw_wide as u64;
        Some((secs, tw))
    }
}

/// The full message for one reading: status letter span, a space, the
/// percentage, and — while charging or discharging — hours and minutes
/// remaining with the drawn power to one decimal.
pub open spec fn battery_msg(b: BatteryState) -> Seq<char> {
    let pct = rounded_pct(b.now as nat, b.design as nat);
    status_text(b.stat) + (" ")@ + dec_rep(pct) + ("%")@ + (if has_estimate(b) {
        let secs = estimate_secs(b);
        let tw = tenths_watt(b);
        (" [")@ + pad2(secs / 3600) + (":")@ + pad2((secs / 60) % 60) + ("|")@ + dec_rep(tw / 10) + (
        ".")@ + seq![dec_digit(tw % 10)] + ("W]")@
    } else {
        Seq::<char>::empty()
    })
}

/// How urgent the reading is: 3 above half charge, falling to 0 at a tenth
/// or below.
pub open spec fn battery_sev(b: BatteryState) -> int {
    let pct = rounded_pct(b.now as nat, b.design as nat);
    if pct > 50 {
        3
    } else if pct > 30 {
        2
    } else if pct > 10 {
        1
    } else {
        0
    }
}

/// The battery widget, by sysfs battery index.
pub struct BatteryWidget(u32);

impl BatteryWidget {
    /// The sysfs index of the battery this widget watches.
    pub closed spec fn index(&self) -> u32 {
        self.0
    }

    /// Creates a widget for the battery with the given sysfs index; with
    /// one battery that is 0.
    pub fn new(idx: u32) -> (r: Self)
        ensures
            r.index() == idx,
    {
        BatteryWidget(idx)
    }

    /// Renders one reading as a message and a severity; a missing reading
    /// renders as unknown with severity -1.
    pub fn render_batter_status(&self, info: Option<&BatteryState>) -> (r: (String, i32))
        ensures
            info is None ==> r.0@ == ("Unknown")@ && r.1 == -1,
            info matches Some(b) ==> r.0@ == battery_msg(*b) && r.1 == battery_sev(*b),
    {
        let info = match info {
            Some(b) => b,
            None => {
                let mut s = String::new();
                s.append("Unknown");
                proof {
                    assert(s@ =~= ("Unknown")@);
                }
                return (s, -1);
            },
        };
        let pct = info.percentage();
        let mut ret = String::new();
        ret.append(info.stat.get_status_text());
        ret.append(" ");
        let pct_str = u64_string(pct as u64);
        ret.append(pct_str.as_str());
        ret.append("%");
        proof {
            assert(ret@ =~= status_text(info.stat) + (" ")@ + dec_rep(
                rounded_pct(info.now as nat, info.design as nat),
            ) + ("%")@);
        }
        let ghost head = ret@;
        if let Some((secs, tw)) = info.time_remaining() {
            ret.append(" [");
            append_pad2(&mut ret, secs / 3600);
            ret.append(":");
            append_pad2(&mut ret, (secs / 60) % 60);
            ret.append("|");
            let w_str = u64_string(tw / 10);
            ret.append(w_str.as_str());
            ret.append(".");
            let tenth = u64_string(tw % 10);
            ret.append(tenth.as_str());
            ret.append("W]");
            proof {
                assert(dec_rep((tw % 10) as nat) =~= seq![dec_digit((tw % 10) as nat)]);
                assert(ret@ =~= battery_msg(*info));
            }
        } else {
            proof {
                assert(ret@ =~= battery_msg(*info));
            }
        }
        let sev: i32 = if pct > 50 {
            3
        } else if pct > 30 {
            2
        } else if pct > 10 {
            1
        } else {
            0
        };
        (ret, sev)
    }

    /// Builds the full poll outcome for one reading: a Pango block with
    /// the message, red below a tenth of charge, yellow up to three
    /// tenths, due again in five seconds.
    pub fn update_with(&self, info: Option<&BatteryState>) -> (r: WidgetUpdate)
        ensures
            r.refresh_interval == 5000,
            r.data is Some,
            (r.data matches Some(d) ==> d@.markup == MarkupLang::Pango && d@.name.len() == 0
                && d@.instance.len() == 0 && d@.short_text.len() == 0),
            (r.data matches Some(d) ==> (info is None ==> d@.full_text == ("Unknown")@ && d@.color
                is None)),
            (r.data matches Some(d) ==> (info matches Some(b) ==> d@.full_text == battery_msg(*b)
                && d@.color == battery_color(battery_sev(*b)))),
    {
        let (msg, sev) = self.render_batter_status(info);
        let mut data = Block::new();
        data.use_pango();
        data.append_full_text(msg.as_str());
        if sev == 0 {
            data.color(ColorRGB::red());
        } else if sev == 1 {
            data.color(ColorRGB::yellow());
        }
        proof {
            if info is None {
                assert(data@.color is None);
            }
        }
        WidgetUpdate { refresh_interval: 5000, data: Some(data) }
    }
}

/// The text color for a severity: red at 0, yellow at 1, the consumer's
/// default otherwise.
pub open spec fn battery_color(sev: int) -> Option<ColorRGB> {
    if sev == 0 {
        Some(ColorRGB(255u8, 0u8, 0u8))
    } else if sev == 1 {
        Some(ColorRGB(255u8, 255u8, 0u8))
    } else {
        None
    }
}

} // verus!
