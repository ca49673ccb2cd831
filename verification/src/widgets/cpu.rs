//! The CPU usage widget: a bar of fixed width whose leading cells are
//! colored for the system, nice and user shares of the time passed since
//! the previous sample.  Reading `/proc/stat` is the caller's; parsing its
//! line and drawing the bar are decided here.

use vstd::prelude::*;

use crate::encode::{dec_rep, u32_string, u64_string};
use crate::parse::{dec_val, is_dec_u64, parse_u64, split_seps, split_tokens, str_eq};
use crate::protocol::{Block, MarkupLang};
use crate::widget::WidgetUpdate;

verus! {

/// The mathematical content of a [`CpuWidget`].
pub ghost struct CpuView {
    pub id: u32,
    pub user: u64,
    pub nice: u64,
    pub system: u64,
    pub idel: u64,
    pub width: u8,
    pub user_color: Seq<char>,
    pub nice_color: Seq<char>,
    pub system_color: Seq<char>,
}

/// The CPU usage widget for one core: the previous counter sample, the bar
/// width, and the cell colors.
pub struct CpuWidget {
    id: u32,
    user: u64,
    nice: u64,
    system: u64,
    idel: u64,
    width: u8,
    user_color: String,
    nice_color: String,
    system_color: String,
}

impl View for CpuWidget {
    type V = CpuView;

    closed spec fn view(&self) -> CpuView {
        CpuView {
            id: self.id,
            user: self.user,
            nice: self.nice,
            system: self.system,
            idel: self.idel,
            width: self.width,
            user_color: self.user_color@,
            nice_color: self.nice_color@,
            system_color: self.system_color@,
        }
    }
}

/// The counter token of a stat line: `cpu` and the core number.
pub open spec fn cpu_name(id: u32) -> Seq<char> {
    ("cpu")@ + dec_rep(id as nat)
}

/// Whether a stat line carries the counters of core `id`: its first token
/// names the core and the next four are decimal numbers.
pub open spec fn cpu_line_parses(s: Seq<char>, id: u32) -> bool {
    let t = split_seps(s);
    &&& t.len() >= 5
    &&& t[0] == cpu_name(id)
    &&& is_dec_u64(t[1])
    &&& is_dec_u64(t[2])
    &&& is_dec_u64(t[3])
    &&& is_dec_u64(t[4])
}

/// Reads the user, nice, system and idle counters of core `id` out of one
/// line of the kernel's stat table; `None` when the line is another
/// core's or malformed.
pub fn parse_status_line(line: &str, id: u32) -> (r: Option<(u64, u64, u64, u64)>)
    ensures
        r is Some <==> cpu_line_parses(line@, id),
        (r matches Some(v) ==> {
            &&& v.0 == dec_val(split_seps(line@)[1])
            &&& v.1 == dec_val(split_seps(line@)[2])
            &&& v.2 == dec_val(split_seps(line@)[3])
            &&& v.3 == dec_val(split_seps(line@)[4])
        }),
{
    let tokens = split_tokens(line);
    proof {
        assert(tokens@.len() == split_seps(line@).len());
    }
    if tokens.len() < 5 {
        return None;
    }
    let mut name = String::new();
    name.append("cpu");
    let digits = u32_string(id);
    name.append(digits.as_str());
    proof {
        assert(name@ =~= cpu_name(id));
        assert(tokens@[0]@ == split_seps(line@)[0]);
        assert(tokens@[1]@ == split_seps(line@)[1]);
        assert(tokens@[2]@ == split_seps(line@)[2]);
        assert(tokens@[3]@ == split_seps(line@)[3]);
        assert(tokens@[4]@ == split_seps(line@)[4]);
    }
    if !str_eq(tokens[0].as_str(), name.as_str()) {
        return None;
    }
    let a = match parse_u64(tokens[1].as_str()) {
        Some(v) => v,
        None => {
            return None;
        },
    };
    let b = match parse_u64(tokens[2].as_str()) {
        Some(v) => v,
        None => {
            return None;
        },
    };
    let c = match parse_u64(tokens[3].as_str()) {
        Some(v) => v,
        None => {
            return None;
        },
    };
    let d = match parse_u64(tokens[4].as_str()) {
        Some(v) => v,
        None => {
            return None;
        },
    };
    Some((a, b, c, d))
}

/// Subtraction that stops at zero, for counters that may regress.
pub open spec fn sat_sub(a: nat, b: nat) -> nat {
    if a >= b {
        (a - b) as nat
    } else {
        0
    }
}

/// How many leading bar cells each share colors: system, then nice, then
/// user, each in proportion to its counter advance since the previous
/// sample.
pub open spec fn cpu_counts(v: CpuView, user: u64, nice: u64, system: u64, idel: u64) -> (
    nat,
    nat,
    nat,
) {
    let tot_new = user as nat + nice as nat + system as nat + idel as nat;
    let tot_old = v.user as nat + v.nice as nat + v.system as nat + v.idel as nat;
    let td = sat_sub(tot_new, tot_old);
    if td == 0 {
        (0, 0, 0)
    } else {
        (
            sat_sub(system as nat, v.system as nat) * (v.width as nat) / td,
            sat_sub(nice as nat, v.nice as nat) * (v.width as nat) / td,
            sat_sub(user as nat, v.user as nat) * (v.width as nat) / td,
        )
    }
}

/// One bar cell as a colored markup span.
pub open spec fn span_of(color: Seq<char>) -> Seq<char> {
    ("<span foreground=\"")@ + color + ("\">|</span>")@
}

/// The cell at position `k`: system share first, then nice, then user,
/// grey for the rest.
pub open spec fn span_at(k: int, cs: nat, cn: nat, cu: nat, v: CpuView) -> Seq<char> {
    if k < cs {
        span_of(v.system_color)
    } else if k < cs + cn {
        span_of(v.nice_color)
    } else if k < cs + cn + cu {
        span_of(v.user_color)
    } else {
        span_of(("grey")@)
    }
}

/// The first `m` cells of the bar, concatenated.
pub open spec fn bar_seq(m: int, cs: nat, cn: nat, cu: nat, v: CpuView) -> Seq<char>
    decreases m,
{
    if m <= 0 {
        Seq::empty()
    } else {
        bar_seq(m - 1, cs, cn, cu, v) + span_at(m - 1, cs, cn, cu, v)
    }
}

/// The whole bar for one new sample against the previous one.
pub open spec fn cpu_bar(v: CpuView, user: u64, nice: u64, system: u64, idel: u64) -> Seq<char> {
    let (cs, cn, cu) = cpu_counts(v, user, nice, system, idel);
    bar_seq(v.width as int, cs, cn, cu, v)
}

impl CpuWidget {
    /// Creates a widget for the given core, seeded with an initial counter
    /// sample: twenty cells, green user, blue nice, red system.
    pub fn new(id: u32, user: u64, nice: u64, system: u64, idel: u64) -> (r: Self)
        ensures
            r@ == (CpuView {
                id,
                user,
                nice,
                system,
                idel,
                width: 20,
                user_color: ("#00ff00")@,
                nice_color: ("#0000ff")@,
                system_color: ("#ff0000")@,
            }),
    {
        let mut user_color = String::new();
        user_color.append("#00ff00");
        let mut nice_color = String::new();
        nice_color.append("#0000ff");
        let mut system_color = String::new();
        system_color.append("#ff0000");
        let r = CpuWidget {
            id,
            user,
            nice,
            system,
            idel,
            width: 20,
            user_color,
            nice_color,
            system_color,
        };
        proof {
            assert(r@.user_color =~= ("#00ff00")@);
            assert(r@.nice_color =~= ("#0000ff")@);
            assert(r@.system_color =~= ("#ff0000")@);
        }
        r
    }

    /// Draws the bar for a new counter sample and remembers the sample for
    /// the next poll.
    pub fn draw_bar(&mut self, user: u64, nice: u64, system: u64, idel: u64) -> (r: String)
        ensures
            r@ == cpu_bar(old(self)@, user, nice, system, idel),
            final(self)@ == (CpuView { user, nice, system, idel, ..old(self)@ }),
    {
        let tot_new: u128 = user as u128 + nice as u128 + system as u128 + idel as u128;
        let tot_old: u128 = self.user as u128 + self.nice as u128 + self.system as u128
            + self.idel as u128;
        let td: u128 = if tot_new >= tot_old {
            tot_new - tot_old
        } else {
            0
        };
        let w: u128 = self.width as u128;
        let ds: u128 = if (system as u128) >= (self.system as u128) {
            system as u128 - self.system as u128
        } else {
            0
        };
        let dn: u128 = if (nice as u128) >= (self.nice as u128) {
            nice as u128 - self.nice as u128
        } else {
            0
        };
        let du: u128 = if (user as u128) >= (self.user as u128) {
            user as u128 - self.user as u128
        } else {
            0
        };
        proof {
            assert(ds * w <= 0x3_FFFF_FFFF_FFFF_FFFFu128 * 255) by (nonlinear_arith)
                requires
                    ds <= 0x3_FFFF_FFFF_FFFF_FFFFu128,
                    w <= 255,
            ;
            assert(dn * w <= 0x3_FFFF_FFFF_FFFF_FFFFu128 * 255) by (nonlinear_arith)
                requires
                    dn <= 0x3_FFFF_FFFF_FFFF_FFFFu128,
                    w <= 255,
            ;
            assert(du * w <= 0x3_FFFF_FFFF_FFFF_FFFFu128 * 255) by (nonlinear_arith)
                requires
                    du <= 0x3_FFFF_FFFF_FFFF_FFFFu128,
                    w <= 255,
            ;
        }
        let cs: u128 = if td == 0 {
            0
        } else {
            ds * w / td
        };
        let cn: u128 = if td == 0 {
            0
        } else {
            dn * w / td
        };
        let cu: u128 = if td == 0 {
            0
        } else {
            du * w / td
        };
        proof {
            if td >= 1 {
                assert((ds as int) * (w as int) / (td as int) <= (ds as int) * (w as int)) by (nonlinear_arith)
                    requires
                        td >= 1,
                        ds >= 0,
                        w >= 0,
                ;
                assert((dn as int) * (w as int) / (td as int) <= (dn as int) * (w as int)) by (nonlinear_arith)
                    requires
                        td >= 1,
                        dn >= 0,
                        w >= 0,
                ;
                assert((du as int) * (w as int) / (td as int) <= (du as int) * (w as int)) by (nonlinear_arith)
                    requires
                        td >= 1,
                        du >= 0,
                        w >= 0,
                ;
            }
        }
        let ghost gv = old(self)@;
        let ghost gcounts = cpu_counts(gv, user, nice, system, idel);
        proof {
            assert(cs == gcounts.0 && cn == gcounts.1 && cu == gcounts.2);
        }
        let mut result = String::new();
        let mut k: u8 = 0;
        let width = self.width;
        while k < width
            invariant
                k <= width,
                width == gv.width,
                self.user_color@ == gv.user_color,
                self.nice_color@ == gv.nice_color,
                self.system_color@ == gv.system_color,
                cs == gcounts.0,
                cn == gcounts.1,
                cu == gcounts.2,
                cs <= 0x3_FFFF_FFFF_FFFF_FFFFu128 * 255,
                cn <= 0x3_FFFF_FFFF_FFFF_FFFFu128 * 255,
                cu <= 0x3_FFFF_FFFF_FFFF_FFFFu128 * 255,
                result@ == bar_seq(k as int, gcounts.0, gcounts.1, gcounts.2, gv),
            decreases width - k,
        {
            result.append("<span foreground=\"");
            if (k as u128) < cs {
                result.append(self.system_color.as_str());
            } else if (k as u128) < cs + cn {
                result.append(self.nice_color.as_str());
            } else if (k as u128) < cs + cn + cu {
                result.append(self.user_color.as_str());
            } else {
                result.append("grey");
            }
            result.append("\">|</span>");
            proof {
                assert(result@ =~= bar_seq(k + 1 as int, gcounts.0, gcounts.1, gcounts.2, gv));
            }
            k = k + 1;
        }
        self.user = user;
        self.nice = nice;
        self.system = system;
        self.idel = idel;
        result
    }

    /// Builds the full poll outcome for one sample: the core number and
    /// its bar as a Pango block, due again in one second.
    pub fn update_with(&mut self, user: u64, nice: u64, system: u64, idel: u64) -> (r: WidgetUpdate)
        ensures
            final(self)@ == (CpuView { user, nice, system, idel, ..old(self)@ }),
            r.refresh_interval == 1000,
            (r.data matches Some(d) ==> {
                &&& d@.full_text == dec_rep(old(self)@.id as nat + 1) + ("[")@ + cpu_bar(
                    old(self)@,
                    user,
                    nice,
                    system,
                    idel,
                ) + ("]")@
                &&& d@.markup == MarkupLang::Pango
                &&& d@.name.len() == 0
                &&& d@.instance.len() == 0
                &&& d@.short_text.len() == 0
                &&& d@.color is None
            }),
            r.data is Some,
    {
        let bar = self.draw_bar(user, nice, system, idel);
        let mut data = Block::new();
        data.use_pango();
        let num = u64_string(self.id as u64 + 1);
        data.append_full_text(num.as_str());
        data.append_full_text("[");
        data.append_full_text(bar.as_str());
        data.append_full_text("]");
        proof {
            assert(data@.full_text =~= dec_rep(old(self)@.id as nat + 1) + ("[")@ + cpu_bar(
                old(self)@,
                user,
                nice,
                system,
                idel,
            ) + ("]")@);
        }
        WidgetUpdate { refresh_interval: 1000, data: Some(data) }
    }
}

} // verus!
