//! The system volume widget: the playback level as a percentage of the
//! mixer's range, with a speaker icon, yellow while muted.  Talking to the
//! mixer is the caller's; the percentage and the rendering are decided
//! here.

use vstd::prelude::*;

use crate::encode::{dec_rep, u64_string};
use crate::protocol::{Block, BlockView, ColorRGB, MarkupLang};
use crate::widget::WidgetUpdate;

verus! {

/// The playback level as a percentage of the range, rounded: zero when the
/// range is empty or the reading below it, and capped at full scale.
pub open spec fn volume_pct(vol: int, min: int, max: int) -> nat {
    if max <= min || vol < min {
        0
    } else if (100 * (vol - min) + (max - min) / 2) / (max - min) > u32::MAX {
        u32::MAX as nat
    } else {
        ((100 * (vol - min) + (max - min) / 2) / (max - min)) as nat
    }
}

/// Computes [`volume_pct`] for a mixer reading.
pub fn volume_percent(vol: i64, min: i64, max: i64) -> (r: u32)
    ensures
        r == volume_pct(vol as int, min as int, max as int),
{
    if max <= min || vol < min {
        return 0;
    }
    let num: i128 = 100 * (vol as i128 - min as i128) + (max as i128 - min as i128) / 2;
    let den: i128 = max as i128 - min as i128;
    let q: i128 = num / den;
    proof {
        assert(num / den >= 0) by (nonlinear_arith)
            requires
                num >= 0,
                den > 0,
        ;
        assert(num / den <= num) by (nonlinear_arith)
            requires
                num >= 0,
                den >= 1,
        ;
    }
    if q > u32::MAX as i128 {
        u32::MAX
    } else {
        q as u32
    }
}

/// The text of the widget: the percentage and a speaker icon, struck out
/// while muted.
pub open spec fn volume_text(mute: bool, vol: u32) -> Seq<char> {
    dec_rep(vol as nat) + ("%")@ + (if mute {
        ("🔇")@
    } else {
        ("🔊")@
    })
}

/// Builds the full poll outcome for one mixer reading: the level and icon
/// as a plain-text block, yellow while muted, due again in one second.
pub fn volume_update(mute: bool, vol: u32) -> (r: WidgetUpdate)
    ensures
        r.refresh_interval == 1000,
        r.data is Some,
        (r.data matches Some(d) ==> d@ == (BlockView {
            name: Seq::<char>::empty(),
            instance: Seq::<char>::empty(),
            full_text: volume_text(mute, vol),
            short_text: Seq::<char>::empty(),
            color: if mute {
                Some(ColorRGB(255u8, 255u8, 0u8))
            } else {
                None
            },
            markup: MarkupLang::Text,
        })),
{
    let mut status = u64_string(vol as u64);
    status.append("%");
    if mute {
        status.append("🔇");
    } else {
        status.append("🔊");
    }
    let mut data = Block::new();
    data.append_full_text(status.as_str());
    if mute {
        data.color(ColorRGB::yellow());
    }
    proof {
        assert(data@.full_text =~= volume_text(mute, vol));
    }
    WidgetUpdate { refresh_interval: 1000, data: Some(data) }
}

} // verus!
