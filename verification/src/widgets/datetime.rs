//! A widget that shows the local time, blinking the colon between hours
//! and minutes on alternate polls.

use vstd::prelude::*;

use crate::parse::is_digit;
use crate::protocol::{Block, MarkupLang};
use crate::widget::{Widget, WidgetUpdate};

verus! {

/// The local-time widget; the flag says whether the next rendering uses a
/// colon between hours and minutes.
pub struct DateTimeWidget(bool);

/// Relies on `chrono::Local::now` and `DateTime::format` with the fixed
/// pattern `"%H:%M"`: the hour and the minute, each zero-padded to two
/// decimal digits, with a colon between — five characters.
#[verifier::external_body]
fn local_time_colon() -> (r: String)
    ensures
        r@.len() == 5,
        r@[2] == ':',
        is_digit(r@[0]) && is_digit(r@[1]) && is_digit(r@[3]) && is_digit(r@[4]),
{
    format!("{}", chrono::Local::now().format("%H:%M"))
}

/// Relies on `chrono::Local::now` and `DateTime::format` with the fixed
/// pattern `"%H %M"`: the hour and the minute, each zero-padded to two
/// decimal digits, with a space between — five characters.
#[verifier::external_body]
fn local_time_plain() -> (r: String)
    ensures
        r@.len() == 5,
        r@[2] == ' ',
        is_digit(r@[0]) && is_digit(r@[1]) && is_digit(r@[3]) && is_digit(r@[4]),
{
    format!("{}", chrono::Local::now().format("%H %M"))
}

impl DateTimeWidget {
    /// Whether the next rendering shows the colon.
    pub closed spec fn colon(&self) -> bool {
        self.0
    }

    /// Creates a time widget.
    pub fn new() -> (r: Self)
        ensures
            r.colon(),
    {
        DateTimeWidget(true)
    }

    /// Renders the current local time as a plain-text block, due again in
    /// one second, and flips the colon for the next poll.  The text is the
    /// clock's: two digit pairs around a colon, or around a space on the
    /// alternate polls.
    pub fn tick(&mut self) -> (r: WidgetUpdate)
        ensures
            final(self).colon() == !old(self).colon(),
            r.refresh_interval == 1000,
            (r.data matches Some(b) ==> {
                &&& b@.full_text.len() == 5
                &&& b@.full_text[2] == (if old(self).colon() {
                    ':'
                } else {
                    ' '
                })
                &&& is_digit(b@.full_text[0]) && is_digit(b@.full_text[1]) && is_digit(
                    b@.full_text[3],
                ) && is_digit(b@.full_text[4])
                &&& b@.name.len() == 0
                &&& b@.instance.len() == 0
                &&& b@.short_text.len() == 0
                &&& b@.color is None
                &&& b@.markup == MarkupLang::Text
            }),
            r.data is Some,
    {
        let time_string = if self.0 {
            local_time_colon()
        } else {
            local_time_plain()
        };
        self.0 = !self.0;
        let mut data = Block::new();
        data.append_full_text(time_string.as_str());
        proof {
            assert(data@.full_text =~= time_string@);
        }
        WidgetUpdate { refresh_interval: 1000, data: Some(data) }
    }
}

impl Widget for DateTimeWidget {
    fn update(&mut self) -> (r: Option<WidgetUpdate>) {
        Some(self.tick())
    }
}

} // verus!
