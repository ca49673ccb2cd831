//! A toolkit for building a status-bar program for the i3 window manager.
//!
//! A bar is a collection of widgets, each an independently scheduled data
//! source that periodically yields a styled text block.  The collection
//! multiplexes all widgets onto one thread with an event queue keyed by due
//! time, and streams every snapshot of the bar through the i3 bar protocol:
//! a header record followed by one open-ended JSON array of snapshots.

pub mod encode;
pub mod parse;
pub mod protocol;
pub mod widget;
pub mod widgets;

pub use crate::protocol::{Block, ColorRGB, Header, I3Protocol, MarkupLang};
pub use crate::widget::{
    Decoratable, PollStep, Widget, WidgetCollection, WidgetDecorator, WidgetUpdate,
};
