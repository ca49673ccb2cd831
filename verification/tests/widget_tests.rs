//! The built-in widgets: parsing, arithmetic, and the exact text each one
//! renders.

use i3monkit::widgets::{
    format_rate, parse_price, parse_status_line, select_latest, stock_update, str_lt,
    volume_percent, volume_update, BatteryState, BatteryStatus, BatteryWidget, CpuWidget,
    DailyEntry, NetworkSpeedWidget, StockPrice, TransferStat,
};
use i3monkit::{Header, I3Protocol, Widget, WidgetUpdate};

fn text_of(update: &WidgetUpdate) -> String {
    let block = update.data.clone().unwrap();
    let mut proto = I3Protocol::new(Header::new(1));
    proto.refresh(&vec![block]);
    let out = proto.take_pending();
    let line = out.lines().nth(3).unwrap();
    let v: serde_json::Value = serde_json::from_str(line).unwrap();
    v[0]["full_text"].as_str().unwrap().to_string()
}

fn color_of(update: &WidgetUpdate) -> Option<String> {
    let block = update.data.clone().unwrap();
    let mut proto = I3Protocol::new(Header::new(1));
    proto.refresh(&vec![block]);
    let out = proto.take_pending();
    let line = out.lines().nth(3).unwrap();
    let v: serde_json::Value = serde_json::from_str(line).unwrap();
    v[0].get("color").map(|c| c.as_str().unwrap().to_string())
}

#[test]
fn battery_status_from_str() {
    assert_eq!(BatteryStatus::from_str("Charging"), BatteryStatus::Charging);
    assert_eq!(BatteryStatus::from_str("Discharging"), BatteryStatus::Discharging);
    assert_eq!(BatteryStatus::from_str("Full"), BatteryStatus::Full);
    assert_eq!(BatteryStatus::from_str("Anything"), BatteryStatus::Unknown);
    assert_eq!(BatteryStatus::from_str(""), BatteryStatus::Unknown);
}

#[test]
fn battery_status_text() {
    assert_eq!(
        BatteryStatus::Charging.get_status_text(),
        "<span foreground=\"green\">C</span> "
    );
    assert_eq!(
        BatteryStatus::Discharging.get_status_text(),
        "<span foreground=\"red\">D</span> "
    );
}

#[test]
fn battery_from_readings() {
    let st = BatteryState::from_readings("Full", "100", "90", "10", "110", "12000").unwrap();
    assert_eq!(st.full, 100);
    assert_eq!(st.now, 90);
    assert_eq!(st.rate, 10);
    assert_eq!(st.design, 110);
    assert_eq!(st.voltage, 12000);
    assert_eq!(st.stat, BatteryStatus::Full);
    assert!(BatteryState::from_readings("Full", "1x0", "90", "10", "110", "12000").is_none());
    assert!(BatteryState::from_readings("Full", "", "90", "10", "110", "12000").is_none());
}

#[test]
fn battery_percentage_rounds() {
    let mut st = BatteryState {
        full: 0,
        now: 499,
        design: 1000,
        voltage: 0,
        rate: 0,
        stat: BatteryStatus::Unknown,
    };
    assert_eq!(st.percentage(), 50);
    st.now = 494;
    assert_eq!(st.percentage(), 49);
    st.now = 4000;
    assert_eq!(st.percentage(), 255);
}

#[test]
fn battery_message_discharging() {
    let st = BatteryState {
        full: 100000,
        now: 50000,
        design: 100000,
        voltage: 12000000,
        rate: 1000000,
        stat: BatteryStatus::Discharging,
    };
    let (secs, tenths_watt) = st.time_remaining().unwrap();
    assert_eq!(secs, 180);
    assert_eq!(tenths_watt, 120);
    let widget = BatteryWidget::new(0);
    let (msg, sev) = widget.render_batter_status(Some(&st));
    assert_eq!(msg, "<span foreground=\"red\">D</span>  50% [00:03|12.0W]");
    assert_eq!(sev, 2);
}

#[test]
fn battery_message_unknown_reading() {
    let widget = BatteryWidget::new(0);
    let (msg, sev) = widget.render_batter_status(None);
    assert_eq!(msg, "Unknown");
    assert_eq!(sev, -1);
}

#[test]
fn battery_update_colors_by_severity() {
    let widget = BatteryWidget::new(0);
    let mut st = BatteryState {
        full: 100,
        now: 5,
        design: 100,
        voltage: 0,
        rate: 0,
        stat: BatteryStatus::Unknown,
    };
    let low = widget.update_with(Some(&st));
    assert_eq!(low.refresh_interval, 5000);
    assert_eq!(color_of(&low).as_deref(), Some("#ff0000"));
    st.now = 20;
    let mid = widget.update_with(Some(&st));
    assert_eq!(color_of(&mid).as_deref(), Some("#ffff00"));
    st.now = 80;
    let high = widget.update_with(Some(&st));
    assert_eq!(color_of(&high), None);
}

#[test]
fn cpu_parse_status_line_reads_own_core() {
    assert_eq!(parse_status_line("cpu0 100 200 300 400 55 66", 0), Some((100, 200, 300, 400)));
    assert_eq!(parse_status_line("cpu1 100 200 300 400", 0), None);
    assert_eq!(parse_status_line("cpu 100 200 300 400", 0), None);
    assert_eq!(parse_status_line("cpu0 1a 2 3 4", 0), None);
    assert_eq!(parse_status_line("cpu0 1 2 3", 0), None);
    assert_eq!(parse_status_line("cpu12 7 8 9 10", 12), Some((7, 8, 9, 10)));
}

#[test]
fn cpu_bar_colors_cells_by_share() {
    let mut w = CpuWidget::new(0, 0, 0, 0, 0);
    let bar = w.draw_bar(5, 3, 2, 10);
    let mut expected = String::new();
    for _ in 0..2 {
        expected.push_str("<span foreground=\"#ff0000\">|</span>");
    }
    for _ in 0..3 {
        expected.push_str("<span foreground=\"#0000ff\">|</span>");
    }
    for _ in 0..5 {
        expected.push_str("<span foreground=\"#00ff00\">|</span>");
    }
    for _ in 0..10 {
        expected.push_str("<span foreground=\"grey\">|</span>");
    }
    assert_eq!(bar, expected);
}

#[test]
fn cpu_bar_is_grey_without_progress() {
    let mut w = CpuWidget::new(0, 10, 10, 10, 10);
    let bar = w.draw_bar(10, 10, 10, 10);
    let mut expected = String::new();
    for _ in 0..20 {
        expected.push_str("<span foreground=\"grey\">|</span>");
    }
    assert_eq!(bar, expected);
}

#[test]
fn cpu_update_labels_core_from_one() {
    let mut w = CpuWidget::new(2, 0, 0, 0, 0);
    let update = w.update_with(0, 0, 0, 20);
    assert_eq!(update.refresh_interval, 1000);
    let text = text_of(&update);
    assert!(text.starts_with("3["));
    assert!(text.ends_with("]"));
}

#[test]
fn network_rates_from_counters() {
    let older = TransferStat { rx: 1000, tx: 500, ts: 0 };
    let newer = TransferStat { rx: 3048, tx: 500, ts: 1000 };
    assert_eq!(newer.duration(&older), 1000);
    assert_eq!(newer.rx_rate(&older), Some(2048));
    assert_eq!(newer.tx_rate(&older), Some(0));
    let same_instant = TransferStat { rx: 9999, tx: 9999, ts: 0 };
    assert_eq!(same_instant.rx_rate(&older), None);
    let regressed = TransferStat { rx: 1, tx: 1, ts: 2000 };
    assert_eq!(regressed.rx_rate(&older), None);
}

#[test]
fn network_format_rate_picks_units() {
    assert_eq!(format_rate(None), "N/A");
    assert_eq!(format_rate(Some(0)), "   0.0 B/s");
    assert_eq!(format_rate(Some(1023)), "1023.0 B/s");
    assert_eq!(format_rate(Some(1024)), "   1.0KB/s");
    assert_eq!(format_rate(Some(1536)), "   1.5KB/s");
    assert_eq!(format_rate(Some(1048576)), "   1.0MB/s");
    assert_eq!(format_rate(Some(3 * 1073741824)), "   3.0GB/s");
}

#[test]
fn network_update_renders_both_rates() {
    let mut w = NetworkSpeedWidget::new("eth0", TransferStat { rx: 0, tx: 0, ts: 0 });
    let update = w.update_with(TransferStat { rx: 2048, tx: 1024, ts: 1000 });
    assert_eq!(update.refresh_interval, 1000);
    assert_eq!(text_of(&update), "Rx:<tt>   2.0KB/s</tt> Tx:<tt>   1.0KB/s</tt>");
}

#[test]
fn stock_parse_price_reads_cents() {
    assert_eq!(parse_price("123.4500"), Some(12345));
    assert_eq!(parse_price("0.5"), Some(50));
    assert_eq!(parse_price("7"), Some(700));
    assert_eq!(parse_price("7."), Some(700));
    assert_eq!(parse_price(""), None);
    assert_eq!(parse_price(".5"), None);
    assert_eq!(parse_price("12a.5"), None);
    assert_eq!(parse_price("12.5x"), None);
}

#[test]
fn stock_date_order_is_lexicographic() {
    assert!(str_lt("2020-01-01", "2020-01-02"));
    assert!(str_lt("2019-12-31", "2020-01-01"));
    assert!(!str_lt("2020-01-02", "2020-01-02"));
    assert!(!str_lt("2020-01-02", "2020-01-01"));
}

fn entry(date: &str, open: &str, close: &str) -> DailyEntry {
    DailyEntry {
        date: date.to_string(),
        open: open.to_string(),
        high: "0.0".to_string(),
        low: "0.0".to_string(),
        close: close.to_string(),
        volume: "0".to_string(),
    }
}

#[test]
fn stock_select_latest_uses_previous_close() {
    let entries = vec![
        entry("2020-01-01", "100.00", "101.50"),
        entry("2020-01-03", "103.00", "104.25"),
        entry("2020-01-02", "101.00", "102.00"),
    ];
    let p = select_latest(&entries).unwrap();
    assert_eq!(p.open, 10300);
    assert_eq!(p.close, 10425);
    assert_eq!(p.previous_close, 10200);
}

#[test]
fn stock_select_latest_single_day_repeats_open() {
    let entries = vec![entry("2020-01-01", "100.00", "101.50")];
    let p = select_latest(&entries).unwrap();
    assert_eq!(p.previous_close, p.open);
    assert!(select_latest(&Vec::new()).is_none());
    let bad = vec![entry("2020-01-01", "x", "101.50")];
    assert!(select_latest(&bad).is_none());
}

#[test]
fn stock_update_shows_move_against_previous_close() {
    let p = StockPrice {
        previous_close: 12000,
        open: 12100,
        high: 0,
        low: 0,
        close: 12345,
        volume: 0,
    };
    let update = stock_update("MSFT", Some(&p));
    assert_eq!(update.refresh_interval, 1000);
    assert_eq!(
        text_of(&update),
        "<span foreground=\"#eaeaea\">MSFT </span><span foreground=\"#00ff00\">123.45(2.9%)</span>"
    );
}

#[test]
fn stock_update_waits_without_figures() {
    let update = stock_update("AMD", None);
    assert_eq!(
        text_of(&update),
        "<span foreground=\"#eaeaea\">AMD </span><span foreground=\"#777777\">waiting</span>"
    );
}

#[test]
fn stock_update_colors_a_fall_red() {
    let p = StockPrice {
        previous_close: 12400,
        open: 0,
        high: 0,
        low: 0,
        close: 12345,
        volume: 0,
    };
    let text = text_of(&stock_update("FB", Some(&p)));
    assert!(text.contains("\"#ff0000\""));
    assert!(text.contains("123.45(0.4%)"));
}

#[test]
fn volume_percent_rounds_in_range() {
    assert_eq!(volume_percent(50, 0, 100), 50);
    assert_eq!(volume_percent(0, 0, 100), 0);
    assert_eq!(volume_percent(100, 0, 100), 100);
    assert_eq!(volume_percent(1, 0, 3), 33);
    assert_eq!(volume_percent(2, 0, 3), 67);
    assert_eq!(volume_percent(5, 5, 5), 0);
    assert_eq!(volume_percent(-10, 0, 100), 0);
}

#[test]
fn volume_update_shows_mute_state() {
    let muted = volume_update(true, 30);
    assert_eq!(muted.refresh_interval, 1000);
    assert_eq!(text_of(&muted), "30%🔇");
    assert_eq!(color_of(&muted).as_deref(), Some("#ffff00"));
    let open = volume_update(false, 70);
    assert_eq!(text_of(&open), "70%🔊");
    assert_eq!(color_of(&open), None);
}

#[test]
fn datetime_widget_yields_five_characters() {
    let mut w = i3monkit::widgets::DateTimeWidget::new();
    let first = w.update().unwrap();
    assert_eq!(first.refresh_interval, 1000);
    let t1 = text_of(&first);
    assert_eq!(t1.chars().count(), 5);
    assert_eq!(t1.chars().nth(2), Some(':'));
    let second = w.update().unwrap();
    let t2 = text_of(&second);
    assert_eq!(t2.chars().nth(2), Some(' '));
}
