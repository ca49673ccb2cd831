//! The scheduler: priming, slot assignment, event ordering, permanent
//! completion, and what each step emits.

use std::cell::Cell;
use std::rc::Rc;

use i3monkit::{
    Block, ColorRGB, Decoratable, Header, I3Protocol, PollStep, Widget, WidgetCollection,
    WidgetUpdate,
};

/// A widget that follows a fixed script: one entry per poll, each either a
/// permanent completion or a delay with an optional block text.
struct ScriptWidget {
    script: Vec<Option<(u64, Option<String>)>>,
    calls: Rc<Cell<usize>>,
}

impl ScriptWidget {
    fn new(script: Vec<Option<(u64, Option<&str>)>>) -> (Self, Rc<Cell<usize>>) {
        let calls = Rc::new(Cell::new(0));
        let script = script
            .into_iter()
            .map(|step| step.map(|(d, t)| (d, t.map(|s| s.to_string()))))
            .collect();
        let w = ScriptWidget { script, calls: Rc::clone(&calls) };
        (w, calls)
    }
}

impl Widget for ScriptWidget {
    fn update(&mut self) -> Option<WidgetUpdate> {
        let n = self.calls.get();
        self.calls.set(n + 1);
        let step = if n < self.script.len() {
            self.script[n].clone()
        } else {
            None
        };
        step.map(|(delay, text)| WidgetUpdate {
            refresh_interval: delay,
            data: text.map(|t| {
                let mut b = Block::new();
                b.full_text(&t);
                b
            }),
        })
    }
}

fn texts_of_last_snapshot(stream: &str) -> Vec<String> {
    let last = stream.lines().rev().find(|l| l.starts_with('[') && *l != "[ []").unwrap();
    let v: serde_json::Value = serde_json::from_str(last).unwrap();
    v.as_array()
        .unwrap()
        .iter()
        .map(|b| b["full_text"].as_str().unwrap().to_string())
        .collect()
}

#[test]
fn priming_fills_one_slot_per_producing_widget() {
    let mut bar = WidgetCollection::new();
    let (w0, _) = ScriptWidget::new(vec![Some((1000, Some("a"))), Some((1000, Some("a2")))]);
    let (w1, _) = ScriptWidget::new(vec![Some((1000, None)), Some((1000, None))]);
    let (w2, _) = ScriptWidget::new(vec![Some((1000, Some("c"))), Some((1000, None))]);
    bar.push(w0);
    bar.push(w1);
    bar.push(w2);
    bar.prime(0);
    let mut proto = I3Protocol::new(Header::new(1));
    let step = bar.poll_due(&mut proto, 1000);
    assert!(step != PollStep::Idle);
    let texts = texts_of_last_snapshot(&proto.take_pending());
    assert_eq!(texts.len(), 2);
}

#[test]
fn snapshot_keeps_registration_order() {
    let mut bar = WidgetCollection::new();
    let (w0, _) = ScriptWidget::new(vec![
        Some((1000, Some("first"))),
        Some((1000, Some("first"))),
    ]);
    let (w1, _) = ScriptWidget::new(vec![Some((2000, Some("second")))]);
    let (w2, _) = ScriptWidget::new(vec![Some((3000, Some("third")))]);
    bar.push(w0);
    bar.push(w1);
    bar.push(w2);
    bar.prime(0);
    let mut proto = I3Protocol::new(Header::new(1));
    bar.poll_due(&mut proto, 1000);
    let texts = texts_of_last_snapshot(&proto.take_pending());
    assert_eq!(texts, vec!["first", "second", "third"]);
}

#[test]
fn completed_widget_is_never_polled_again() {
    let mut bar = WidgetCollection::new();
    let (w0, calls0) = ScriptWidget::new(vec![Some((1000, Some("keep"))), None]);
    let (w1, _) = ScriptWidget::new(vec![
        Some((1000, Some("x1")));
        12
    ]);
    bar.push(w0);
    bar.push(w1);
    bar.prime(0);
    let mut proto = I3Protocol::new(Header::new(1));
    let mut dropped = 0;
    for tick in 1..=4u64 {
        let a = bar.poll_due(&mut proto, tick * 1000);
        let b = bar.poll_due(&mut proto, tick * 1000);
        for s in [a, b] {
            if let PollStep::Dropped(i) = s {
                assert_eq!(i, 0);
                dropped += 1;
            }
        }
    }
    assert_eq!(dropped, 1);
    assert_eq!(calls0.get(), 2);
}

#[test]
fn completed_widget_segment_persists_in_snapshots() {
    let mut bar = WidgetCollection::new();
    let (w0, _) = ScriptWidget::new(vec![Some((1000, Some("keep"))), None]);
    let (w1, _) = ScriptWidget::new(vec![
        Some((1000, Some("x1"))),
        Some((1000, Some("x2"))),
        Some((1000, Some("x3"))),
    ]);
    bar.push(w0);
    bar.push(w1);
    bar.prime(0);
    let mut proto = I3Protocol::new(Header::new(1));
    for tick in 1..=3u64 {
        bar.poll_due(&mut proto, tick * 1000);
        bar.poll_due(&mut proto, tick * 1000);
    }
    let stream = proto.take_pending();
    for line in stream.lines().filter(|l| l.starts_with('[') && *l != "[ []") {
        let v: serde_json::Value = serde_json::from_str(line).unwrap();
        assert_eq!(v[0]["full_text"].as_str().unwrap(), "keep");
    }
}

#[test]
fn poll_with_no_block_emits_unchanged_snapshot() {
    let mut bar = WidgetCollection::new();
    let (w0, _) = ScriptWidget::new(vec![
        Some((1000, Some("stable"))),
        Some((1000, None)),
        Some((1000, None)),
    ]);
    bar.push(w0);
    bar.prime(0);
    let mut proto = I3Protocol::new(Header::new(1));
    let s1 = bar.poll_due(&mut proto, 1000);
    let s2 = bar.poll_due(&mut proto, 2000);
    assert_eq!(s1, PollStep::Unchanged(0));
    assert_eq!(s2, PollStep::Unchanged(0));
    let stream = proto.take_pending();
    let records: Vec<&str> = stream.lines().filter(|l| l.starts_with('[') && *l != "[ []").collect();
    assert_eq!(records.len(), 2);
    assert_eq!(records[0], records[1]);
}

#[test]
fn three_widgets_two_fast_one_slow() {
    let mut bar = WidgetCollection::new();
    let (w0, _) = ScriptWidget::new(vec![
        Some((1000, Some("f0"))),
        Some((1000, Some("f0b"))),
        Some((1000, Some("f0c"))),
    ]);
    let (w1, _) = ScriptWidget::new(vec![
        Some((1000, Some("f1"))),
        Some((1000, Some("f1b"))),
        Some((1000, Some("f1c"))),
    ]);
    let (w2, _) = ScriptWidget::new(vec![Some((5000, None)), Some((5000, Some("slow")))]);
    bar.push(w0);
    bar.push(w1);
    bar.push(w2);
    bar.prime(0);
    assert_eq!(bar.next_due(), Some(1000));

    let mut proto = I3Protocol::new(Header::new(1));
    let texts = texts_of_last_snapshot(&{
        bar.poll_due(&mut proto, 1000);
        proto.take_pending()
    });
    assert_eq!(texts.len(), 2);

    // The two fast widgets were both due at the same instant, in either
    // order; after both, the slow widget's poll is next.
    let a = bar.poll_due(&mut proto, 1000);
    match a {
        PollStep::Updated(i) => assert!(i == 0 || i == 1),
        other => panic!("unexpected step {:?}", other),
    }
    assert_eq!(bar.next_due(), Some(2000));

    // Drain the fast widgets' second round; their scripts then end, so
    // the next polls drop them, and only the slow widget stays scheduled.
    bar.poll_due(&mut proto, 2000);
    bar.poll_due(&mut proto, 2000);
    assert_eq!(bar.next_due(), Some(3000));
    bar.poll_due(&mut proto, 3000);
    bar.poll_due(&mut proto, 3000);
    proto.take_pending();
    assert_eq!(bar.next_due(), Some(5000));
    let step = bar.poll_due(&mut proto, 5000);
    assert_eq!(step, PollStep::Updated(2));
    let texts = texts_of_last_snapshot(&proto.take_pending());
    assert_eq!(texts, vec!["f0c", "f1c", "slow"]);
}

#[test]
fn widget_completing_at_priming_never_appears() {
    let mut bar = WidgetCollection::new();
    let (w0, calls0) = ScriptWidget::new(vec![None]);
    bar.push(w0);
    bar.prime(0);
    assert_eq!(bar.next_due(), None);
    let mut proto = I3Protocol::new(Header::new(1));
    proto.take_pending();
    let step = bar.poll_due(&mut proto, 1000);
    assert_eq!(step, PollStep::Idle);
    assert_eq!(calls0.get(), 1);
    assert_eq!(proto.take_pending(), "");
}

#[test]
fn empty_collection_is_immediately_idle() {
    let mut bar: WidgetCollection<ScriptWidget> = WidgetCollection::new();
    bar.prime(0);
    assert_eq!(bar.next_due(), None);
    let mut proto = I3Protocol::new(Header::new(1));
    assert_eq!(bar.poll_due(&mut proto, 0), PollStep::Idle);
}

#[test]
fn decorator_rewrites_inner_blocks() {
    let (w, _) = ScriptWidget::new(vec![Some((1000, Some("plain")))]);
    let mut decorated = w.decorate_with(|b: Block| {
        let mut b = b;
        b.color(ColorRGB::red());
        b
    });
    let update = decorated.update().unwrap();
    assert_eq!(update.refresh_interval, 1000);
    let block = update.data.unwrap();
    let mut proto = I3Protocol::new(Header::new(1));
    proto.refresh(&vec![block]);
    let out = proto.take_pending();
    assert!(out.contains("\"color\":\"#ff0000\""));
    assert!(out.contains("\"full_text\":\"plain\""));
}

#[test]
fn decorator_passes_completion_through() {
    let (w, _) = ScriptWidget::new(vec![None]);
    let mut decorated = w.decorate_with(|b: Block| b);
    assert!(decorated.update().is_none());
}

#[test]
fn decorator_apply_rewrites_only_the_block() {
    let (w, _) = ScriptWidget::new(vec![]);
    let decorated = w.decorate_with(|b: Block| {
        let mut b = b;
        b.color(ColorRGB::blue());
        b
    });
    assert!(decorated.apply(None).is_none());
    let kept = decorated.apply(Some(WidgetUpdate { refresh_interval: 7, data: None })).unwrap();
    assert_eq!(kept.refresh_interval, 7);
    assert!(kept.data.is_none());
    let mut b = Block::new();
    b.full_text("t");
    let rewritten = decorated
        .apply(Some(WidgetUpdate { refresh_interval: 42, data: Some(b) }))
        .unwrap();
    assert_eq!(rewritten.refresh_interval, 42);
    let mut proto = I3Protocol::new(Header::new(1));
    proto.refresh(&vec![rewritten.data.unwrap()]);
    let out = proto.take_pending();
    assert!(out.contains("\"color\":\"#0000ff\""));
    assert!(out.contains("\"full_text\":\"t\""));
}

#[test]
fn decorator_passes_empty_update_through() {
    let (w, _) = ScriptWidget::new(vec![Some((700, None))]);
    let mut decorated = w.decorate_with(|b: Block| b);
    let update = decorated.update().unwrap();
    assert_eq!(update.refresh_interval, 700);
    assert!(update.data.is_none());
}
