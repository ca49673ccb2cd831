//! The i3 bar wire protocol: the header record, the styled text blocks of a
//! snapshot, and the encoder that frames an unbounded sequence of snapshots
//! as one JSON document.
//!
//! The byte stream, read start to finish, parses as one header object
//! followed by one array whose first element is an empty array and whose
//! later elements are the emitted snapshots, one array of blocks per
//! emission, in emission order.  The encoder state carries that document
//! shape as its well-formedness predicate [`I3Protocol::wf`].

use vstd::prelude::*;

use crate::encode::append_hex_byte;
use crate::encode::append_json_string;
use crate::encode::dec_rep;
use crate::encode::hex_byte;
use crate::encode::json_str;
use crate::encode::lemma_json_str_newline_free;
use crate::encode::newline_free;
use crate::encode::u32_string;

verus! {

/// The mathematical content of a [`Header`].
pub ghost struct HeaderView {
    pub version: u32,
    pub stop_signal: Option<u32>,
    pub cont_signal: Option<u32>,
    pub click_events: Option<bool>,
}

/// The protocol header, emitted exactly once, first.  The optional fields
/// are left off the wire entirely when unset.
pub struct Header {
    version: u32,
    stop_signal: Option<u32>,
    cont_signal: Option<u32>,
    click_events: Option<bool>,
}

impl View for Header {
    type V = HeaderView;

    closed spec fn view(&self) -> HeaderView {
        HeaderView {
            version: self.version,
            stop_signal: self.stop_signal,
            cont_signal: self.cont_signal,
            click_events: self.click_events,
        }
    }
}

impl Header {
    /// Creates a header for the given protocol version; the target protocol
    /// expects version 1.
    pub fn new(version: u32) -> (r: Self)
        ensures
            r@ == (HeaderView {
                version,
                stop_signal: None,
                cont_signal: None,
                click_events: None,
            }),
    {
        Header { version, stop_signal: None, cont_signal: None, click_events: None }
    }

    /// Asks the consumer to report mouse events.
    pub fn click_events(self, enable: bool) -> (r: Self)
        ensures
            r@ == (HeaderView { click_events: Some(enable), ..self@ }),
    {
        Header { click_events: Some(enable), ..self }
    }
}

/// An RGB color with three 8-bit channels.
#[derive(Clone, Copy)]
pub struct ColorRGB(pub u8, pub u8, pub u8);

impl ColorRGB {
    pub fn red() -> (r: Self)
        ensures
            r == ColorRGB(255u8, 0u8, 0u8),
    {
        ColorRGB(255, 0, 0)
    }

    pub fn green() -> (r: Self)
        ensures
            r == ColorRGB(0u8, 255u8, 0u8),
    {
        ColorRGB(0, 255, 0)
    }

    pub fn blue() -> (r: Self)
        ensures
            r == ColorRGB(0u8, 0u8, 255u8),
    {
        ColorRGB(0, 0, 255)
    }

    pub fn yellow() -> (r: Self)
        ensures
            r == ColorRGB(255u8, 255u8, 0u8),
    {
        ColorRGB(255, 255, 0)
    }
}

/// How the consumer should interpret the text of a block.
#[derive(Debug, Clone, Copy, PartialEq, Eq, Structural)]
pub enum MarkupLang {
    /// Plain text.
    Text,
    /// The Pango markup language.
    Pango,
}

/// The mathematical content of a [`Block`].
pub ghost struct BlockView {
    pub name: Seq<char>,
    pub instance: Seq<char>,
    pub full_text: Seq<char>,
    pub short_text: Seq<char>,
    pub color: Option<ColorRGB>,
    pub markup: MarkupLang,
}

/// One styled unit of text on the bar.  Built incrementally through the
/// mutator methods; `full_text` is always on the wire, `short_text` and
/// `color` are left off when empty or unset.
#[derive(Clone)]
pub struct Block {
    name: String,
    instance: String,
    full_text: String,
    short_text: String,
    color: Option<ColorRGB>,
    markup: MarkupLang,
}

impl View for Block {
    type V = BlockView;

    closed spec fn view(&self) -> BlockView {
        BlockView {
            name: self.name@,
            instance: self.instance@,
            full_text: self.full_text@,
            short_text: self.short_text@,
            color: self.color,
            markup: self.markup,
        }
    }
}

/// The view of a freshly created block: every string empty, no color,
/// plain-text markup.
pub open spec fn empty_block() -> BlockView {
    BlockView {
        name: Seq::empty(),
        instance: Seq::empty(),
        full_text: Seq::empty(),
        short_text: Seq::empty(),
        color: None,
        markup: MarkupLang::Text,
    }
}

impl Block {
    /// Creates an empty block.
    pub fn new() -> (r: Self)
        ensures
            r@ == empty_block(),
    {
        let r = Block {
            name: String::new(),
            instance: String::new(),
            full_text: String::new(),
            short_text: String::new(),
            color: None,
            markup: MarkupLang::Text,
        };
        proof {
            assert(r@ =~= empty_block());
        }
        r
    }

    /// Sets the instance identifier.
    pub fn instance(&mut self, text: &str)
        ensures
            final(self)@ == (BlockView { instance: text@, ..old(self)@ }),
    {
        self.instance = text.to_owned();
    }

    /// Sets the name identifier.
    pub fn name(&mut self, text: &str)
        ensures
            final(self)@ == (BlockView { name: text@, ..old(self)@ }),
    {
        self.name = text.to_owned();
    }

    /// Sets the full text shown on the bar.
    pub fn full_text(&mut self, text: &str)
        ensures
            final(self)@ == (BlockView { full_text: text@, ..old(self)@ }),
    {
        self.full_text = text.to_owned();
    }

    /// Appends to the full text shown on the bar.
    pub fn append_full_text(&mut self, text: &str)
        ensures
            final(self)@ == (BlockView {
                full_text: old(self)@.full_text + text@,
                ..old(self)@
            }),
    {
        self.full_text.append(text);
    }

    /// Sets the short alternative text.
    pub fn short_text(&mut self, text: &str)
        ensures
            final(self)@ == (BlockView { short_text: text@, ..old(self)@ }),
    {
        self.short_text = text.to_owned();
    }

    /// Sets the foreground color.
    pub fn color(&mut self, color: ColorRGB)
        ensures
            final(self)@ == (BlockView { color: Some(color), ..old(self)@ }),
    {
        self.color = Some(color);
    }

    /// Clears the color option, falling back to the consumer's default.
    pub fn clear_color(&mut self)
        ensures
            final(self)@ == (BlockView { color: None, ..old(self)@ }),
    {
        self.color = None;
    }

    /// Makes the consumer parse the text as Pango markup.
    pub fn use_pango(&mut self)
        ensures
            final(self)@ == (BlockView { markup: MarkupLang::Pango, ..old(self)@ }),
    {
        self.markup = MarkupLang::Pango;
    }

    /// Makes the consumer treat the text as plain text.
    pub fn use_plain_text(&mut self)
        ensures
            final(self)@ == (BlockView { markup: MarkupLang::Text, ..old(self)@ }),
    {
        self.markup = MarkupLang::Text;
    }
}

/// A color on the wire: `"#rrggbb"`, lower-case hexadecimal.
pub open spec fn color_json(c: ColorRGB) -> Seq<char> {
    ("\"#")@ + hex_byte(c.0 as nat) + hex_byte(c.1 as nat) + hex_byte(c.2 as nat) + ("\"")@
}

/// A markup mode on the wire: `"none"` or `"pango"`.
pub open spec fn markup_json(m: MarkupLang) -> Seq<char> {
    match m {
        MarkupLang::Text => ("\"none\"")@,
        MarkupLang::Pango => ("\"pango\"")@,
    }
}

/// A block on the wire: one JSON object.  `short_text` is left off when
/// empty, `color` when unset.
pub open spec fn block_json(b: BlockView) -> Seq<char> {
    ("{\"name\":")@ + json_str(b.name) + (",\"instance\":")@ + json_str(b.instance) + (
    ",\"full_text\":")@ + json_str(b.full_text) + (if b.short_text.len() == 0 {
        Seq::<char>::empty()
    } else {
        (",\"short_text\":")@ + json_str(b.short_text)
    }) + (match b.color {
        Some(c) => (",\"color\":")@ + color_json(c),
        None => Seq::<char>::empty(),
    }) + (",\"markup\":")@ + markup_json(b.markup) + ("}")@
}

/// A header on the wire: one JSON object, optional fields left off when
/// unset.
pub open spec fn header_json(h: HeaderView) -> Seq<char> {
    ("{\"version\":")@ + dec_rep(h.version as nat) + (match h.stop_signal {
        Some(n) => (",\"stop_signal\":")@ + dec_rep(n as nat),
        None => Seq::<char>::empty(),
    }) + (match h.cont_signal {
        Some(n) => (",\"cont_signal\":")@ + dec_rep(n as nat),
        None => Seq::<char>::empty(),
    }) + (match h.click_events {
        Some(b) => (",\"click_events\":")@ + (if b {
            ("true")@
        } else {
            ("false")@
        }),
        None => Seq::<char>::empty(),
    }) + ("}")@
}

/// The bodies of a sequence of blocks, separated by commas.
pub open spec fn blocks_json(bs: Seq<BlockView>) -> Seq<char>
    decreases bs.len(),
{
    if bs.len() == 0 {
        Seq::empty()
    } else if bs.len() == 1 {
        block_json(bs[0])
    } else {
        blocks_json(bs.drop_last()) + (",")@ + block_json(bs.last())
    }
}

/// A snapshot on the wire: one JSON array of blocks.
pub open spec fn snapshot_json(bs: Seq<BlockView>) -> Seq<char> {
    ("[")@ + blocks_json(bs) + ("]")@
}

/// The views of a sequence of blocks.
pub open spec fn blocks_view(s: Seq<Block>) -> Seq<BlockView> {
    s.map_values(|b: Block| b@)
}

/// One line-oriented record: its text and a terminating newline.
pub open spec fn record(s: Seq<char>) -> Seq<char> {
    s + ("\n")@
}

/// The records emitted for a sequence of snapshots: a comma separator
/// record, then the snapshot as one array record, per snapshot.
pub open spec fn emit_records(snaps: Seq<Seq<BlockView>>) -> Seq<char>
    decreases snaps.len(),
{
    if snaps.len() == 0 {
        Seq::empty()
    } else {
        emit_records(snaps.drop_last()) + record((",")@) + record(snapshot_json(snaps.last()))
    }
}

/// The whole wire stream for a header, the snapshots emitted so far, and
/// whether the closing marker has been written: the header record, the
/// opening-array record seeded with one empty element, the emission records
/// in order, and the closing record once closed.
pub open spec fn wire(h: HeaderView, snaps: Seq<Seq<BlockView>>, closed: bool) -> Seq<char> {
    record(header_json(h)) + record(("[ []")@) + emit_records(snaps) + (if closed {
        record(("]")@)
    } else {
        Seq::<char>::empty()
    })
}

/// Joining two newline-free texts keeps them newline-free.
proof fn lemma_newline_free_concat(a: Seq<char>, b: Seq<char>)
    requires
        newline_free(a),
        newline_free(b),
    ensures
        newline_free(a + b),
{
    assert forall|i: int| 0 <= i < (a + b).len() implies ((a + b)[i]) != '\n' by {
        if i < a.len() {
            assert((a + b)[i] == a[i]);
        } else {
            assert((a + b)[i] == b[i - a.len()]);
        }
    }
}

/// A block record stays on one line: every piece of its JSON object is
/// newline-free.
pub proof fn lemma_block_json_newline_free(b: BlockView)
    ensures
        newline_free(block_json(b)),
{
    reveal_strlit("{\"name\":");
    reveal_strlit(",\"instance\":");
    reveal_strlit(",\"full_text\":");
    reveal_strlit(",\"short_text\":");
    reveal_strlit(",\"color\":");
    reveal_strlit(",\"markup\":");
    reveal_strlit("\"#");
    reveal_strlit("\"");
    reveal_strlit("\"none\"");
    reveal_strlit("\"pango\"");
    reveal_strlit("}");
    lemma_json_str_newline_free(b.name);
    lemma_json_str_newline_free(b.instance);
    lemma_json_str_newline_free(b.full_text);
    lemma_json_str_newline_free(b.short_text);
    if b.color is Some {
        let c = b.color.unwrap();
        crate::encode::lemma_hex_byte_newline_free(c.0 as nat);
        crate::encode::lemma_hex_byte_newline_free(c.1 as nat);
        crate::encode::lemma_hex_byte_newline_free(c.2 as nat);
        lemma_newline_free_concat(("\"#")@, hex_byte(c.0 as nat));
        lemma_newline_free_concat(("\"#")@ + hex_byte(c.0 as nat), hex_byte(c.1 as nat));
        lemma_newline_free_concat(
            ("\"#")@ + hex_byte(c.0 as nat) + hex_byte(c.1 as nat),
            hex_byte(c.2 as nat),
        );
        lemma_newline_free_concat(
            ("\"#")@ + hex_byte(c.0 as nat) + hex_byte(c.1 as nat) + hex_byte(c.2 as nat),
            ("\"")@,
        );
    }
    let p1 = ("{\"name\":")@ + json_str(b.name);
    lemma_newline_free_concat(("{\"name\":")@, json_str(b.name));
    let p2 = p1 + (",\"instance\":")@;
    lemma_newline_free_concat(p1, (",\"instance\":")@);
    let p3 = p2 + json_str(b.instance);
    lemma_newline_free_concat(p2, json_str(b.instance));
    let p4 = p3 + (",\"full_text\":")@;
    lemma_newline_free_concat(p3, (",\"full_text\":")@);
    let p5 = p4 + json_str(b.full_text);
    lemma_newline_free_concat(p4, json_str(b.full_text));
    let short = if b.short_text.len() == 0 {
        Seq::<char>::empty()
    } else {
        (",\"short_text\":")@ + json_str(b.short_text)
    };
    if b.short_text.len() != 0 {
        lemma_newline_free_concat((",\"short_text\":")@, json_str(b.short_text));
    }
    let p6 = p5 + short;
    lemma_newline_free_concat(p5, short);
    let col = match b.color {
        Some(c) => (",\"color\":")@ + color_json(c),
        None => Seq::<char>::empty(),
    };
    if b.color is Some {
        lemma_newline_free_concat((",\"color\":")@, color_json(b.color.unwrap()));
    }
    let p7 = p6 + col;
    lemma_newline_free_concat(p6, col);
    let p8 = p7 + (",\"markup\":")@;
    lemma_newline_free_concat(p7, (",\"markup\":")@);
    let p9 = p8 + markup_json(b.markup);
    lemma_newline_free_concat(p8, markup_json(b.markup));
    lemma_newline_free_concat(p9, ("}")@);
}

/// A header record stays on one line.
pub proof fn lemma_header_json_newline_free(h: HeaderView)
    ensures
        newline_free(header_json(h)),
{
    reveal_strlit("{\"version\":");
    reveal_strlit(",\"stop_signal\":");
    reveal_strlit(",\"cont_signal\":");
    reveal_strlit(",\"click_events\":");
    reveal_strlit("true");
    reveal_strlit("false");
    reveal_strlit("}");
    crate::encode::lemma_dec_rep_newline_free(h.version as nat);
    let p1 = ("{\"version\":")@ + dec_rep(h.version as nat);
    lemma_newline_free_concat(("{\"version\":")@, dec_rep(h.version as nat));
    let stop = match h.stop_signal {
        Some(n) => (",\"stop_signal\":")@ + dec_rep(n as nat),
        None => Seq::<char>::empty(),
    };
    if h.stop_signal is Some {
        crate::encode::lemma_dec_rep_newline_free(h.stop_signal.unwrap() as nat);
        lemma_newline_free_concat(
            (",\"stop_signal\":")@,
            dec_rep(h.stop_signal.unwrap() as nat),
        );
    }
    let p2 = p1 + stop;
    lemma_newline_free_concat(p1, stop);
    let cont = match h.cont_signal {
        Some(n) => (",\"cont_signal\":")@ + dec_rep(n as nat),
        None => Seq::<char>::empty(),
    };
    if h.cont_signal is Some {
        crate::encode::lemma_dec_rep_newline_free(h.cont_signal.unwrap() as nat);
        lemma_newline_free_concat(
            (",\"cont_signal\":")@,
            dec_rep(h.cont_signal.unwrap() as nat),
        );
    }
    let p3 = p2 + cont;
    lemma_newline_free_concat(p2, cont);
    let click = match h.click_events {
        Some(b) => (",\"click_events\":")@ + (if b {
            ("true")@
        } else {
            ("false")@
        }),
        None => Seq::<char>::empty(),
    };
    if h.click_events is Some {
        lemma_newline_free_concat(
            (",\"click_events\":")@,
            if h.click_events.unwrap() {
                ("true")@
            } else {
                ("false")@
            },
        );
    }
    let p4 = p3 + click;
    lemma_newline_free_concat(p3, click);
    lemma_newline_free_concat(p4, ("}")@);
}

/// A snapshot record stays on one line.
pub proof fn lemma_snapshot_json_newline_free(bs: Seq<BlockView>)
    ensures
        newline_free(snapshot_json(bs)),
    decreases bs.len(),
{
    reveal_strlit("[");
    reveal_strlit(",");
    reveal_strlit("]");
    lemma_blocks_json_newline_free(bs);
    lemma_newline_free_concat(("[")@, blocks_json(bs));
    lemma_newline_free_concat(("[")@ + blocks_json(bs), ("]")@);
}

/// The block list of a snapshot stays on one line.
proof fn lemma_blocks_json_newline_free(bs: Seq<BlockView>)
    ensures
        newline_free(blocks_json(bs)),
    decreases bs.len(),
{
    reveal_strlit(",");
    if bs.len() == 1 {
        lemma_block_json_newline_free(bs[0]);
    } else if bs.len() > 1 {
        lemma_blocks_json_newline_free(bs.drop_last());
        lemma_block_json_newline_free(bs.last());
        lemma_newline_free_concat(blocks_json(bs.drop_last()), (",")@);
        lemma_newline_free_concat(blocks_json(bs.drop_last()) + (",")@, block_json(bs.last()));
    }
}

/// The pieces of `s` between newlines, in order, empty pieces kept; the
/// tail after the last newline is a final piece, so a stream of
/// newline-terminated records splits into the record texts and one empty
/// tail.
pub open spec fn split_records(s: Seq<char>) -> Seq<Seq<char>>
    decreases s.len(),
{
    if s.len() == 0 {
        seq![Seq::<char>::empty()]
    } else if s.last() == '\n' {
        split_records(s.drop_last()).push(Seq::empty())
    } else {
        let t = split_records(s.drop_last());
        t.update(t.len() - 1, t.last().push(s.last()))
    }
}

/// Splitting always yields at least one piece.
proof fn lemma_split_records_len(s: Seq<char>)
    ensures
        split_records(s).len() >= 1,
    decreases s.len(),
{
    if s.len() > 0 {
        lemma_split_records_len(s.drop_last());
    }
}

/// Appending newline-free text only extends the final piece.
proof fn lemma_split_append_text(s: Seq<char>, x: Seq<char>)
    requires
        newline_free(x),
    ensures
        split_records(s + x) =~~= split_records(s).update(
            split_records(s).len() - 1,
            split_records(s).last() + x,
        ),
    decreases x.len(),
{
    lemma_split_records_len(s);
    let t = split_records(s);
    if x.len() == 0 {
        assert(s + x =~= s);
        assert(t.last() + x =~= t.last());
        assert(t.update(t.len() - 1, t.last() + x) =~~= t);
    } else {
        lemma_split_append_text(s, x.drop_last());
        let sx = s + x.drop_last();
        assert(s + x =~= sx.push(x.last()));
        assert(x.last() != '\n');
        assert((s + x).drop_last() =~= sx);
        let tx = split_records(sx);
        lemma_split_records_len(sx);
        assert(split_records(s + x) =~~= tx.update(tx.len() - 1, tx.last().push(x.last())));
        assert(tx.last() =~= t.last() + x.drop_last());
        assert(tx.last().push(x.last()) =~= t.last() + x);
        assert(tx.update(tx.len() - 1, tx.last().push(x.last())) =~~= t.update(
            t.len() - 1,
            t.last() + x,
        ));
    }
}

/// Appending one whole record adds its text as a piece of its own,
/// leaving the empty tail last.
proof fn lemma_split_append_record(s: Seq<char>, rs: Seq<Seq<char>>, x: Seq<char>)
    requires
        split_records(s) == rs.push(Seq::<char>::empty()),
        newline_free(x),
    ensures
        split_records(s + record(x)) == rs.push(x).push(Seq::<char>::empty()),
{
    reveal_strlit("\n");
    lemma_split_append_text(s, x);
    let t = split_records(s);
    assert(t.last() =~= Seq::<char>::empty());
    assert(t.last() + x =~= x);
    assert(split_records(s + x) =~~= rs.push(x));
    assert(s + record(x) =~= (s + x).push('\n'));
    assert((s + record(x)).last() == '\n');
    assert((s + record(x)).drop_last() =~= s + x);
    assert(split_records(s + record(x)) =~~= rs.push(x).push(Seq::<char>::empty()));
}

/// The record texts the protocol has written for a header, the emitted
/// snapshots, and the closing state, in order.
pub open spec fn record_texts(
    h: HeaderView,
    snaps: Seq<Seq<BlockView>>,
    closed: bool,
) -> Seq<Seq<char>> {
    seq![header_json(h), ("[ []")@] + emit_record_texts(snaps) + (if closed {
        seq![("]")@]
    } else {
        Seq::<Seq<char>>::empty()
    })
}

/// The record texts of the emissions alone: a separator and the snapshot
/// array, per emission.
pub open spec fn emit_record_texts(snaps: Seq<Seq<BlockView>>) -> Seq<Seq<char>>
    decreases snaps.len(),
{
    if snaps.len() == 0 {
        Seq::empty()
    } else {
        emit_record_texts(snaps.drop_last()) + seq![(",")@, snapshot_json(snaps.last())]
    }
}

/// The round trip of the framing: the whole stream, cut at its newlines,
/// is exactly the records written — the header, the opening marker with
/// its seeded empty element, then one separator and one snapshot record
/// per emission, in emission order, and the closing marker once closed —
/// with nothing after the final newline.
pub proof fn lemma_stream_decodes(h: HeaderView, snaps: Seq<Seq<BlockView>>, closed: bool)
    ensures
        split_records(wire(h, snaps, closed)) == record_texts(h, snaps, closed).push(
            Seq::<char>::empty(),
        ),
    decreases snaps.len(),
{
    reveal_strlit("[ []");
    reveal_strlit(",");
    reveal_strlit("]");
    if snaps.len() == 0 {
        lemma_header_json_newline_free(h);
        assert(Seq::<char>::empty() + record(header_json(h)) =~= record(header_json(h)));
        assert(split_records(Seq::<char>::empty()) == Seq::<Seq<char>>::empty().push(
            Seq::<char>::empty(),
        ));
        lemma_split_append_record(Seq::<char>::empty(), Seq::<Seq<char>>::empty(), header_json(h));
        lemma_split_append_record(
            record(header_json(h)),
            seq![header_json(h)],
            ("[ []")@,
        );
        let opened = record(header_json(h)) + record(("[ []")@);
        assert(wire(h, snaps, false) =~= opened);
        assert(seq![header_json(h)].push(("[ []")@) =~~= seq![header_json(h), ("[ []")@]);
        assert(record_texts(h, snaps, false) =~~= seq![header_json(h), ("[ []")@]);
        if closed {
            lemma_split_append_record(opened, seq![header_json(h), ("[ []")@], ("]")@);
            assert(wire(h, snaps, true) =~= opened + record(("]")@));
            assert(record_texts(h, snaps, true) =~~= seq![header_json(h), ("[ []")@].push(("]")@));
        }
    } else {
        lemma_stream_decodes(h, snaps.drop_last(), false);
        let prev = wire(h, snaps.drop_last(), false);
        let prev_texts = record_texts(h, snaps.drop_last(), false);
        lemma_split_append_record(prev, prev_texts, (",")@);
        lemma_snapshot_json_newline_free(snaps.last());
        lemma_split_append_record(
            prev + record((",")@),
            prev_texts.push((",")@),
            snapshot_json(snaps.last()),
        );
        let emitted = prev + record((",")@) + record(snapshot_json(snaps.last()));
        assert(wire(h, snaps, false) =~= emitted);
        assert(record_texts(h, snaps, false) =~~= prev_texts.push((",")@).push(
            snapshot_json(snaps.last()),
        ));
        if closed {
            lemma_split_append_record(
                emitted,
                prev_texts.push((",")@).push(snapshot_json(snaps.last())),
                ("]")@,
            );
            assert(wire(h, snaps, true) =~= emitted + record(("]")@));
            assert(record_texts(h, snaps, true) =~~= record_texts(h, snaps, false).push(("]")@));
        }
    }
}

/// Appends the decimal rendering of a number.
fn append_u32(out: &mut String, n: u32)
    ensures
        final(out)@ == old(out)@ + dec_rep(n as nat),
{
    let s = u32_string(n);
    out.append(s.as_str());
}

/// Appends a header as one JSON object.
#[verifier::rlimit(50)]
fn append_header_json(out: &mut String, h: &Header)
    ensures
        final(out)@ == old(out)@ + header_json(h@),
{
    let ghost start = out@;
    out.append("{\"version\":");
    append_u32(out, h.version);
    if let Some(n) = h.stop_signal {
        out.append(",\"stop_signal\":");
        append_u32(out, n);
    }
    if let Some(n) = h.cont_signal {
        out.append(",\"cont_signal\":");
        append_u32(out, n);
    }
    if let Some(b) = h.click_events {
        out.append(",\"click_events\":");
        if b {
            out.append("true");
        } else {
            out.append("false");
        }
    }
    out.append("}");
    proof {
        assert(out@ =~= start + header_json(h@));
    }
}

/// Appends a color as its quoted hex string.
fn append_color_json(out: &mut String, c: &ColorRGB)
    ensures
        final(out)@ == old(out)@ + color_json(*c),
{
    let ghost start = out@;
    out.append("\"#");
    append_hex_byte(out, c.0);
    append_hex_byte(out, c.1);
    append_hex_byte(out, c.2);
    out.append("\"");
    proof {
        assert(out@ =~= start + color_json(*c));
    }
}

/// Appends a block as one JSON object.
fn append_block_json(out: &mut String, b: &Block)
    ensures
        final(out)@ == old(out)@ + block_json(b@),
{
    let mut s = String::new();
    s.append("{\"name\":");
    append_json_string(&mut s, b.name.as_str());
    proof {
        assert(s@ =~= ("{\"name\":")@ + json_str(b@.name));
    }
    s.append(",\"instance\":");
    append_json_string(&mut s, b.instance.as_str());
    proof {
        assert(s@ =~= ("{\"name\":")@ + json_str(b@.name) + (",\"instance\":")@ + json_str(
            b@.instance,
        ));
    }
    s.append(",\"full_text\":");
    append_json_string(&mut s, b.full_text.as_str());
    let ghost p3 = ("{\"name\":")@ + json_str(b@.name) + (",\"instance\":")@ + json_str(
        b@.instance,
    ) + (",\"full_text\":")@ + json_str(b@.full_text);
    proof {
        assert(s@ =~= p3);
    }
    if !b.short_text.as_str().is_empty() {
        s.append(",\"short_text\":");
        append_json_string(&mut s, b.short_text.as_str());
    }
    let ghost p4 = p3 + (if b@.short_text.len() == 0 {
        Seq::<char>::empty()
    } else {
        (",\"short_text\":")@ + json_str(b@.short_text)
    });
    proof {
        assert(s@ =~= p4);
    }
    if let Some(c) = &b.color {
        s.append(",\"color\":");
        append_color_json(&mut s, c);
    }
    let ghost p5 = p4 + (match b@.color {
        Some(c) => (",\"color\":")@ + color_json(c),
        None => Seq::<char>::empty(),
    });
    proof {
        assert(s@ =~= p5);
    }
    s.append(",\"markup\":");
    match b.markup {
        MarkupLang::Text => s.append("\"none\""),
        MarkupLang::Pango => s.append("\"pango\""),
    }
    s.append("}");
    proof {
        assert(s@ =~= p5 + (",\"markup\":")@ + markup_json(b@.markup) + ("}")@);
        assert(s@ =~= block_json(b@));
    }
    out.append(s.as_str());
}

/// Appends a snapshot as one JSON array of blocks.
fn append_snapshot_json(out: &mut String, status: &Vec<Block>)
    ensures
        final(out)@ == old(out)@ + snapshot_json(blocks_view(status@)),
{
    let ghost start = out@;
    out.append("[");
    let n = status.len();
    let mut i: usize = 0;
    while i < n
        invariant
            n == status@.len(),
            i <= n,
            out@ == start + ("[")@ + blocks_json(blocks_view(status@).take(i as int)),
        decreases n - i,
    {
        if i > 0 {
            out.append(",");
        }
        append_block_json(out, &status[i]);
        proof {
            let bs = blocks_view(status@);
            assert(bs.take(i + 1 as int).drop_last() =~= bs.take(i as int));
            assert(bs.take(i + 1 as int).last() == bs[i as int]);
            assert(out@ =~= start + ("[")@ + blocks_json(bs.take(i + 1 as int)));
        }
        i = i + 1;
    }
    out.append("]");
    proof {
        assert(blocks_view(status@).take(n as int) =~= blocks_view(status@));
        assert(out@ =~= start + snapshot_json(blocks_view(status@)));
    }
}

/// The streaming protocol encoder.  It owns the text of the stream: what
/// has not yet been handed to the sink sits in a pending buffer, and the
/// whole stream is always the canonical wire form of the header and the
/// snapshots emitted so far.
pub struct I3Protocol {
    hdr: Ghost<HeaderView>,
    emitted: Ghost<Seq<Seq<BlockView>>>,
    flushed: Ghost<Seq<char>>,
    pending: String,
    closed: bool,
}

impl I3Protocol {
    /// The header this stream was opened with.
    pub closed spec fn header(&self) -> HeaderView {
        self.hdr@
    }

    /// The snapshots emitted so far, in emission order.
    pub closed spec fn snapshots(&self) -> Seq<Seq<BlockView>> {
        self.emitted@
    }

    /// Every character written since the stream was opened.
    pub closed spec fn stream(&self) -> Seq<char> {
        self.flushed@ + self.pending@
    }

    /// The tail of the stream not yet handed to the sink.
    pub closed spec fn unflushed(&self) -> Seq<char> {
        self.pending@
    }

    /// Whether the closing marker has been written.
    pub closed spec fn is_closed(&self) -> bool {
        self.closed
    }

    /// The stream is exactly the canonical wire form of the header and the
    /// emitted snapshots: the whole document always parses as the protocol
    /// promises.
    pub open spec fn wf(&self) -> bool {
        self.stream() == wire(self.header(), self.snapshots(), self.is_closed())
    }

    /// Appends one newline-terminated record to the pending buffer.
    fn write(&mut self, data: &str)
        ensures
            final(self).pending@ == old(self).pending@ + record(data@),
            final(self).flushed == old(self).flushed,
            final(self).hdr == old(self).hdr,
            final(self).emitted == old(self).emitted,
            final(self).closed == old(self).closed,
    {
        self.pending.append(data);
        self.pending.append("\n");
    }

    /// Opens a stream: writes the header record, then the opening-array
    /// record seeded with one empty element, so that every later snapshot
    /// can be preceded by a comma separator.
    pub fn new(header: Header) -> (r: Self)
        ensures
            r.wf(),
            r.header() == header@,
            r.snapshots() =~= Seq::<Seq<BlockView>>::empty(),
            !r.is_closed(),
            r.unflushed() == r.stream(),
    {
        let mut pending = String::new();
        append_header_json(&mut pending, &header);
        pending.append("\n");
        pending.append("[ []");
        pending.append("\n");
        let r = I3Protocol {
            hdr: Ghost(header@),
            emitted: Ghost(Seq::empty()),
            flushed: Ghost(Seq::empty()),
            pending,
            closed: false,
        };
        proof {
            assert(r.stream() =~= wire(header@, Seq::<Seq<BlockView>>::empty(), false));
        }
        r
    }

    /// Emits the full current snapshot: a comma separator record, then the
    /// snapshot as one array record.  After the stream is closed this does
    /// nothing.
    pub fn refresh(&mut self, status: &Vec<Block>)
        requires
            old(self).wf(),
        ensures
            final(self).wf(),
            final(self).header() == old(self).header(),
            final(self).is_closed() == old(self).is_closed(),
            old(self).is_closed() ==> *final(self) == *old(self),
            !old(self).is_closed() ==> final(self).snapshots() =~= old(self).snapshots().push(
                blocks_view(status@),
            ),
            !old(self).is_closed() ==> final(self).stream() =~= old(self).stream() + record((",")@)
                + record(snapshot_json(blocks_view(status@))),
    {
        if self.closed {
            return ;
        }
        self.write(",");
        let mut line = String::new();
        append_snapshot_json(&mut line, status);
        self.write(line.as_str());
        proof {
            self.emitted@ = self.emitted@.push(blocks_view(status@));
            let snaps = old(self).snapshots();
            let s = blocks_view(status@);
            assert(line@ =~= snapshot_json(s));
            assert(self.stream() =~= old(self).stream() + record((",")@) + record(
                snapshot_json(s),
            ));
            assert(snaps.push(s).drop_last() =~= snaps);
            assert(snaps.push(s).last() == s);
            assert(emit_records(snaps.push(s)) == emit_records(snaps) + record((",")@) + record(
                snapshot_json(s),
            ));
            assert(self.stream() =~= wire(self.header(), snaps.push(s), false));
        }
    }

    /// Writes the closing-array marker once; later calls do nothing.
    pub fn close(&mut self)
        requires
            old(self).wf(),
        ensures
            final(self).wf(),
            final(self).is_closed(),
            final(self).header() == old(self).header(),
            final(self).snapshots() == old(self).snapshots(),
            old(self).is_closed() ==> *final(self) == *old(self),
            !old(self).is_closed() ==> final(self).stream() =~= old(self).stream() + record(
                ("]")@,
            ),
    {
        if self.closed {
            return ;
        }
        self.write("]");
        self.closed = true;
        proof {
            assert(self.stream() =~= wire(self.header(), self.snapshots(), true));
        }
    }

    /// Hands out the text not yet given to the sink and marks it flushed.
    pub fn take_pending(&mut self) -> (r: String)
        ensures
            r@ == old(self).unflushed(),
            final(self).unflushed().len() == 0,
            final(self).stream() == old(self).stream(),
            final(self).header() == old(self).header(),
            final(self).snapshots() == old(self).snapshots(),
            final(self).is_closed() == old(self).is_closed(),
            old(self).wf() ==> final(self).wf(),
    {
        let mut r = String::new();
        std::mem::swap(&mut r, &mut self.pending);
        proof {
            self.flushed@ = self.flushed@ + r@;
            assert(self.stream() =~= old(self).stream());
        }
        r
    }
}

} // verus!
