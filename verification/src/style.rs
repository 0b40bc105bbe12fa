//! Styled text: what is to be shown, before a terminal library shows it.
use crate::ordmap::Duplicate;
use vstd::prelude::*;

verus! {

/// A colour.
#[derive(Debug, Clone, Copy, PartialEq, Eq, Structural)]
pub enum Color {
    Reset,
    Black,
    Red,
    Green,
    Yellow,
    Blue,
    Magenta,
    Cyan,
    Gray,
    DarkGray,
    White,
    Rgb(u8, u8, u8),
}

/// How a piece of text looks.
#[derive(Debug, Clone, Copy, PartialEq, Eq, Structural)]
pub struct Style {
    pub fg: Option<Color>,
    pub bg: Option<Color>,
    pub bold: bool,
    pub dim: bool,
    pub italic: bool,
    pub underlined: bool,
    pub crossed_out: bool,
    pub reversed: bool,
}

/// The look of text that nothing is said about.
pub open spec fn plain() -> Style {
    Style {
        fg: None,
        bg: None,
        bold: false,
        dim: false,
        italic: false,
        underlined: false,
        crossed_out: false,
        reversed: false,
    }
}

/// The look of text in the colour `c`.
pub open spec fn colored(c: Color) -> Style {
    Style { fg: Some(c), ..plain() }
}

impl Style {
    /// The look of text that nothing is said about.
    pub fn new() -> (s: Style)
        ensures
            s == plain(),
    {
        Style {
            fg: None,
            bg: None,
            bold: false,
            dim: false,
            italic: false,
            underlined: false,
            crossed_out: false,
            reversed: false,
        }
    }

    /// The look of text in the colour `c`.
    pub fn of(c: Color) -> (s: Style)
        ensures
            s == colored(c),
    {
        let mut s = Style::new();
        s.fg = Some(c);
        s
    }
}

/// A piece of text with one look.
#[derive(Debug)]
pub struct Span {
    pub content: String,
    pub style: Style,
}

/// What a piece of text holds.
#[verifier::ext_equal]
pub struct SpanView {
    pub content: Seq<char>,
    pub style: Style,
}

impl View for Span {
    type V = SpanView;

    open spec fn view(&self) -> SpanView {
        SpanView { content: self.content@, style: self.style }
    }
}

impl Duplicate for Span {
    fn duplicate(&self) -> (r: Self) {
        Span { content: self.content.clone(), style: self.style }
    }
}

/// What some pieces of text hold.
pub open spec fn views(v: Seq<Span>) -> Seq<SpanView> {
    v.map_values(|s: Span| s@)
}

/// What some lines of pieces of text hold.
pub open spec fn line_views(v: Seq<Vec<Span>>) -> Seq<Seq<SpanView>> {
    v.map_values(|l: Vec<Span>| views(l@))
}

/// A piece of text that looks plain.
pub open spec fn raw_view(s: Seq<char>) -> SpanView {
    SpanView { content: s, style: plain() }
}

impl Span {
    /// A piece of text that looks plain.
    pub fn raw(content: String) -> (s: Span)
        ensures
            s@ == raw_view(content@),
    {
        Span { content, style: Style::new() }
    }
}

/// The text of some pieces.
pub open spec fn plain_text(v: Seq<SpanView>) -> Seq<char>
    decreases v.len(),
{
    if v.len() == 0 {
        seq![]
    } else {
        plain_text(v.drop_last()) + v.last().content
    }
}

/// The text of some pieces.
pub fn text_of(spans: &Vec<Span>) -> (out: String)
    ensures
        out@ == plain_text(views(spans@)),
{
    let mut out = String::new();
    let ghost v = views(spans@);
    let mut i: usize = 0;
    assert(v.take(0) =~= Seq::empty());
    while i < spans.len()
        invariant
            i <= spans.len(),
            v == views(spans@),
            out@ == plain_text(v.take(i as int)),
        decreases spans.len() - i,
    {
        assert(v.take(i + 1).drop_last() =~= v.take(i as int));
        out.append(spans[i].content.as_str());
        i += 1;
    }
    assert(v.take(i as int) =~= v);
    out
}

/// Copies of some pieces.
pub fn copy_spans(spans: &Vec<Span>) -> (out: Vec<Span>)
    ensures
        views(out@) == views(spans@),
{
    let mut out: Vec<Span> = Vec::new();
    let ghost v = views(spans@);
    let mut i: usize = 0;
    while i < spans.len()
        invariant
            i <= spans.len(),
            v == views(spans@),
            views(out@) =~= v.take(i as int),
        decreases spans.len() - i,
    {
        let ghost before = views(out@);
        let s = spans[i].duplicate();
        out.push(s);
        assert(views(out@) =~= before.push(s@));
        assert(v.take(i + 1) =~= v.take(i as int).push(v[i as int]));
        i += 1;
    }
    assert(v.take(i as int) =~= v);
    out
}

/// A line of one piece.
pub fn one(s: Span) -> (out: Vec<Span>)
    ensures
        views(out@) == seq![s@],
{
    let mut out: Vec<Span> = Vec::new();
    out.push(s);
    assert(views(out@) =~= seq![s@]);
    out
}

/// Adds a piece to a line.
pub fn push(out: &mut Vec<Span>, content: String, style: Style)
    ensures
        views(final(out)@) == views(old(out)@).push(SpanView { content: content@, style }),
{
    let s = Span { content, style };
    out.push(s);
    assert(views(out@) =~= views(old(out)@).push(s@));
}

/// A line of pieces of text, and the look that they share.
#[derive(Debug)]
pub struct StyledLine {
    pub spans: Vec<Span>,
    pub style: Style,
}

/// What a line of pieces of text holds.
#[verifier::ext_equal]
pub struct StyledView {
    pub spans: Seq<SpanView>,
    pub style: Style,
}

impl View for StyledLine {
    type V = StyledView;

    open spec fn view(&self) -> StyledView {
        StyledView { spans: views(self.spans@), style: self.style }
    }
}

/// What some lines hold.
pub open spec fn styled_views(v: Seq<StyledLine>) -> Seq<StyledView> {
    v.map_values(|l: StyledLine| l@)
}

/// A piece of text in the colour `c`.
pub open spec fn colored_view(s: Seq<char>, c: Color) -> SpanView {
    SpanView { content: s, style: colored(c) }
}

/// Adds copies of some pieces to a line.
pub fn extend(out: &mut Vec<Span>, more: &Vec<Span>)
    ensures
        views(final(out)@) == views(old(out)@) + views(more@),
{
    let ghost start = views(out@);
    let ghost m = views(more@);
    let mut i: usize = 0;
    while i < more.len()
        invariant
            i <= more.len(),
            m == views(more@),
            views(out@) =~= start + m.take(i as int),
        decreases more.len() - i,
    {
        let ghost before = views(out@);
        let s = more[i].duplicate();
        out.push(s);
        assert(views(out@) =~= before.push(s@));
        assert(m.take(i + 1) =~= m.take(i as int).push(m[i as int]));
        i += 1;
    }
    assert(m.take(i as int) =~= m);
}

/// The text of two lines, one behind the other.
pub proof fn lemma_plain_text_add(a: Seq<SpanView>, b: Seq<SpanView>)
    ensures
        plain_text(a + b) == plain_text(a) + plain_text(b),
    decreases b.len(),
{
    if b.len() == 0 {
        assert(a + b =~= a);
        assert(plain_text(a) + plain_text(b) =~= plain_text(a));
    } else {
        assert((a + b).drop_last() =~= a + b.drop_last());
        lemma_plain_text_add(a, b.drop_last());
        assert(plain_text(a) + plain_text(b.drop_last()) + b.last().content =~= plain_text(a) + (
        plain_text(b.drop_last()) + b.last().content));
    }
}

} // verus!
