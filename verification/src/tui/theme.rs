//! Central color palette and shared style helpers. Every screen pulls from
//! here so the UI stays visually consistent.

use crate::text::{cat3, chars_of, decimal, owned, repeat, repeated, same, show};
use vstd::prelude::*;
use vstd::string::*;

verus! {

/// A color that the terminal names.
#[derive(Debug, Clone, Copy, PartialEq, Eq, Structural)]
pub enum Ansi {
    /// Whatever the terminal shows by itself.
    Reset,
    Black,
    Red,
    Green,
    Yellow,
    Blue,
    Magenta,
    Cyan,
    Gray,
    DarkGray,
}

/// A color of the palette, or one that the terminal names.
#[derive(Debug, Clone, Copy, PartialEq, Eq, Structural)]
pub enum Color {
    Fg,
    FgSoft,
    Dim,
    Accent,
    Cyan,
    Green,
    Yellow,
    Orange,
    Red,
    Magenta,
    SelBg,
    BadgeFg,
    /// The background of a highlighted row.
    Highlight,
    Terminal(Ansi),
}

pub const FG: Color = Color::Fg;

pub const FG_SOFT: Color = Color::FgSoft;

pub const DIM: Color = Color::Dim;

pub const ACCENT: Color = Color::Accent;

pub const CYAN: Color = Color::Cyan;

pub const GREEN: Color = Color::Green;

pub const YELLOW: Color = Color::Yellow;

pub const ORANGE: Color = Color::Orange;

pub const RED: Color = Color::Red;

pub const MAGENTA: Color = Color::Magenta;

/// Selection / chip background.
pub const SEL_BG: Color = Color::SelBg;

/// Dark text on bright badges.
pub const BADGE_FG: Color = Color::BadgeFg;

/// How a piece of text looks.
#[derive(Debug, Clone, Copy, PartialEq, Eq, Structural)]
pub struct Style {
    pub fg: Option<Color>,
    pub bg: Option<Color>,
    pub bold: bool,
    pub italic: bool,
    pub crossed_out: bool,
}

/// A piece of text in one style.
#[derive(Debug)]
pub struct Span {
    pub text: String,
    pub style: Style,
}

/// A line on the screen.
#[derive(Debug)]
pub struct Line {
    pub spans: Vec<Span>,
}

// ---------------------------------------------------------------- model

pub struct SpanShape {
    pub text: Seq<char>,
    pub style: Style,
}

impl View for Span {
    type V = SpanShape;

    open spec fn view(&self) -> SpanShape {
        SpanShape { text: self.text@, style: self.style }
    }
}

impl DeepView for Span {
    type V = SpanShape;

    open spec fn deep_view(&self) -> SpanShape {
        self.view()
    }
}

impl View for Line {
    type V = Seq<SpanShape>;

    open spec fn view(&self) -> Seq<SpanShape> {
        self.spans.deep_view()
    }
}

impl DeepView for Line {
    type V = Seq<SpanShape>;

    open spec fn deep_view(&self) -> Seq<SpanShape> {
        self.view()
    }
}

pub open spec fn span(text: Seq<char>, style: Style) -> SpanShape {
    SpanShape { text, style }
}

/// The style that changes nothing.
pub open spec fn unstyled() -> Style {
    Style { fg: None, bg: None, bold: false, italic: false, crossed_out: false }
}

/// A foreground color.
pub open spec fn colored(color: Color) -> Style {
    Style { fg: Some(color), ..unstyled() }
}

/// A foreground on a background.
pub open spec fn chip(fg: Color, bg: Color) -> Style {
    Style { fg: Some(fg), bg: Some(bg), ..unstyled() }
}

/// The badge style on a background.
pub open spec fn badge(bg: Color) -> Style {
    Style { bold: true, ..chip(BADGE_FG, bg) }
}

/// The red, green and blue of a palette color.
pub open spec fn rgb_of(color: Color) -> Option<(u8, u8, u8)> {
    match color {
        Color::Fg => Some((0xc0, 0xca, 0xf5)),
        Color::FgSoft => Some((0xa9, 0xb1, 0xd6)),
        Color::Dim => Some((0x56, 0x5f, 0x89)),
        Color::Accent => Some((0x7a, 0xa2, 0xf7)),
        Color::Cyan => Some((0x7d, 0xcf, 0xff)),
        Color::Green => Some((0x9e, 0xce, 0x6a)),
        Color::Yellow => Some((0xe0, 0xaf, 0x68)),
        Color::Orange => Some((0xff, 0x9e, 0x64)),
        Color::Red => Some((0xf7, 0x76, 0x8e)),
        Color::Magenta => Some((0xbb, 0x9a, 0xf7)),
        Color::SelBg => Some((0x29, 0x2e, 0x42)),
        Color::BadgeFg => Some((0x1a, 0x1b, 0x26)),
        Color::Highlight => Some((40, 40, 60)),
        Color::Terminal(_) => None,
    }
}

pub open spec fn color_of_method(method: Seq<char>) -> Color {
    if method == "GET"@ {
        GREEN
    } else if method == "POST"@ {
        ACCENT
    } else if method == "PUT"@ {
        YELLOW
    } else if method == "PATCH"@ {
        MAGENTA
    } else if method == "DELETE"@ {
        RED
    } else if method == "HEAD"@ || method == "OPTIONS"@ {
        CYAN
    } else {
        DIM
    }
}

pub open spec fn color_of_status(status: u16) -> Color {
    if 200 <= status <= 299 {
        GREEN
    } else if 300 <= status <= 399 {
        CYAN
    } else if 400 <= status <= 499 {
        YELLOW
    } else {
        RED
    }
}

/// `s` in the middle of `width` characters; an odd space goes behind it.
pub open spec fn centered_text(s: Seq<char>, width: nat) -> Seq<char> {
    if s.len() < width {
        let room = (width - s.len()) as nat;
        repeated(" "@, room / 2) + s + repeated(" "@, (room - room / 2) as nat)
    } else {
        s
    }
}

/// ` GET ` as a colored badge.
pub open spec fn method_chip(method: Seq<char>) -> SpanShape {
    span(" "@ + centered_text(method, 6) + " "@, badge(color_of_method(method)))
}

/// ` 201 ` as a colored badge.
pub open spec fn status_chip(status: u16) -> SpanShape {
    span(" "@ + decimal(status as nat) + " "@, badge(color_of_status(status)))
}

/// A frame of the loading animation.
pub open spec fn spinner_char(phase: int) -> char {
    if phase == 0 {
        '⠋'
    } else if phase == 1 {
        '⠙'
    } else if phase == 2 {
        '⠹'
    } else if phase == 3 {
        '⠸'
    } else if phase == 4 {
        '⠼'
    } else if phase == 5 {
        '⠴'
    } else if phase == 6 {
        '⠦'
    } else if phase == 7 {
        '⠧'
    } else if phase == 8 {
        '⠇'
    } else {
        '⠏'
    }
}

// ---------------------------------------------------------------- styles

impl Color {
    /// The red, green and blue of a palette color.
    pub fn rgb(self) -> (r: Option<(u8, u8, u8)>)
        ensures
            r == rgb_of(self),
    {
        match self {
            Color::Fg => Some((0xc0, 0xca, 0xf5)),
            Color::FgSoft => Some((0xa9, 0xb1, 0xd6)),
            Color::Dim => Some((0x56, 0x5f, 0x89)),
            Color::Accent => Some((0x7a, 0xa2, 0xf7)),
            Color::Cyan => Some((0x7d, 0xcf, 0xff)),
            Color::Green => Some((0x9e, 0xce, 0x6a)),
            Color::Yellow => Some((0xe0, 0xaf, 0x68)),
            Color::Orange => Some((0xff, 0x9e, 0x64)),
            Color::Red => Some((0xf7, 0x76, 0x8e)),
            Color::Magenta => Some((0xbb, 0x9a, 0xf7)),
            Color::SelBg => Some((0x29, 0x2e, 0x42)),
            Color::BadgeFg => Some((0x1a, 0x1b, 0x26)),
            Color::Highlight => Some((40, 40, 60)),
            Color::Terminal(_) => None,
        }
    }
}

impl Style {
    /// The style that changes nothing.
    pub fn plain() -> (r: Style)
        ensures
            r == unstyled(),
    {
        Style { fg: None, bg: None, bold: false, italic: false, crossed_out: false }
    }

    /// A foreground color.
    pub fn on(color: Color) -> (r: Style)
        ensures
            r == colored(color),
    {
        Style { fg: Some(color), bg: None, bold: false, italic: false, crossed_out: false }
    }

    /// A foreground on a background.
    pub fn chip(fg: Color, bg: Color) -> (r: Style)
        ensures
            r == chip(fg, bg),
    {
        Style { fg: Some(fg), bg: Some(bg), bold: false, italic: false, crossed_out: false }
    }

    pub fn italic(self) -> (r: Style)
        ensures
            r == (Style { italic: true, ..self }),
    {
        Style { fg: self.fg, bg: self.bg, bold: self.bold, italic: true, crossed_out: self.crossed_out }
    }

    pub fn crossed_out(self) -> (r: Style)
        ensures
            r == (Style { crossed_out: true, ..self }),
    {
        Style { fg: self.fg, bg: self.bg, bold: self.bold, italic: self.italic, crossed_out: true }
    }
}

impl Span {
    pub fn styled(text: String, style: Style) -> (r: Span)
        ensures
            r@ == span(text@, style),
    {
        Span { text, style }
    }

    pub fn raw(text: &str) -> (r: Span)
        ensures
            r@ == span(text@, unstyled()),
    {
        Span { text: owned(text), style: Style::plain() }
    }
}

impl Line {
    pub fn new() -> (r: Line)
        ensures
            r@ == Seq::<SpanShape>::empty(),
    {
        let r = Line { spans: Vec::new() };
        assert(r@ =~= Seq::<SpanShape>::empty());
        r
    }

    /// A line with one span more.
    pub fn with(self, added: Span) -> (r: Line)
        ensures
            r@ == self@.push(added@),
    {
        let mut spans = self.spans;
        let ghost before = spans.deep_view();
        spans.push(added);
        assert(spans.deep_view() =~= before.push(added@));
        Line { spans }
    }

    /// A line of one text.
    pub fn of(text: String, style: Style) -> (r: Line)
        ensures
            r@ == seq![span(text@, style)],
    {
        let ghost shown = span(text@, style);
        let r = Line::new().with(Span::styled(text, style));
        assert(r@ =~= seq![shown]);
        r
    }

    /// A line without text.
    pub fn blank() -> (r: Line)
        ensures
            r@ == seq![span(""@, unstyled())],
    {
        Line::of(owned(""), Style::plain())
    }
}

pub fn text() -> (r: Style)
    ensures
        r == colored(FG),
{
    Style::on(FG)
}

pub fn soft() -> (r: Style)
    ensures
        r == colored(FG_SOFT),
{
    Style::on(FG_SOFT)
}

pub fn dim() -> (r: Style)
    ensures
        r == colored(DIM),
{
    Style::on(DIM)
}

pub fn accent() -> (r: Style)
    ensures
        r == colored(ACCENT),
{
    Style::on(ACCENT)
}

pub fn bold(style: Style) -> (r: Style)
    ensures
        r == (Style { bold: true, ..style }),
{
    Style { fg: style.fg, bg: style.bg, bold: true, italic: style.italic, crossed_out: style.crossed_out }
}

pub fn selected_row() -> (r: Style)
    ensures
        r == (Style { bg: Some(SEL_BG), ..unstyled() }),
{
    Style { fg: None, bg: Some(SEL_BG), bold: false, italic: false, crossed_out: false }
}

pub fn border() -> (r: Style)
    ensures
        r == chip(DIM, Color::Terminal(Ansi::Reset)),
{
    Style::chip(DIM, Color::Terminal(Ansi::Reset))
}

pub fn method_color(method: &str) -> (r: Color)
    ensures
        r == color_of_method(method@),
{
    if same(method, "GET") {
        GREEN
    } else if same(method, "POST") {
        ACCENT
    } else if same(method, "PUT") {
        YELLOW
    } else if same(method, "PATCH") {
        MAGENTA
    } else if same(method, "DELETE") {
        RED
    } else if same(method, "HEAD") || same(method, "OPTIONS") {
        CYAN
    } else {
        DIM
    }
}

pub fn status_color(status: u16) -> (r: Color)
    ensures
        r == color_of_status(status),
{
    if 200 <= status && status <= 299 {
        GREEN
    } else if 300 <= status && status <= 399 {
        CYAN
    } else if 400 <= status && status <= 499 {
        YELLOW
    } else {
        RED
    }
}

fn center(s: &str, width: usize) -> (r: String)
    ensures
        r@ == centered_text(s@, width as nat),
{
    let len: usize = chars_of(s).len();
    if len < width {
        let room: usize = width - len;
        let before = repeat(" ", room / 2);
        let behind = repeat(" ", room - room / 2);
        cat3(before.as_str(), s, behind.as_str())
    } else {
        owned(s)
    }
}

fn badge_style(bg: Color) -> (r: Style)
    ensures
        r == badge(bg),
{
    bold(Style::chip(BADGE_FG, bg))
}

/// ` GET ` rendered as a colored badge.
pub fn method_badge(method: &str) -> (r: Span)
    ensures
        r@ == method_chip(method@),
{
    let middle = center(method, 6);
    Span::styled(cat3(" ", middle.as_str(), " "), badge_style(method_color(method)))
}

/// ` 201 ` rendered as a colored badge.
pub fn status_badge(status: u16) -> (r: Span)
    ensures
        r@ == status_chip(status),
{
    let number = show(status as u64);
    Span::styled(cat3(" ", number.as_str(), " "), badge_style(status_color(status)))
}

/// Braille spinner frame for animated loading states.
pub fn spinner(frame: u64) -> (r: char)
    ensures
        r == spinner_char((frame % 10) as int),
{
    let phase: u64 = frame % 10;
    match phase {
        0 => '⠋',
        1 => '⠙',
        2 => '⠹',
        3 => '⠸',
        4 => '⠼',
        5 => '⠴',
        6 => '⠦',
        7 => '⠧',
        8 => '⠇',
        _ => '⠏',
    }
}

// ---------------------------------------------------------------- laws

/// The animation repeats after its ten frames and never shows one twice in a row.
pub proof fn law_spinner_turns(frame: nat)
    ensures
        spinner_char(((frame + 10) % 10) as int) == spinner_char((frame % 10) as int),
        spinner_char(((frame + 1) % 10) as int) != spinner_char((frame % 10) as int),
{
}

} // verus!
