//! Small shared pieces of the screen: header, key-hint footer, loading and
//! empty states, JSON coloring, endpoint docs.

use super::theme::{
    self, bold, chip, colored, soft, span, spinner, spinner_char, unstyled, Ansi, Color, Line, Span,
    SpanShape, Style, CYAN, DIM, FG, FG_SOFT, GREEN, MAGENTA, ORANGE, RED, YELLOW,
};
use crate::json::print::indented;
use crate::model::template::{example, example_of};
use crate::model::{Endpoint, EndpointShape, ResponseShape, ResponseSpec};
use crate::text::{cat, cat3, chars_of, lines, lines_of, owned, same, text_between};
use vstd::prelude::*;
use vstd::string::*;

verus! {

// ---------------------------------------------------------------- model

/// The header of a screen: the program's name and where the user is.
pub open spec fn header_spans(title: Seq<char>) -> Seq<SpanShape> {
    seq![
        span(" hitpoint "@, chip(Color::Terminal(Ansi::Black), Color::Terminal(Ansi::Cyan))),
        span(" "@, unstyled()),
        span(title, Style { bold: true, ..unstyled() }),
    ]
}

/// The hints from position `i` on, a key and a label each.
pub open spec fn hint_spans(hints: Seq<(Seq<char>, Seq<char>)>, i: int) -> Seq<SpanShape>
    decreases hints.len() - i,
{
    if i < 0 || i >= hints.len() {
        Seq::empty()
    } else {
        seq![
            span(
                " "@ + hints[i].0 + " "@,
                chip(Color::Terminal(Ansi::Black), Color::Terminal(Ansi::DarkGray)),
            ),
            span(" "@ + hints[i].1 + "  "@, unstyled()),
        ] + hint_spans(hints, i + 1)
    }
}

/// The footer of a screen: the status, then the key hints.
pub open spec fn footer_spans(
    hints: Seq<(Seq<char>, Seq<char>)>,
    status: Option<Seq<char>>,
) -> Seq<SpanShape> {
    (match status {
        Some(text) => seq![
            span(" "@ + text + " "@, colored(Color::Terminal(Ansi::Yellow))),
            span(" "@, unstyled()),
        ],
        None => Seq::empty(),
    }) + hint_spans(hints, 0)
}

/// The line of a loading state.
pub open spec fn loading_spans(label: Seq<char>, frame: u64) -> Seq<SpanShape> {
    seq![
        span(
            "  "@ + seq![spinner_char((frame % 10) as int)] + " loading "@ + label + "…"@,
            Style { italic: true, ..colored(Color::Terminal(Ansi::Yellow)) },
        ),
    ]
}

/// The lines of a screen that has nothing to show.
pub open spec fn empty_lines(title: Seq<char>, hint: Seq<char>) -> Seq<Seq<SpanShape>> {
    seq![
        seq![span(""@, unstyled())],
        seq![span("  "@ + title, colored(FG_SOFT))],
        seq![span("  "@ + hint, colored(DIM))],
    ]
}

/// Position behind the spaces that start at `i`.
pub open spec fn spaces_end(s: Seq<char>, i: int) -> int
    decreases s.len() - i,
{
    if 0 <= i < s.len() && s[i] == ' ' {
        spaces_end(s, i + 1)
    } else {
        i
    }
}

/// Position behind the quote that closes a text whose characters start at `i`.
pub open spec fn quote_end(s: Seq<char>, i: int) -> int
    decreases s.len() - i,
{
    if i < 0 || i >= s.len() {
        i
    } else if s[i] == '"' {
        i + 1
    } else if s[i] == '\\' && i + 1 < s.len() {
        quote_end(s, i + 2)
    } else {
        quote_end(s, i + 1)
    }
}

/// The color of a printed JSON value, by its first character.
pub open spec fn look_of(value: Seq<char>) -> Style {
    if value.len() == 0 {
        colored(FG)
    } else if value[0] == '"' {
        colored(GREEN)
    } else if '0' <= value[0] <= '9' || value[0] == '-' {
        colored(ORANGE)
    } else if value[0] == 't' || value[0] == 'f' || value[0] == 'n' {
        colored(MAGENTA)
    } else {
        colored(FG)
    }
}

/// A line of printed JSON in color: its indentation, its key, its value.
pub open spec fn json_spans(s: Seq<char>) -> Seq<SpanShape> {
    let at = spaces_end(s, 0);
    let end = quote_end(s, at + 1);
    if at < s.len() && s[at] == '"' && end + 1 < s.len() && s[end] == ':' && s[end + 1] == ' ' {
        seq![
            span(s.take(at), unstyled()),
            span(s.subrange(at, end), colored(CYAN)),
            span(": "@, colored(DIM)),
            span(s.skip(end + 2), look_of(s.skip(end + 2))),
        ]
    } else {
        seq![span(s.take(at), unstyled()), span(s.skip(at), look_of(s.skip(at)))]
    }
}

/// The color of a declared status.
pub open spec fn declared_color(status: Seq<char>) -> Color {
    if status.len() == 0 {
        DIM
    } else if status[0] == '2' {
        GREEN
    } else if status[0] == '3' {
        CYAN
    } else if status[0] == '4' {
        YELLOW
    } else if status[0] == '5' {
        RED
    } else {
        DIM
    }
}

/// The lines of a description.
pub open spec fn prose_lines(text: Option<Seq<char>>) -> Seq<Seq<SpanShape>> {
    match text {
        Some(text) => Seq::new(
            lines_of(text).len(),
            |i: int| seq![span("  "@ + lines_of(text)[i], colored(FG_SOFT))],
        ).push(seq![span(""@, unstyled())]),
        None => Seq::empty(),
    }
}

/// The lines of an example body.
pub open spec fn example_lines(response: ResponseShape) -> Seq<Seq<SpanShape>> {
    match response.schema {
        Some(schema) => {
            let printed = lines_of(
                indented(example(schema, Seq::empty(), 0).value, Seq::empty()),
            );
            seq![seq![span("  example "@ + response.status + " body"@, colored(DIM))]] + Seq::new(
                printed.len(),
                |i: int| json_spans(printed[i]),
            ) + seq![seq![span(""@, unstyled())]]
        },
        None => Seq::empty(),
    }
}

/// The lines of one expected response.
pub open spec fn response_lines(response: ResponseShape) -> Seq<Seq<SpanShape>> {
    seq![
        seq![
            span(
                "  "@ + response.status + " "@,
                Style { bold: true, ..colored(declared_color(response.status)) },
            ),
            span(
                match response.description {
                    Some(text) => text,
                    None => ""@,
                },
                colored(FG_SOFT),
            ),
        ],
    ] + example_lines(response)
}

/// The lines of the expected responses from position `i` on.
pub open spec fn responses_lines(responses: Seq<ResponseShape>, i: int) -> Seq<Seq<SpanShape>>
    decreases responses.len() - i,
{
    if i < 0 || i >= responses.len() {
        Seq::empty()
    } else {
        response_lines(responses[i]) + responses_lines(responses, i + 1)
    }
}

/// The docs of an endpoint: its description and the expected response bodies.
pub open spec fn docs_lines(endpoint: EndpointShape) -> Seq<Seq<SpanShape>> {
    prose_lines(endpoint.description) + responses_lines(endpoint.responses, 0)
}

// ---------------------------------------------------------------- widgets

/// The header of a screen.
pub fn draw_header(title: &str) -> (r: Line)
    ensures
        r@ == header_spans(title@),
{
    let r = Line::new().with(
        Span::styled(
            owned(" hitpoint "),
            Style::chip(Color::Terminal(Ansi::Black), Color::Terminal(Ansi::Cyan)),
        ),
    ).with(Span::raw(" ")).with(Span::styled(owned(title), bold(Style::plain())));
    assert(r@ =~= header_spans(title@));
    r
}

/// The footer of a screen.
pub fn draw_footer(hints: &Vec<(&'static str, &'static str)>, status: Option<&str>) -> (r: Line)
    ensures
        r@ == footer_spans(hints.deep_view(), status.deep_view()),
{
    let ghost all = hints.deep_view();
    let mut line = Line::new();
    if let Some(text) = status {
        line = line.with(
            Span::styled(cat3(" ", text, " "), Style::on(Color::Terminal(Ansi::Yellow))),
        ).with(Span::raw(" "));
    }
    let ghost head = line@;
    assert(head =~= (match status.deep_view() {
        Some(text) => seq![
            span(" "@ + text + " "@, colored(Color::Terminal(Ansi::Yellow))),
            span(" "@, unstyled()),
        ],
        None => Seq::empty(),
    }));
    for i in 0..hints.len()
        invariant
            all == hints.deep_view(),
            line@ + hint_spans(all, i as int) == head + hint_spans(all, 0),
    {
        let (key, label) = hints[i];
        assert(all[i as int] == (key@, label@));
        let ghost before = line@;
        line = line.with(
            Span::styled(
                cat3(" ", key, " "),
                Style::chip(Color::Terminal(Ansi::Black), Color::Terminal(Ansi::DarkGray)),
            ),
        ).with(Span::styled(cat3(" ", label, "  "), Style::plain()));
        assert(line@ + hint_spans(all, i + 1) =~= before + (seq![
            span(
                " "@ + key@ + " "@,
                chip(Color::Terminal(Ansi::Black), Color::Terminal(Ansi::DarkGray)),
            ),
            span(" "@ + label@ + "  "@, unstyled()),
        ] + hint_spans(all, i + 1)));
    }
    assert(line@ =~= head + hint_spans(all, 0));
    line
}

/// The line of a loading state.
pub fn loading_line(label: &str, frame: u64) -> (r: Line)
    ensures
        r@ == loading_spans(label@, frame),
{
    let mut text = owned("  ");
    text.push(spinner(frame));
    assert(text@ =~= "  "@ + seq![spinner_char((frame % 10) as int)]);
    text.append(" loading ");
    text.append(label);
    text.append("…");
    Line::of(text, Style::on(Color::Terminal(Ansi::Yellow)).italic())
}

/// The lines of a screen that has nothing to show.
pub fn empty_state(title: &str, hint: &str) -> (r: Vec<Line>)
    ensures
        r.deep_view() == empty_lines(title@, hint@),
{
    let mut out: Vec<Line> = Vec::new();
    out.push(Line::blank());
    out.push(Line::of(cat("  ", title), soft()));
    out.push(Line::of(cat("  ", hint), theme::dim()));
    assert(out.deep_view() =~= empty_lines(title@, hint@));
    out
}

pub open spec fn terminal_method_color(method: Seq<char>) -> Ansi {
    if method == "GET"@ {
        Ansi::Green
    } else if method == "POST"@ {
        Ansi::Blue
    } else if method == "PUT"@ {
        Ansi::Yellow
    } else if method == "PATCH"@ {
        Ansi::Magenta
    } else if method == "DELETE"@ {
        Ansi::Red
    } else {
        Ansi::Gray
    }
}

/// The style of a method in the terminal's own colors.
pub fn method_style(method: &str) -> (r: Style)
    ensures
        r == (Style {
            bold: true,
            ..colored(Color::Terminal(terminal_method_color(method@)))
        }),
{
    let color = if same(method, "GET") {
        Ansi::Green
    } else if same(method, "POST") {
        Ansi::Blue
    } else if same(method, "PUT") {
        Ansi::Yellow
    } else if same(method, "PATCH") {
        Ansi::Magenta
    } else if same(method, "DELETE") {
        Ansi::Red
    } else {
        Ansi::Gray
    };
    bold(Style::on(Color::Terminal(color)))
}

pub open spec fn terminal_status_color(status: u16) -> Ansi {
    if 200 <= status <= 299 {
        Ansi::Green
    } else if 300 <= status <= 399 {
        Ansi::Cyan
    } else if 400 <= status <= 499 {
        Ansi::Yellow
    } else {
        Ansi::Red
    }
}

/// The style of a status in the terminal's own colors.
pub fn status_style(status: u16) -> (r: Style)
    ensures
        r == (Style { bold: true, ..colored(Color::Terminal(terminal_status_color(status))) }),
{
    let color = if 200 <= status && status <= 299 {
        Ansi::Green
    } else if 300 <= status && status <= 399 {
        Ansi::Cyan
    } else if 400 <= status && status <= 499 {
        Ansi::Yellow
    } else {
        Ansi::Red
    };
    bold(Style::on(Color::Terminal(color)))
}

/// Dim style for excluded rows, etc.
pub fn dim() -> (r: Style)
    ensures
        r == colored(Color::Terminal(Ansi::DarkGray)),
{
    Style::on(Color::Terminal(Ansi::DarkGray))
}

// ---------------------------------------------------------------- JSON

fn look(value: &str) -> (r: Style)
    ensures
        r == look_of(value@),
{
    let chars = chars_of(value);
    if chars.len() == 0 {
        return theme::text();
    }
    let c: char = chars[0];
    if c == '"' {
        Style::on(GREEN)
    } else if ('0' <= c && c <= '9') || c == '-' {
        Style::on(ORANGE)
    } else if c == 't' || c == 'f' || c == 'n' {
        Style::on(MAGENTA)
    } else {
        theme::text()
    }
}

fn skip_spaces(chars: &Vec<char>) -> (r: usize)
    ensures
        r == spaces_end(chars@, 0),
        r <= chars@.len(),
{
    let mut i: usize = 0;
    while i < chars.len() && chars[i] == ' '
        invariant
            i <= chars@.len(),
            spaces_end(chars@, 0) == spaces_end(chars@, i as int),
        decreases chars@.len() - i,
    {
        i += 1;
    }
    i
}

fn skip_quoted(chars: &Vec<char>, from: usize) -> (r: usize)
    requires
        from <= chars@.len(),
    ensures
        r == quote_end(chars@, from as int),
        from <= r <= chars@.len(),
{
    let mut i: usize = from;
    while i < chars.len()
        invariant
            from <= i <= chars@.len(),
            quote_end(chars@, from as int) == quote_end(chars@, i as int),
        decreases chars@.len() - i,
    {
        if chars[i] == '"' {
            return i + 1;
        }
        if chars[i] == '\\' && i + 1 < chars.len() {
            i += 2;
        } else {
            i += 1;
        }
    }
    i
}

/// A line of printed JSON in color.
pub fn colorize_json_line(line: &str) -> (r: Line)
    ensures
        r@ == json_spans(line@),
{
    let chars = chars_of(line);
    let len: usize = chars.len();
    let at = skip_spaces(&chars);
    let indent = text_between(&chars, 0, at);
    assert(indent@ =~= line@.take(at as int));
    if at < len && chars[at] == '"' {
        let end = skip_quoted(&chars, at + 1);
        if end < len && end + 1 < len && chars[end] == ':' && chars[end + 1] == ' ' {
            let key = text_between(&chars, at, end);
            let value = text_between(&chars, end + 2, len);
            assert(value@ =~= line@.skip(end + 2));
            let style = look(value.as_str());
            let r = Line::new().with(Span::styled(indent, Style::plain())).with(
                Span::styled(key, Style::on(CYAN)),
            ).with(Span::styled(owned(": "), theme::dim())).with(Span::styled(value, style));
            assert(r@ =~= json_spans(line@));
            return r;
        }
    }
    let value = text_between(&chars, at, len);
    assert(value@ =~= line@.skip(at as int));
    let style = look(value.as_str());
    let r = Line::new().with(Span::styled(indent, Style::plain())).with(
        Span::styled(value, style),
    );
    assert(r@ =~= json_spans(line@));
    r
}

/// The lines of printed JSON in color.
pub fn json_lines(text: &str) -> (r: Vec<Line>)
    ensures
        r.deep_view() == Seq::new(
            lines_of(text@).len(),
            |i: int| json_spans(lines_of(text@)[i]),
        ),
{
    let printed = lines(text);
    let ghost all = printed.deep_view();
    let mut out: Vec<Line> = Vec::new();
    for i in 0..printed.len()
        invariant
            all == printed.deep_view(),
            out@.len() == i,
            forall|k: int| 0 <= k < i ==> (#[trigger] out@[k])@ == json_spans(all[k]),
    {
        assert(all[i as int] == printed@[i as int]@);
        out.push(colorize_json_line(printed[i].as_str()));
    }
    assert(out.deep_view() =~= Seq::new(
        lines_of(text@).len(),
        |i: int| json_spans(lines_of(text@)[i]),
    ));
    out
}

// ---------------------------------------------------------------- docs

fn status_tint(status: &str) -> (r: Color)
    ensures
        r == declared_color(status@),
{
    let chars = chars_of(status);
    if chars.len() == 0 {
        return DIM;
    }
    let c: char = chars[0];
    if c == '2' {
        GREEN
    } else if c == '3' {
        CYAN
    } else if c == '4' {
        YELLOW
    } else if c == '5' {
        RED
    } else {
        DIM
    }
}

fn prose(text: &Option<String>) -> (r: Vec<Line>)
    ensures
        r.deep_view() == prose_lines(text.deep_view()),
{
    let mut out: Vec<Line> = Vec::new();
    if let Some(text) = text {
        let broken = lines(text.as_str());
        let ghost all = broken.deep_view();
        for i in 0..broken.len()
            invariant
                all == broken.deep_view(),
                out@.len() == i,
                forall|k: int|
                    0 <= k < i ==> (#[trigger] out@[k])@ == seq![
                        span("  "@ + all[k], colored(FG_SOFT)),
                    ],
        {
            assert(all[i as int] == broken@[i as int]@);
            out.push(Line::of(cat("  ", broken[i].as_str()), soft()));
        }
        let ghost shown = out.deep_view();
        assert(shown =~= Seq::new(
            lines_of(text@).len(),
            |i: int| seq![span("  "@ + lines_of(text@)[i], colored(FG_SOFT))],
        ));
        out.push(Line::blank());
        assert(out.deep_view() =~= shown.push(seq![span(""@, unstyled())]));
    } else {
        assert(out.deep_view() =~= Seq::empty());
    }
    out
}

fn example_body(response: &ResponseSpec) -> (r: Vec<Line>)
    ensures
        r.deep_view() == example_lines(response@),
{
    let mut out: Vec<Line> = Vec::new();
    if let Some(schema) = &response.schema {
        let value = example_of(schema);
        let text = value.to_text_pretty();
        out.push(Line::of(cat3("  example ", response.status.as_str(), " body"), theme::dim()));
        let ghost head = out.deep_view();
        assert(head =~= seq![
            seq![span("  example "@ + response@.status + " body"@, colored(DIM))],
        ]);
        let mut body = json_lines(text.as_str());
        let ghost middle = body.deep_view();
        out.append(&mut body);
        assert(out.deep_view() =~= head + middle);
        out.push(Line::blank());
        assert(out.deep_view() =~= head + middle + seq![seq![span(""@, unstyled())]]);
    } else {
        assert(out.deep_view() =~= Seq::empty());
    }
    out
}

/// The docs of an endpoint: its description and the expected response bodies.
pub fn endpoint_docs(endpoint: &Endpoint) -> (r: Vec<Line>)
    ensures
        r.deep_view() == docs_lines(endpoint@),
{
    let ghost all = endpoint@.responses;
    let mut out = prose(&endpoint.description);
    let ghost head = out.deep_view();
    for i in 0..endpoint.responses.len()
        invariant
            all == endpoint@.responses,
            out.deep_view() + responses_lines(all, i as int) == head + responses_lines(all, 0),
    {
        let response = &endpoint.responses[i];
        assert(all[i as int] == response@);
        let ghost before = out.deep_view();
        let line = Line::new().with(
            Span::styled(
                cat3("  ", response.status.as_str(), " "),
                bold(Style::on(status_tint(response.status.as_str()))),
            ),
        ).with(
            Span::styled(
                match &response.description {
                    Some(text) => text.clone(),
                    None => owned(""),
                },
                soft(),
            ),
        );
        let mut body = example_body(response);
        let ghost shown = line@;
        let ghost rest = body.deep_view();
        out.push(line);
        out.append(&mut body);
        assert(out.deep_view() =~= before.push(shown) + rest);
        assert(shown =~= response_lines(response@)[0]);
        assert(seq![shown] + rest =~= response_lines(response@));
        assert(before.push(shown) + rest + responses_lines(all, i + 1) =~= before + (
        response_lines(response@) + responses_lines(all, i + 1)));
    }
    assert(out.deep_view() =~= head + responses_lines(all, 0));
    out
}

// ---------------------------------------------------------------- laws

proof fn lemma_spaces_end(s: Seq<char>, i: int)
    requires
        0 <= i <= s.len(),
    ensures
        i <= spaces_end(s, i) <= s.len(),
    decreases s.len() - i,
{
    if i < s.len() && s[i] == ' ' {
        lemma_spaces_end(s, i + 1);
    }
}

proof fn lemma_quote_end(s: Seq<char>, i: int)
    requires
        0 <= i <= s.len(),
    ensures
        i <= quote_end(s, i) <= s.len(),
    decreases s.len() - i,
{
    if i < s.len() && s[i] != '"' {
        if s[i] == '\\' && i + 1 < s.len() {
            lemma_quote_end(s, i + 2);
        } else {
            lemma_quote_end(s, i + 1);
        }
    }
}

/// The text of a line, whatever its styles.
pub open spec fn plain_text(spans: Seq<SpanShape>, i: int) -> Seq<char>
    decreases spans.len() - i,
{
    if i < 0 || i >= spans.len() {
        Seq::empty()
    } else {
        spans[i].text + plain_text(spans, i + 1)
    }
}

/// Coloring changes nothing but the color.
pub proof fn law_coloring_keeps_the_text(s: Seq<char>)
    ensures
        plain_text(json_spans(s), 0) == s,
{
    reveal_with_fuel(plain_text, 5);
    reveal_strlit(": ");
    lemma_spaces_end(s, 0);
    let at = spaces_end(s, 0);
    if at < s.len() {
        lemma_quote_end(s, at + 1);
    }
    assert(plain_text(json_spans(s), 0) =~= s);
}

/// The docs of an endpoint begin with its description and hold the lines of each
/// expected response, its example body among them.
pub proof fn law_docs_hold_expected_bodies(endpoint: EndpointShape, i: int)
    requires
        0 <= i < endpoint.responses.len(),
    ensures
        prose_lines(endpoint.description).is_prefix_of(docs_lines(endpoint)),
        exists|k: int|
            #[trigger] stand_at(docs_lines(endpoint), response_lines(endpoint.responses[i]), k),
        example_lines(endpoint.responses[i]).is_suffix_of(
            response_lines(endpoint.responses[i]),
        ),
{
    let head = prose_lines(endpoint.description);
    let all = docs_lines(endpoint);
    let lines = response_lines(endpoint.responses[i]);
    assert(all.subrange(0, head.len() as int) =~= head);
    let k = lemma_response_stands(endpoint.responses, 0, i);
    let rest = responses_lines(endpoint.responses, 0);
    assert(all.subrange(head.len() + k, head.len() + k + lines.len()) =~= rest.subrange(
        k,
        k + lines.len(),
    ));
    assert(stand_at(all, lines, head.len() + k));
    assert(lines.subrange(1, lines.len() as int) =~= example_lines(endpoint.responses[i]));
}

/// The lines stand in `all` from position `k` on.
pub open spec fn stand_at(
    all: Seq<Seq<SpanShape>>,
    lines: Seq<Seq<SpanShape>>,
    k: int,
) -> bool {
    &&& 0 <= k
    &&& k + lines.len() <= all.len()
    &&& all.subrange(k, k + lines.len()) == lines
}

proof fn lemma_response_stands(responses: Seq<ResponseShape>, j: int, i: int) -> (k: int)
    requires
        0 <= j <= i < responses.len(),
    ensures
        stand_at(responses_lines(responses, j), response_lines(responses[i]), k),
    decreases i - j,
{
    let here = response_lines(responses[j]);
    let rest = responses_lines(responses, j + 1);
    let all = responses_lines(responses, j);
    let lines = response_lines(responses[i]);
    if j == i {
        assert(all.subrange(0, lines.len() as int) =~= lines);
        0
    } else {
        let k = lemma_response_stands(responses, j + 1, i);
        assert(all.subrange(here.len() + k, here.len() + k + lines.len()) =~= rest.subrange(
            k,
            k + lines.len(),
        ));
        here.len() + k
    }
}

} // verus!
