//! What is drawn on the terminal: styled text, rectangles and pop-ups.

use vstd::prelude::*;
use vstd::string::*;

use crate::text;

verus! {

/// A terminal color.
#[derive(Debug, Clone, Copy, PartialEq, Eq, Structural)]
pub enum Color {
    Black,
    Red,
    Green,
    Yellow,
    Magenta,
    Cyan,
    Gray,
    DarkGray,
    White,
}

/// How a piece of text looks.
#[derive(Debug, Clone, Copy, PartialEq, Eq, Structural)]
pub struct Style {
    pub fg: Option<Color>,
    pub bg: Option<Color>,
    pub bold: bool,
    pub dim: bool,
    pub underlined: bool,
}

impl Style {
    /// The terminal's own look.
    #[verifier::allow_in_spec]
    pub fn plain() -> Style
        returns
            (Style { fg: None, bg: None, bold: false, dim: false, underlined: false }),
    {
        Style { fg: None, bg: None, bold: false, dim: false, underlined: false }
    }

    /// Text in one color.
    #[verifier::allow_in_spec]
    pub fn color(c: Color) -> Style
        returns
            (Style { fg: Some(c), bg: None, bold: false, dim: false, underlined: false }),
    {
        Style { fg: Some(c), bg: None, bold: false, dim: false, underlined: false }
    }

    /// Bold text in one color.
    #[verifier::allow_in_spec]
    pub fn strong(c: Color) -> Style
        returns
            (Style { fg: Some(c), bg: None, bold: true, dim: false, underlined: false }),
    {
        Style { fg: Some(c), bg: None, bold: true, dim: false, underlined: false }
    }

    /// The look on a colored ground.
    #[verifier::allow_in_spec]
    pub fn on(self, c: Color) -> Style
        returns
            (Style { bg: Some(c), ..self }),
    {
        Style { bg: Some(c), ..self }
    }

    /// The look, dimmed.
    #[verifier::allow_in_spec]
    pub fn dimmed(self) -> Style
        returns
            (Style { dim: true, ..self }),
    {
        Style { dim: true, ..self }
    }

    /// The look, underlined.
    #[verifier::allow_in_spec]
    pub fn with_underline(self) -> Style
        returns
            (Style { underlined: true, ..self }),
    {
        Style { underlined: true, ..self }
    }
}

/// Text in one style.
#[derive(Debug)]
pub struct Span {
    pub text: String,
    pub style: Style,
}

/// What a [`Span`] holds.
#[verifier::ext_equal]
pub struct SpanView {
    pub text: Seq<char>,
    pub style: Style,
}

impl View for Span {
    type V = SpanView;

    open spec fn view(&self) -> SpanView {
        SpanView { text: self.text@, style: self.style }
    }
}

/// One line of styled text.
#[derive(Debug)]
pub struct Line {
    pub spans: Vec<Span>,
}

impl View for Line {
    type V = Seq<SpanView>;

    open spec fn view(&self) -> Seq<SpanView> {
        Seq::new(self.spans@.len(), |i: int| self.spans@[i]@)
    }
}

/// Text in one style.
pub open spec fn span(text: Seq<char>, style: Style) -> SpanView {
    SpanView { text, style }
}

/// Lines of styled text.
pub open spec fn lines_view(v: Seq<Line>) -> Seq<Seq<SpanView>> {
    Seq::new(v.len(), |i: int| v[i]@)
}

impl Line {
    /// A line without text.
    pub fn blank() -> (r: Line)
        ensures
            r@ == Seq::<SpanView>::empty(),
    {
        let r: Line = Line { spans: Vec::new() };
        assert(r@ =~= Seq::<SpanView>::empty());
        r
    }

    /// A line of one text.
    pub fn single(text: &str, style: Style) -> (r: Line)
        ensures
            r@ == seq![span(text@, style)],
    {
        let mut r: Line = Line::blank();
        r.put(text, style);
        r
    }

    /// Adds a text.
    pub fn put(&mut self, text: &str, style: Style)
        ensures
            final(self)@ == old(self)@.push(span(text@, style)),
    {
        self.put_string(String::from_str(text), style);
    }

    /// Adds a text.
    pub fn put_string(&mut self, text: String, style: Style)
        ensures
            final(self)@ == old(self)@.push(span(text@, style)),
    {
        let ghost before = self@;
        self.spans.push(Span { text, style });
        assert(self@ =~= before.push(span(text@, style)));
    }
}

/// Adds a line.
pub fn put_line(lines: &mut Vec<Line>, line: Line)
    ensures
        lines_view(final(lines)@) == lines_view(old(lines)@).push(line@),
{
    let ghost before = lines_view(lines@);
    lines.push(line);
    assert(lines_view(lines@) =~= before.push(line@));
}

/// A rectangle of the terminal.
#[derive(Debug, Clone, Copy, PartialEq, Eq, Structural)]
pub struct Rect {
    pub x: u16,
    pub y: u16,
    pub width: u16,
    pub height: u16,
}

impl Rect {
    /// The rectangle ends where coordinates can name it.
    pub open spec fn wf(self) -> bool {
        self.x + self.width <= u16::MAX && self.y + self.height <= u16::MAX
    }
}

/// A size along the axis in which a rectangle is split.
#[derive(Debug, Clone, Copy, PartialEq, Eq, Structural)]
pub enum Size {
    /// This many cells.
    Length(u16),
    /// At least this many cells.
    Min(u16),
}

/// Whether a rectangle lies inside `area`.
pub open spec fn lies_in(r: Rect, area: Rect) -> bool {
    &&& area.x <= r.x && r.x + r.width <= area.x + area.width
    &&& area.y <= r.y && r.y + r.height <= area.y + area.height
}

/// Whether a rectangle lies inside `area` and is a slice of it across its whole
/// width, or its whole height.
pub open spec fn is_slice(r: Rect, area: Rect, vertical: bool) -> bool {
    &&& lies_in(r, area)
    &&& if vertical {
        r.x == area.x && r.width == area.width && r.y + r.height <= u16::MAX
    } else {
        r.y == area.y && r.height == area.height && r.x + r.width <= u16::MAX
    }
}

/// Whether `parts` is a division of `area` into the given sizes that the layout
/// solver came to. The solver may come to another one at another time.
pub uninterp spec fn layout_outcome(
    area: Rect,
    vertical: bool,
    sizes: Seq<Size>,
    parts: Seq<Rect>,
) -> bool;

/// `ratatui::layout::Layout::split`: slices of `area`, one for each size, from
/// the top down or from left to right, each inside the area. How the cells are
/// shared out among them is the solver's choice and is not said here.
#[verifier::external_body]
fn ratatui_split(area: Rect, vertical: bool, sizes: &Vec<Size>) -> (r: Vec<Rect>)
    ensures
        layout_outcome(area, vertical, sizes@, r@),
        r@.len() == sizes@.len(),
        forall|i: int| 0 <= i < r@.len() ==> is_slice(#[trigger] r@[i], area, vertical),
{
    let direction = if vertical {
        ratatui::layout::Direction::Vertical
    } else {
        ratatui::layout::Direction::Horizontal
    };
    let constraints = sizes.iter().map(|s| match s {
        Size::Length(n) => ratatui::layout::Constraint::Length(*n),
        Size::Min(n) => ratatui::layout::Constraint::Min(*n),
    });
    let whole = ratatui::layout::Rect { x: area.x, y: area.y, width: area.width, height: area.height };
    let parts = ratatui::layout::Layout::new(direction, constraints).split(whole);
    parts.iter().map(|p| Rect { x: p.x, y: p.y, width: p.width, height: p.height }).collect()
}

/// Splits `area` into slices, one for each size.
pub fn split(area: Rect, vertical: bool, sizes: &Vec<Size>) -> (r: Vec<Rect>)
    ensures
        layout_outcome(area, vertical, sizes@, r@),
        r@.len() == sizes@.len(),
        forall|i: int| 0 <= i < r@.len() ==> is_slice(#[trigger] r@[i], area, vertical),
{
    ratatui_split(area, vertical, sizes)
}

/// Columns that a line of the given texts takes on the terminal.
pub uninterp spec fn line_columns(texts: Seq<Seq<char>>) -> nat;

/// `ratatui::text::Line::width` of a line made of the given texts: the columns
/// it takes, by the Unicode widths of its characters.
#[verifier::external_body]
fn ratatui_width(texts: &Vec<String>) -> (r: usize)
    ensures
        r == line_columns(text::texts(texts@)),
{
    ratatui::text::Line::default().spans(texts.clone()).width()
}

/// The texts of a line.
pub open spec fn line_texts(line: Seq<SpanView>) -> Seq<Seq<char>> {
    line.map_values(|s: SpanView| s.text)
}

/// Columns that a line takes on the terminal.
pub fn columns(line: &Line) -> (r: usize)
    ensures
        r == line_columns(line_texts(line@)),
{
    let ghost all = line_texts(line@);
    let n: usize = line.spans.len();
    let mut texts: Vec<String> = Vec::new();
    let mut i: usize = 0;
    assert(text::texts(texts@) =~= all.take(0));
    while i < n
        invariant
            n == line.spans@.len(),
            all == line_texts(line@),
            i <= n,
            text::texts(texts@) == all.take(i as int),
        decreases n - i,
    {
        assert(line@[i as int] == line.spans@[i as int]@);
        text::put_line(&mut texts, line.spans[i].text.clone());
        i = i + 1;
        assert(all.take(i - 1).push(all[i - 1]) =~= all.take(i as int));
    }
    assert(all.take(n as int) =~= all);
    ratatui_width(&texts)
}

/// A count as a screen coordinate; 0 for a count that is too large for one.
pub open spec fn cells(n: int) -> u16 {
    if 0 <= n <= u16::MAX {
        n as u16
    } else {
        0
    }
}

pub fn to_cells(n: usize) -> (r: u16)
    ensures
        r == cells(n as int),
{
    if n <= u16::MAX as usize {
        n as u16
    } else {
        0
    }
}

pub open spec fn min_int(a: int, b: int) -> int {
    if a < b {
        a
    } else {
        b
    }
}

pub open spec fn max_int(a: int, b: int) -> int {
    if a > b {
        a
    } else {
        b
    }
}

/// The columns of the widest of the first `n` lines.
pub open spec fn widest(lines: Seq<Seq<SpanView>>, n: nat) -> u16
    decreases n,
{
    if n == 0 {
        0
    } else {
        let rest = widest(lines, (n - 1) as nat);
        let own = cells(line_columns(line_texts(lines[n - 1])) as int);
        if own > rest {
            own
        } else {
            rest
        }
    }
}

/// The columns of the widest line.
pub fn widest_line(lines: &Vec<Line>) -> (r: u16)
    ensures
        r == widest(lines_view(lines@), lines@.len()),
{
    let n: usize = lines.len();
    let mut w: u16 = 0;
    let mut i: usize = 0;
    while i < n
        invariant
            n == lines@.len(),
            i <= n,
            w == widest(lines_view(lines@), i as nat),
        decreases n - i,
    {
        assert(lines_view(lines@)[i as int] == lines@[i as int]@);
        let own: u16 = to_cells(columns(&lines[i]));
        if own > w {
            w = own;
        }
        i = i + 1;
    }
    w
}

/// Characters of a line.
pub open spec fn char_count(line: Seq<SpanView>) -> nat
    decreases line.len(),
{
    if line.len() == 0 {
        0
    } else {
        char_count(line.drop_last()) + line.last().text.len()
    }
}

/// The most characters of one of the first `n` lines.
pub open spec fn longest(lines: Seq<Seq<SpanView>>, n: nat) -> u16
    decreases n,
{
    if n == 0 {
        0
    } else {
        let rest = longest(lines, (n - 1) as nat);
        let own = cells(char_count(lines[n - 1]) as int);
        if own > rest {
            own
        } else {
            rest
        }
    }
}

/// Characters of a line, capped just above the largest coordinate.
fn count_chars(line: &Line) -> (r: usize)
    ensures
        r == min_int(char_count(line@) as int, u16::MAX + 1),
{
    let n: usize = line.spans.len();
    let mut total: usize = 0;
    let mut i: usize = 0;
    assert(line@.take(0) =~= Seq::<SpanView>::empty());
    while i < n
        invariant
            n == line.spans@.len(),
            i <= n,
            total == min_int(char_count(line@.take(i as int)) as int, u16::MAX + 1),
        decreases n - i,
    {
        assert(line@[i as int] == line.spans@[i as int]@);
        assert(line@.take(i + 1).drop_last() =~= line@.take(i as int));
        assert(line@.take(i + 1).last() == line@[i as int]);
        let own: usize = line.spans[i].text.as_str().unicode_len();
        if total > u16::MAX as usize || own > u16::MAX as usize - total {
            total = u16::MAX as usize + 1;
        } else {
            total = total + own;
        }
        i = i + 1;
    }
    assert(line@.take(n as int) =~= line@);
    total
}

/// The most characters of a line.
pub fn longest_line(lines: &Vec<Line>) -> (r: u16)
    ensures
        r == longest(lines_view(lines@), lines@.len()),
{
    let n: usize = lines.len();
    let mut w: u16 = 0;
    let mut i: usize = 0;
    while i < n
        invariant
            n == lines@.len(),
            i <= n,
            w == longest(lines_view(lines@), i as nat),
        decreases n - i,
    {
        assert(lines_view(lines@)[i as int] == lines@[i as int]@);
        let own: u16 = to_cells(count_chars(&lines[i]));
        if own > w {
            w = own;
        }
        i = i + 1;
    }
    w
}

/// Side of a pop-up around `content` cells, `frame` of them for its frame: as
/// much as it needs, at most the space less two cells, at least `least`.
pub open spec fn popup_side(content: u16, frame: int, space: u16, least: u16) -> u16 {
    max_int(
        min_int(min_int(content + frame, u16::MAX as int), max_int(space - 2, 0)),
        least as int,
    ) as u16
}

/// The pop-up in the middle of `area` for content of the given size.
pub open spec fn popup_rect(
    area: Rect,
    content_w: u16,
    content_h: u16,
    least_w: u16,
    least_h: u16,
) -> Rect {
    let width = popup_side(content_w, 4, area.width, least_w);
    let height = popup_side(content_h, 2, area.height, least_h);
    Rect {
        x: (area.x + max_int(area.width - width, 0) / 2) as u16,
        y: (area.y + max_int(area.height - height, 0) / 2) as u16,
        width,
        height,
    }
}

fn side(content: u16, frame: u16, space: u16, least: u16) -> (r: u16)
    ensures
        r == popup_side(content, frame as int, space, least),
{
    let want: u16 = content.saturating_add(frame);
    let room: u16 = space.saturating_sub(2);
    let fit: u16 = if want < room {
        want
    } else {
        room
    };
    if fit > least {
        fit
    } else {
        least
    }
}

/// The pop-up in the middle of `area` for content of the given size.
pub fn popup(area: Rect, content_w: u16, content_h: u16, least_w: u16, least_h: u16) -> (r: Rect)
    requires
        area.wf(),
    ensures
        r == popup_rect(area, content_w, content_h, least_w, least_h),
{
    let width: u16 = side(content_w, 4, area.width, least_w);
    let height: u16 = side(content_h, 2, area.height, least_h);
    Rect {
        x: area.x + area.width.saturating_sub(width) / 2,
        y: area.y + area.height.saturating_sub(height) / 2,
        width,
        height,
    }
}

/// How far `content_h` lines can be scrolled in a pop-up of the given height.
pub open spec fn scroll_range(content_h: u16, height: u16) -> u16 {
    max_int(content_h - max_int(height - 2, 0), 0) as u16
}

pub fn scroll_limit(content_h: u16, height: u16) -> (r: u16)
    ensures
        r == scroll_range(content_h, height),
{
    content_h.saturating_sub(height.saturating_sub(2))
}

/// How far `content_h` lines can be scrolled in their pop-up on a terminal of
/// `term_h` rows.
pub open spec fn max_scroll(content_h: u16, term_h: u16, least_h: u16) -> u16 {
    scroll_range(content_h, popup_side(content_h, 2, term_h, least_h))
}

pub fn max_scroll_of(content_h: u16, term_h: u16, least_h: u16) -> (r: u16)
    ensures
        r == max_scroll(content_h, term_h, least_h),
{
    scroll_limit(content_h, side(content_h, 2, term_h, least_h))
}

/// A pop-up lies inside an area that is large enough for its least size and two
/// cells more.
pub proof fn law_popup_lies_inside(
    area: Rect,
    content_w: u16,
    content_h: u16,
    least_w: u16,
    least_h: u16,
)
    requires
        area.wf(),
        area.width >= least_w + 2,
        area.height >= least_h + 2,
    ensures
        ({
            let r = popup_rect(area, content_w, content_h, least_w, least_h);
            &&& area.x <= r.x && r.x + r.width <= area.x + area.width
            &&& area.y <= r.y && r.y + r.height <= area.y + area.height
        }),
{
}

/// A pop-up is as large as its content and its frame, but two cells smaller than
/// the area, and not below its least size; it stands in the middle of the area,
/// with the odd cell at the right and at the bottom.
pub proof fn law_popup_is_centered(
    area: Rect,
    content_w: u16,
    content_h: u16,
    least_w: u16,
    least_h: u16,
)
    requires
        area.wf(),
        content_w <= 65_531,
        content_h <= 65_533,
    ensures
        ({
            let r = popup_rect(area, content_w, content_h, least_w, least_h);
            let fits_w = content_w + 6 <= area.width;
            let fits_h = content_h + 4 <= area.height;
            &&& r.width >= least_w && r.height >= least_h
            &&& fits_w && content_w + 4 >= least_w ==> r.width == content_w + 4
            &&& fits_h && content_h + 2 >= least_h ==> r.height == content_h + 2
            &&& !fits_w && area.width >= least_w + 2 ==> r.width == area.width - 2
            &&& !fits_h && area.height >= least_h + 2 ==> r.height == area.height - 2
            &&& fits_w && content_w + 4 < least_w ==> r.width == least_w
            &&& fits_h && content_h + 2 < least_h ==> r.height == least_h
            &&& area.width < least_w + 2 ==> r.width == least_w
            &&& area.height < least_h + 2 ==> r.height == least_h
            &&& r.width <= area.width ==> {
                let right = area.x + area.width - (r.x + r.width);
                right - (r.x - area.x) == 0 || right - (r.x - area.x) == 1
            }
            &&& r.height <= area.height ==> {
                let below = area.y + area.height - (r.y + r.height);
                below - (r.y - area.y) == 0 || below - (r.y - area.y) == 1
            }
            &&& r.width > area.width ==> r.x == area.x
            &&& r.height > area.height ==> r.y == area.y
        }),
{
}

/// A pop-up can be scrolled by as many lines as it has no room for between its
/// borders.
pub proof fn law_scroll_range(content_h: u16, height: u16, term_h: u16, least_h: u16)
    ensures
        height >= 2 && content_h <= height - 2 ==> scroll_range(content_h, height) == 0,
        height >= 2 && content_h > height - 2 ==> scroll_range(content_h, height) + (height - 2)
            == content_h,
        height < 2 ==> scroll_range(content_h, height) == content_h,
        max_scroll(content_h, term_h, least_h) == scroll_range(
            content_h,
            popup_rect(
                Rect { x: 0, y: 0, width: 0, height: term_h },
                0,
                content_h,
                0,
                least_h,
            ).height,
        ),
{
}

/// A count is a coordinate where sixteen bits hold it, and 0 otherwise.
pub proof fn law_cells(n: int)
    ensures
        0 <= n <= 65_535 ==> cells(n) == n,
        n > 65_535 ==> cells(n) == 0,
{
}

/// The characters of a line are those of its parts together.
pub proof fn law_characters_of_a_line(line: Seq<SpanView>, part: SpanView)
    ensures
        char_count(Seq::empty()) == 0,
        char_count(line.push(part)) == char_count(line) + part.text.len(),
{
    assert(line.push(part).drop_last() =~= line);
}

/// The widest and the longest line are lines that none is wider, or longer,
/// than.
pub proof fn law_widest_and_longest(lines: Seq<Seq<SpanView>>, i: int)
    requires
        0 <= i < lines.len(),
    ensures
        cells(char_count(lines[i]) as int) <= longest(lines, lines.len()),
        exists|j: int|
            0 <= j < lines.len() && longest(lines, lines.len()) == cells(
                char_count(#[trigger] lines[j]) as int,
            ),
        cells(line_columns(line_texts(lines[i])) as int) <= widest(lines, lines.len()),
        exists|j: int|
            0 <= j < lines.len() && widest(lines, lines.len()) == cells(
                line_columns(line_texts(#[trigger] lines[j])) as int,
            ),
{
    lemma_longest(lines, lines.len(), i);
    lemma_widest(lines, lines.len(), i);
}

proof fn lemma_longest(lines: Seq<Seq<SpanView>>, n: nat, i: int)
    requires
        0 <= i < n <= lines.len(),
    ensures
        cells(char_count(lines[i]) as int) <= longest(lines, n),
        exists|j: int|
            0 <= j < n && longest(lines, n) == cells(char_count(#[trigger] lines[j]) as int),
    decreases n,
{
    let own = cells(char_count(lines[n - 1]) as int);
    if n > 1 {
        lemma_longest(
            lines,
            (n - 1) as nat,
            if i < n - 1 {
                i
            } else {
                0
            },
        );
        if own <= longest(lines, (n - 1) as nat) {
            let j = choose|j: int|
                0 <= j < n - 1 && longest(lines, (n - 1) as nat) == cells(
                    char_count(#[trigger] lines[j]) as int,
                );
            assert(longest(lines, n) == cells(char_count(lines[j]) as int));
        } else {
            assert(longest(lines, n) == cells(char_count(lines[n - 1]) as int));
        }
    } else {
        assert(longest(lines, 0) == 0);
        assert(longest(lines, n) == cells(char_count(lines[n - 1]) as int));
    }
}

proof fn lemma_widest(lines: Seq<Seq<SpanView>>, n: nat, i: int)
    requires
        0 <= i < n <= lines.len(),
    ensures
        cells(line_columns(line_texts(lines[i])) as int) <= widest(lines, n),
        exists|j: int|
            0 <= j < n && widest(lines, n) == cells(
                line_columns(line_texts(#[trigger] lines[j])) as int,
            ),
    decreases n,
{
    let own = cells(line_columns(line_texts(lines[n - 1])) as int);
    if n > 1 {
        lemma_widest(
            lines,
            (n - 1) as nat,
            if i < n - 1 {
                i
            } else {
                0
            },
        );
        if own <= widest(lines, (n - 1) as nat) {
            let j = choose|j: int|
                0 <= j < n - 1 && widest(lines, (n - 1) as nat) == cells(
                    line_columns(line_texts(#[trigger] lines[j])) as int,
                );
            assert(widest(lines, n) == cells(line_columns(line_texts(lines[j])) as int));
        } else {
            assert(widest(lines, n) == cells(line_columns(line_texts(lines[n - 1])) as int));
        }
    } else {
        assert(widest(lines, 0) == 0);
        assert(widest(lines, n) == cells(line_columns(line_texts(lines[n - 1])) as int));
    }
}

/// What a line holds is what its parts hold, in order.
pub proof fn law_line_view(line: Line, i: int)
    ensures
        line@.len() == line.spans@.len(),
        0 <= i < line.spans@.len() ==> line@[i].text == line.spans@[i].text@ && line@[i].style
            == line.spans@[i].style,
{
}

} // verus!
