//! Rendering pipeline: tab expansion, character-wise text wrapping of styled
//! spans, line-number gutters and grid borders, and the inverse stripping of
//! all decoration back to the plain source text.

use vstd::prelude::*;

verus! {

use crate::chunk::Chunk;

/// How over-long rendered lines are treated.
#[derive(Clone, Copy, Debug, PartialEq, Eq, Structural)]
pub enum TextWrapMode {
    /// Hard-wrap at character boundaries once a line exceeds the terminal width.
    Char,
    /// Emit lines unwrapped, letting them overflow the terminal.
    Never,
}

/// Which rendering backend drives the output.
#[derive(Clone, Copy, Debug, PartialEq, Eq, Structural)]
pub enum PrinterKind {
    /// The in-process highlighting backend; supports background painting and
    /// ASCII border lines.
    Syntect,
    /// An external-process backend that supports neither.
    Bat,
}

/// Formatting configuration, immutable for a whole run and shared read-only
/// across all concurrent renders.
#[derive(Clone, Debug)]
pub struct PrinterOptions {
    /// Spaces per tab stop; zero passes tabs through unmodified.
    pub tab_width: u64,
    /// Color theme name for the highlighting engine.
    pub theme: Option<String>,
    /// Draw a line-number gutter and border lines.
    pub grid: bool,
    /// Width of the terminal window in characters.
    pub term_width: u64,
    /// Wrapping of over-long lines.
    pub text_wrap: TextWrapMode,
    /// Render only the first chunk of each file.
    pub first_only: bool,
    /// Paint background colors.
    pub background_color: bool,
    /// Draw border lines with ASCII characters instead of Unicode glyphs.
    pub ascii_lines: bool,
}

impl Default for PrinterOptions {
    /// Defaults: four-space tabs, grid on, an eighty-column terminal,
    /// character-wise wrapping, every chunk, no background painting,
    /// Unicode borders.
    fn default() -> (r: Self)
        ensures
            r.tab_width == 4,
            r.theme is None,
            r.grid,
            r.term_width == 80,
            r.text_wrap == TextWrapMode::Char,
            !r.first_only,
            !r.background_color,
            !r.ascii_lines,
    {
        PrinterOptions {
            tab_width: 4,
            theme: None,
            grid: true,
            term_width: 80,
            text_wrap: TextWrapMode::Char,
            first_only: false,
            background_color: false,
            ascii_lines: false,
        }
    }
}

/// Everything that can go wrong before or during a run.
#[derive(Clone, Copy, Debug, PartialEq, Eq, Structural)]
pub enum Error {
    /// `term_width` was configured below the minimum of ten columns;
    /// carries the offending value.
    TermWidthTooSmall(u64),
    /// Background painting was requested from a backend that cannot paint
    /// backgrounds.
    BackgroundNotSupported,
    /// ASCII border lines were requested from a backend that cannot draw them.
    AsciiLinesNotSupported,
    /// A file type name was not among the known definitions.
    UnknownFileType,
    /// A search pattern or glob could not be compiled.
    BadPattern,
    /// Reading a file or writing to the output sink failed.
    Io,
}

/// The smallest terminal width the renderer accepts.
pub const MIN_TERM_WIDTH: u64 = 10;

/// Validate and finish the formatting configuration: the terminal width must
/// be at least `MIN_TERM_WIDTH`, an explicit positive grid flag wins over the
/// negative one, and background painting and ASCII border lines are only
/// offered by the in-process backend.
pub fn build_printer_options(
    kind: PrinterKind,
    tab_width: u64,
    theme: Option<String>,
    grid_flag: bool,
    no_grid_flag: bool,
    term_width: Option<u64>,
    text_wrap: TextWrapMode,
    first_only: bool,
    background_color: bool,
    ascii_lines: bool,
) -> (r: Result<PrinterOptions, Error>)
    ensures
        ({
            let width = if term_width is Some {
                term_width->0
            } else {
                80
            };
            match r {
                Ok(o) => {
                    &&& width >= MIN_TERM_WIDTH
                    &&& !(background_color && kind == PrinterKind::Bat)
                    &&& !(ascii_lines && kind == PrinterKind::Bat)
                    &&& o.tab_width == tab_width
                    &&& o.theme == theme
                    &&& o.grid == (grid_flag || !no_grid_flag)
                    &&& o.term_width == width
                    &&& o.text_wrap == text_wrap
                    &&& o.first_only == first_only
                    &&& o.background_color == background_color
                    &&& o.ascii_lines == ascii_lines
                },
                Err(e) => {
                    &&& (e == Error::TermWidthTooSmall(width) && width < MIN_TERM_WIDTH) || (e
                        == Error::BackgroundNotSupported && background_color && kind
                        == PrinterKind::Bat && width >= MIN_TERM_WIDTH) || (e
                        == Error::AsciiLinesNotSupported && ascii_lines && kind == PrinterKind::Bat
                        && width >= MIN_TERM_WIDTH && !background_color)
                },
            }
        }),
{
    let width = match term_width {
        Some(w) => w,
        None => 80,
    };
    if width < MIN_TERM_WIDTH {
        return Err(Error::TermWidthTooSmall(width));
    }
    if background_color && kind == PrinterKind::Bat {
        return Err(Error::BackgroundNotSupported);
    }
    if ascii_lines && kind == PrinterKind::Bat {
        return Err(Error::AsciiLinesNotSupported);
    }
    Ok(
        PrinterOptions {
            tab_width,
            theme,
            grid: grid_flag || !no_grid_flag,
            term_width: width,
            text_wrap,
            first_only,
            background_color,
            ascii_lines,
        },
    )
}

/// A run of `k` spaces.
pub open spec fn spaces(k: int) -> Seq<char> {
    Seq::new(k as nat, |i: int| ' ')
}

/// Tab expansion of the suffix of a line that starts at display column `col`:
/// each tab becomes the spaces needed to reach the next multiple of `w`;
/// every other character advances the column by one. With `w == 0` tabs pass
/// through unmodified.
pub open spec fn expand_tabs_from(s: Seq<char>, w: int, col: int) -> Seq<char>
    decreases s.len(),
{
    if s.len() == 0 {
        Seq::<char>::empty()
    } else if s.first() == '\t' && w > 0 {
        let pad = w - (col % w);
        spaces(pad) + expand_tabs_from(s.drop_first(), w, col + pad)
    } else {
        seq![s.first()] + expand_tabs_from(s.drop_first(), w, col + 1)
    }
}

/// Tab expansion of a whole line.
pub open spec fn expand_tabs_spec(s: Seq<char>, w: int) -> Seq<char> {
    expand_tabs_from(s, w, 0)
}

/// Replace each tab with spaces up to the next multiple of `tab_width`
/// columns from the line start; `tab_width == 0` passes tabs through.
pub fn expand_tabs(line: &Vec<char>, tab_width: u64) -> (r: Vec<char>)
    requires
        tab_width <= usize::MAX,
        line@.len() * (if tab_width == 0 {
            1int
        } else {
            tab_width as int
        }) <= usize::MAX,
    ensures
        r@ == expand_tabs_spec(line@, tab_width as int),
{
    let ghost w = tab_width as int;
    let ghost step: int = if tab_width == 0 {
        1int
    } else {
        tab_width as int
    };
    let mut r: Vec<char> = Vec::new();
    let mut i: usize = 0;
    proof {
        assert(line@.skip(0) =~= line@);
        assert(r@ + expand_tabs_from(line@, w, 0) =~= expand_tabs_from(line@, w, 0));
    }
    while i < line.len()
        invariant
            i <= line@.len(),
            tab_width <= usize::MAX,
            line@.len() * step <= usize::MAX,
            step == if tab_width == 0 {
                1int
            } else {
                tab_width as int
            },
            w == tab_width as int,
            r@.len() <= i * step,
            r@ + expand_tabs_from(line@.skip(i as int), w, r@.len() as int) == expand_tabs_spec(
                line@,
                w,
            ),
        decreases line@.len() - i,
    {
        let c = line[i];
        proof {
            assert(line@.skip(i as int).len() > 0);
            assert(line@.skip(i as int).first() == c);
            assert(line@.skip(i as int).drop_first() =~= line@.skip(i + 1));
            vstd::arithmetic::mul::lemma_mul_inequality(i + 1, line@.len() as int, step);
            assert((i + 1) * step == i * step + step) by {
                vstd::arithmetic::mul::lemma_mul_is_distributive_add_other_way(step, i as int, 1);
            }
        }
        let ghost r0 = r@;
        let ghost col0 = r@.len() as int;
        if c == '\t' && tab_width > 0 {
            let col_in_stop = (r.len() as u64) % tab_width;
            let pad = tab_width - col_in_stop;
            proof {
                assert(pad == w - (col0 % w)) by {
                    vstd::arithmetic::div_mod::lemma_mod_bound(col0, w);
                }
                assert(1 <= pad <= w);
                assert(col0 + pad <= (i + 1) * step);
            }
            let mut k: u64 = 0;
            while k < pad
                invariant
                    k <= pad,
                    pad <= tab_width <= usize::MAX,
                    r@.len() == col0 + k,
                    col0 + pad <= usize::MAX,
                    r@ == r0 + spaces(k as int),
                decreases pad - k,
            {
                r.push(' ');
                k = k + 1;
                proof {
                    assert(r@ =~= r0 + spaces(k as int));
                }
            }
            proof {
                assert(expand_tabs_from(line@.skip(i as int), w, col0) == spaces(pad as int)
                    + expand_tabs_from(line@.skip(i + 1), w, col0 + pad));
                assert(r@ + expand_tabs_from(line@.skip(i + 1), w, r@.len() as int) =~= r0
                    + expand_tabs_from(line@.skip(i as int), w, col0));
            }
        } else {
            r.push(c);
            proof {
                assert(expand_tabs_from(line@.skip(i as int), w, col0) == seq![c]
                    + expand_tabs_from(line@.skip(i + 1), w, col0 + 1));
                assert(r@ + expand_tabs_from(line@.skip(i + 1), w, r@.len() as int) =~= r0
                    + expand_tabs_from(line@.skip(i as int), w, col0));
            }
        }
        i = i + 1;
    }
    proof {
        assert(line@.skip(line@.len() as int) =~= Seq::<char>::empty());
        assert(r@ + Seq::<char>::empty() =~= r@);
    }
    r
}

/// One styled run of text within a rendered line; the style is the opaque
/// identifier the highlighting engine assigned to the token.
pub struct Span {
    pub style: u64,
    pub text: Vec<char>,
}

/// Mathematical model of a span.
#[verifier::ext_equal]
pub struct SpanView {
    pub style: u64,
    pub text: Seq<char>,
}

impl View for Span {
    type V = SpanView;

    open spec fn view(&self) -> SpanView {
        SpanView { style: self.style, text: self.text@ }
    }
}

/// A sequence of spans as seen through their views.
pub open spec fn spans_view(s: Seq<Span>) -> Seq<SpanView> {
    s.map_values(|x: Span| x@)
}

/// The styled characters of a row of spans: one `(style, character)` pair per
/// character, in order.
pub open spec fn styled_chars(row: Seq<SpanView>) -> Seq<(u64, char)>
    decreases row.len(),
{
    if row.len() == 0 {
        Seq::<(u64, char)>::empty()
    } else {
        styled_chars(row.drop_last()) + row.last().text.map_values(
            |c: char| (row.last().style, c),
        )
    }
}

/// The styled characters of a sequence of rows, in order.
pub open spec fn rows_styled_chars(rows: Seq<Seq<SpanView>>) -> Seq<(u64, char)>
    decreases rows.len(),
{
    if rows.len() == 0 {
        Seq::<(u64, char)>::empty()
    } else {
        rows_styled_chars(rows.drop_last()) + styled_chars(rows.last())
    }
}

/// Wrapped rows as seen through their views.
pub open spec fn rows_view(rows: Seq<Vec<Span>>) -> Seq<Seq<SpanView>> {
    rows.map_values(|r: Vec<Span>| spans_view(r@))
}

proof fn lemma_styled_chars_push(row: Seq<SpanView>, s: SpanView)
    ensures
        styled_chars(row.push(s)) == styled_chars(row) + s.text.map_values(|c: char| (s.style, c)),
{
    assert(row.push(s).drop_last() =~= row);
    assert(row.push(s).last() == s);
}

proof fn lemma_rows_styled_chars_push(rows: Seq<Seq<SpanView>>, r: Seq<SpanView>)
    ensures
        rows_styled_chars(rows.push(r)) == rows_styled_chars(rows) + styled_chars(r),
{
    assert(rows.push(r).drop_last() =~= rows);
    assert(rows.push(r).last() == r);
}

/// Copy of `v[from..to]`.
fn subvec(v: &Vec<char>, from: usize, to: usize) -> (r: Vec<char>)
    requires
        from <= to <= v@.len(),
    ensures
        r@ == v@.subrange(from as int, to as int),
{
    let mut r: Vec<char> = Vec::new();
    let mut i: usize = from;
    proof {
        assert(r@ =~= v@.subrange(from as int, from as int));
    }
    while i < to
        invariant
            from <= i <= to <= v@.len(),
            r@ == v@.subrange(from as int, i as int),
        decreases to - i,
    {
        r.push(v[i]);
        i = i + 1;
        proof {
            assert(r@ =~= v@.subrange(from as int, i as int));
        }
    }
    r
}

/// Hard-wrap a row of styled spans at character boundaries into rows of at
/// most `width` display columns. Every row but the last is exactly full; the
/// styled characters of all rows read in order are exactly those of the
/// input, so no character loses its token's styling at a wrap boundary.
pub fn wrap_spans(spans: &Vec<Span>, width: usize) -> (rows: Vec<Vec<Span>>)
    requires
        width >= 1,
    ensures
        rows@.len() >= 1,
        rows_styled_chars(rows_view(rows@)) == styled_chars(spans_view(spans@)),
        forall|i: int|
            0 <= i < rows@.len() ==> styled_chars(spans_view(#[trigger] rows@[i]@)).len() <= width,
        forall|i: int|
            0 <= i < rows@.len() - 1 ==> styled_chars(spans_view(#[trigger] rows@[i]@)).len()
                == width,
        styled_chars(spans_view(spans@)).len() > 0 ==> styled_chars(
            spans_view(rows@.last()@),
        ).len() > 0,
{
    let mut rows: Vec<Vec<Span>> = Vec::new();
    let mut cur: Vec<Span> = Vec::new();
    let mut cur_w: usize = 0;
    let mut si: usize = 0;
    proof {
        assert(spans_view(spans@.take(0)) =~= Seq::<SpanView>::empty());
        assert(rows_view(rows@) =~= Seq::<Seq<SpanView>>::empty());
        assert(spans_view(cur@) =~= Seq::<SpanView>::empty());
        assert(rows_styled_chars(rows_view(rows@)) + styled_chars(spans_view(cur@))
            =~= styled_chars(spans_view(spans@.take(0))));
    }
    while si < spans.len()
        invariant
            width >= 1,
            si <= spans@.len(),
            cur_w == styled_chars(spans_view(cur@)).len() <= width,
            styled_chars(spans_view(spans@.take(si as int))).len() > 0 ==> cur_w > 0,
            forall|i: int|
                0 <= i < rows@.len() ==> styled_chars(spans_view(#[trigger] rows@[i]@)).len()
                    == width,
            rows_styled_chars(rows_view(rows@)) + styled_chars(spans_view(cur@)) == styled_chars(
                spans_view(spans@.take(si as int)),
            ),
        decreases spans@.len() - si,
    {
        let ghost prefix = styled_chars(spans_view(spans@.take(si as int)));
        let style = spans[si].style;
        let ghost stext = spans@[si as int]@.text;
        let mut pos: usize = 0;
        proof {
            assert(stext.subrange(0, 0) =~= Seq::<char>::empty());
            assert(prefix + stext.subrange(0, 0).map_values(|c: char| (style, c)) =~= prefix);
        }
        while pos < spans[si].text.len()
            invariant
                width >= 1,
                si < spans@.len(),
                style == spans@[si as int].style,
                stext == spans@[si as int]@.text,
                pos <= stext.len(),
                cur_w == styled_chars(spans_view(cur@)).len() <= width,
                prefix.len() + pos > 0 ==> cur_w > 0,
                forall|i: int|
                    0 <= i < rows@.len() ==> styled_chars(spans_view(#[trigger] rows@[i]@)).len()
                        == width,
                rows_styled_chars(rows_view(rows@)) + styled_chars(spans_view(cur@)) == prefix
                    + stext.subrange(0, pos as int).map_values(|c: char| (style, c)),
                prefix == styled_chars(spans_view(spans@.take(si as int))),
            decreases stext.len() - pos,
        {
            if cur_w == width {
                let ghost rows0 = rows@;
                let ghost cur0 = cur@;
                let full = cur;
                rows.push(full);
                cur = Vec::new();
                cur_w = 0;
                proof {
                    lemma_rows_styled_chars_push(rows_view(rows0), spans_view(cur0));
                    assert(rows_view(rows@) =~= rows_view(rows0).push(spans_view(cur0)));
                    assert(spans_view(cur@) =~= Seq::<SpanView>::empty());
                    assert(rows_styled_chars(rows_view(rows@)) + styled_chars(spans_view(cur@))
                        =~= prefix + stext.subrange(0, pos as int).map_values(
                        |c: char| (style, c),
                    ));
                    assert(forall|i: int|
                        0 <= i < rows0.len() ==> rows0[i] == #[trigger] rows@[i]);
                    assert(spans_view(rows@[rows@.len() - 1]@) == spans_view(cur0));
                }
            }
            let remaining = spans[si].text.len() - pos;
            let room = width - cur_w;
            let take = if remaining < room {
                remaining
            } else {
                room
            };
            let piece = subvec(&spans[si].text, pos, pos + take);
            let sp = Span { style, text: piece };
            let ghost cur0 = cur@;
            cur.push(sp);
            proof {
                lemma_styled_chars_push(spans_view(cur0), sp@);
                assert(spans_view(cur@) =~= spans_view(cur0).push(sp@));
                assert(styled_chars(spans_view(cur@)) == styled_chars(spans_view(cur0))
                    + sp@.text.map_values(|c: char| (style, c)));
                assert(stext.subrange(0, pos + take).map_values(|c: char| (style, c))
                    =~= stext.subrange(0, pos as int).map_values(|c: char| (style, c))
                    + stext.subrange(pos as int, pos + take).map_values(|c: char| (style, c)));
                assert(sp@.text.map_values(|c: char| (style, c)) == stext.subrange(
                    pos as int,
                    pos + take,
                ).map_values(|c: char| (style, c)));
                assert(styled_chars(spans_view(cur@)) =~= styled_chars(spans_view(cur0))
                    + stext.subrange(pos as int, pos + take).map_values(|c: char| (style, c)));
                assert(rows_styled_chars(rows_view(rows@)) + styled_chars(spans_view(cur@)) =~= (
                rows_styled_chars(rows_view(rows@)) + styled_chars(spans_view(cur0)))
                    + stext.subrange(pos as int, pos + take).map_values(|c: char| (style, c)));
                assert(rows_styled_chars(rows_view(rows@)) + styled_chars(spans_view(cur@))
                    =~= prefix + stext.subrange(0, pos + take).map_values(|c: char| (style, c)));
            }
            cur_w = cur_w + take;
            pos = pos + take;
        }
        si = si + 1;
        proof {
            assert(spans_view(spans@.take(si as int)).drop_last() =~= spans_view(
                spans@.take(si - 1),
            ));
            assert(spans_view(spans@.take(si as int)).last() == spans@[si - 1]@);
            assert(styled_chars(spans_view(spans@.take(si as int))) == styled_chars(
                spans_view(spans@.take(si - 1)),
            ) + stext.map_values(|c: char| (style, c)));
            assert(stext.subrange(0, stext.len() as int) =~= stext);
        }
    }
    proof {
        assert(spans@.take(spans@.len() as int) =~= spans@);
    }
    let ghost rows0 = rows@;
    let ghost cur0 = cur@;
    let last = cur;
    rows.push(last);
    proof {
        lemma_rows_styled_chars_push(rows_view(rows0), spans_view(cur0));
        assert(rows_view(rows@) =~= rows_view(rows0).push(spans_view(cur0)));
        assert(forall|i: int| 0 <= i < rows0.len() ==> rows0[i] == #[trigger] rows@[i]);
        assert(spans_view(rows@[rows@.len() - 1]@) == spans_view(cur0));
    }
    rows
}

/// Number of decimal digits of `n`.
pub open spec fn dec_len(n: int) -> int
    decreases n,
{
    if n < 10 {
        1
    } else {
        1 + dec_len(n / 10)
    }
}

/// Count the decimal digits of `n`.
pub fn digit_count(n: u64) -> (r: u64)
    ensures
        r == dec_len(n as int),
        1 <= r,
        r as int <= if n < 10 {
            1int
        } else {
            n as int
        },
    decreases n,
{
    if n < 10 {
        1
    } else {
        1 + digit_count(n / 10)
    }
}

/// Width of the line-number gutter: the digits of the largest line number of
/// the chunk, a marker column, the separator and one space. Without the grid
/// there is no gutter.
pub open spec fn gutter_width(grid: bool, end: int) -> int {
    if grid {
        dec_len(end) + 3
    } else {
        0
    }
}

/// Columns left for the code text once the gutter is subtracted from the
/// terminal width, never less than one.
pub open spec fn body_width_spec(term_width: int, grid: bool, end: int) -> int {
    if term_width - gutter_width(grid, end) >= 1 {
        term_width - gutter_width(grid, end)
    } else {
        1
    }
}

/// True iff `x` occurs in `v`.
pub fn contains_line(v: &Vec<u64>, x: u64) -> (r: bool)
    ensures
        r == v@.contains(x),
{
    let mut i: usize = 0;
    while i < v.len()
        invariant
            i <= v@.len(),
            forall|k: int| 0 <= k < i ==> v@[k] != x,
        decreases v@.len() - i,
    {
        if v[i] == x {
            return true;
        }
        i = i + 1;
    }
    proof {
        assert(!v@.contains(x));
    }
    false
}

/// One source line as rendered: its number, whether it holds a match, and
/// its wrapped rows of styled spans.
pub struct RenderedLine {
    pub line_number: u64,
    pub matched: bool,
    pub rows: Vec<Vec<Span>>,
}

/// Mathematical model of a rendered line.
#[verifier::ext_equal]
pub struct RenderedLineView {
    pub line_number: u64,
    pub matched: bool,
    pub rows: Seq<Seq<SpanView>>,
}

impl View for RenderedLine {
    type V = RenderedLineView;

    open spec fn view(&self) -> RenderedLineView {
        RenderedLineView {
            line_number: self.line_number,
            matched: self.matched,
            rows: rows_view(self.rows@),
        }
    }
}

/// Copy of a row of spans.
fn copy_spans(v: &Vec<Span>) -> (r: Vec<Span>)
    ensures
        spans_view(r@) == spans_view(v@),
{
    let mut r: Vec<Span> = Vec::new();
    let mut i: usize = 0;
    while i < v.len()
        invariant
            i <= v@.len(),
            spans_view(r@) == spans_view(v@).take(i as int),
        decreases v@.len() - i,
    {
        let text = subvec(&v[i].text, 0, v[i].text.len());
        proof {
            assert(v@[i as int]@.text.subrange(0, v@[i as int]@.text.len() as int) =~= v@[
                i as int]@.text);
        }
        let ghost r0 = r@;
        let sp = Span { style: v[i].style, text };
        proof {
            assert(sp@ == v@[i as int]@);
        }
        r.push(sp);
        i = i + 1;
        proof {
            assert(spans_view(r0).len() == r0.len());
            assert(spans_view(v@).take(i - 1).len() == i - 1);
            assert(r@ == r0.push(sp));
            assert(r@.len() == i as int);
            assert forall|kk: int| 0 <= kk < i implies spans_view(r@)[kk] == spans_view(v@).take(
                i as int,
            )[kk] by {
                if kk < i - 1 {
                    assert(spans_view(r0)[kk] == spans_view(v@).take(i - 1)[kk]);
                } else {
                    assert(r@[kk] == sp);
                }
            }
            assert(spans_view(r@) =~= spans_view(v@).take(i as int));
        }
    }
    proof {
        assert(spans_view(v@).take(v@.len() as int) =~= spans_view(v@));
    }
    r
}

/// Render one chunk: each source line of its range, in order, becomes one
/// rendered line that keeps its number and matched flag and carries the
/// styled text of the source line, hard-wrapped to the space left beside the
/// gutter when character wrapping is on, and as one unwrapped row otherwise.
pub fn render_chunk(chunk: &Chunk, lines: &Vec<Vec<Span>>, opts: &PrinterOptions) -> (r: Vec<
    RenderedLine,
>)
    requires
        1 <= chunk.start <= chunk.end <= lines@.len(),
        opts.term_width <= usize::MAX,
    ensures
        r@.len() == chunk.end - chunk.start + 1,
        forall|k: int|
            0 <= k < r@.len() ==> (#[trigger] r@[k]).line_number == chunk.start + k,
        forall|k: int|
            0 <= k < r@.len() ==> (#[trigger] r@[k]).matched == chunk.matched_lines@.contains(
                (chunk.start + k) as u64,
            ),
        forall|k: int|
            0 <= k < r@.len() ==> rows_styled_chars((#[trigger] r@[k])@.rows) == styled_chars(
                spans_view(lines@[chunk.start + k - 1]@),
            ),
        forall|k: int| 0 <= k < r@.len() ==> (#[trigger] r@[k])@.rows.len() >= 1,
        opts.text_wrap == TextWrapMode::Char ==> forall|k: int, j: int|
            0 <= k < r@.len() && 0 <= j < (#[trigger] r@[k])@.rows.len() ==> styled_chars(
                #[trigger] r@[k]@.rows[j],
            ).len() <= body_width_spec(opts.term_width as int, opts.grid, chunk.end as int),
        opts.text_wrap == TextWrapMode::Never ==> forall|k: int|
            0 <= k < r@.len() ==> (#[trigger] r@[k])@.rows.len() == 1,
{
    let body_u64: u64 = if !opts.grid {
        if opts.term_width >= 1 {
            opts.term_width
        } else {
            1
        }
    } else {
        let d = digit_count(chunk.end);
        if opts.term_width >= 4 && opts.term_width - 4 >= d {
            opts.term_width - 3 - d
        } else {
            1
        }
    };
    assert(body_u64 as int == body_width_spec(opts.term_width as int, opts.grid, chunk.end as int));
    let body: usize = body_u64 as usize;
    let n: usize = lines.len();
    assert(chunk.end - chunk.start < n as int);
    let count: usize = ((chunk.end - chunk.start) as usize) + 1;
    let mut r: Vec<RenderedLine> = Vec::new();
    let mut k: usize = 0;
    while k < count
        invariant
            1 <= chunk.start <= chunk.end <= lines@.len(),
            lines@.len() <= usize::MAX,
            count == chunk.end - chunk.start + 1,
            body == body_width_spec(opts.term_width as int, opts.grid, chunk.end as int),
            body >= 1,
            k <= count,
            r@.len() == k,
            forall|i: int| 0 <= i < k ==> (#[trigger] r@[i]).line_number == chunk.start + i,
            forall|i: int|
                0 <= i < k ==> (#[trigger] r@[i]).matched == chunk.matched_lines@.contains(
                    (chunk.start + i) as u64,
                ),
            forall|i: int|
                0 <= i < k ==> rows_styled_chars((#[trigger] r@[i])@.rows) == styled_chars(
                    spans_view(lines@[chunk.start + i - 1]@),
                ),
            forall|i: int| 0 <= i < k ==> (#[trigger] r@[i])@.rows.len() >= 1,
            opts.text_wrap == TextWrapMode::Char ==> forall|i: int, j: int|
                0 <= i < k && 0 <= j < (#[trigger] r@[i])@.rows.len() ==> styled_chars(
                    #[trigger] r@[i]@.rows[j],
                ).len() <= body,
            opts.text_wrap == TextWrapMode::Never ==> forall|i: int|
                0 <= i < k ==> (#[trigger] r@[i])@.rows.len() == 1,
        decreases count - k,
    {
        let l: u64 = chunk.start + (k as u64);
        assert(l - 1 < lines@.len() <= usize::MAX);
        let idx: usize = (l - 1) as usize;
        let src = &lines[idx];
        assert(idx as int == chunk.start + k - 1);
        let matched = contains_line(&chunk.matched_lines, l);
        let rows: Vec<Vec<Span>> = match opts.text_wrap {
            TextWrapMode::Char => wrap_spans(src, body),
            TextWrapMode::Never => {
                let mut one: Vec<Vec<Span>> = Vec::new();
                let cp = copy_spans(src);
                one.push(cp);
                proof {
                    assert(rows_view(one@).len() == 1);
                    assert(rows_view(one@).last() == spans_view(one@[0]@));
                    assert(spans_view(one@[0]@) == spans_view(src@));
                    assert(rows_view(one@).drop_last() =~= Seq::<Seq<SpanView>>::empty());
                    assert(rows_styled_chars(rows_view(one@)) == rows_styled_chars(
                        rows_view(one@).drop_last(),
                    ) + styled_chars(rows_view(one@).last()));
                    assert(rows_styled_chars(Seq::<Seq<SpanView>>::empty())
                        == Seq::<(u64, char)>::empty());
                    assert(rows_styled_chars(rows_view(one@)) =~= styled_chars(spans_view(src@)));
                }
                one
            },
        };
        let line = RenderedLine { line_number: l, matched, rows };
        r.push(line);
        k = k + 1;
    }
    r
}

/// The shape every wrapping of styled characters into rows of width `width`
/// has: at least one row, every row but the last exactly full, the last at
/// most full and empty only when there is nothing to wrap.
pub open spec fn wrap_shaped(rows: Seq<Seq<SpanView>>, width: int) -> bool {
    &&& rows.len() >= 1
    &&& forall|i: int| 0 <= i < rows.len() - 1 ==> styled_chars(#[trigger] rows[i]).len() == width
    &&& styled_chars(rows.last()).len() <= width
    &&& rows_styled_chars(rows).len() > 0 ==> styled_chars(rows.last()).len() > 0
}

/// The styled characters of every wrapped row are determined by the input and
/// the width alone: row `k` carries exactly the characters from position
/// `k * width` on.
proof fn lemma_wrap_rows_pinned(rows: Seq<Seq<SpanView>>, width: int)
    requires
        width >= 1,
        rows.len() >= 1,
        forall|i: int| 0 <= i < rows.len() - 1 ==> styled_chars(#[trigger] rows[i]).len() == width,
        styled_chars(rows.last()).len() <= width,
    ensures
        rows_styled_chars(rows).len() == (rows.len() - 1) * width + styled_chars(rows.last()).len(),
        forall|k: int|
            0 <= k < rows.len() ==> styled_chars(#[trigger] rows[k]) == rows_styled_chars(
                rows,
            ).subrange(k * width, k * width + styled_chars(rows[k]).len()),
    decreases rows.len(),
{
    broadcast use vstd::arithmetic::mul::lemma_mul_is_distributive_add_other_way;
    broadcast use vstd::arithmetic::mul::lemma_mul_basics_3;
    broadcast use vstd::arithmetic::mul::lemma_mul_basics_4;

    let s = rows_styled_chars(rows);
    if rows.len() == 1 {
        assert(s == rows_styled_chars(rows.drop_last()) + styled_chars(rows[0]));
        assert(styled_chars(rows[0]) =~= s.subrange(0, styled_chars(rows[0]).len() as int));
        assert((rows.len() - 1) * width == 0);
    } else {
        let prev = rows.drop_last();
        assert(prev.last() == rows[rows.len() - 2]);
        assert(styled_chars(prev.last()).len() == width);
        lemma_wrap_rows_pinned(prev, width);
        let sp = rows_styled_chars(prev);
        assert(sp.len() == (prev.len() - 1) * width + width);
        assert(sp.len() == (rows.len() - 1) * width) by {
            vstd::arithmetic::mul::lemma_mul_is_distributive_add_other_way(
                width,
                prev.len() - 1,
                1,
            );
            vstd::arithmetic::mul::lemma_mul_basics(width);
        }
        assert(s == sp + styled_chars(rows.last()));
        assert forall|k: int| 0 <= k < rows.len() implies styled_chars(#[trigger] rows[k])
            == s.subrange(k * width, k * width + styled_chars(rows[k]).len()) by {
            if k < rows.len() - 1 {
                assert(rows[k] == prev[k]);
                assert(styled_chars(rows[k]) == sp.subrange(
                    k * width,
                    k * width + styled_chars(rows[k]).len(),
                ));
                assert(k * width + styled_chars(rows[k]).len() <= sp.len()) by {
                    vstd::arithmetic::mul::lemma_mul_inequality(k + 1, rows.len() - 1, width);
                }
                assert(styled_chars(rows[k]) =~= s.subrange(
                    k * width,
                    k * width + styled_chars(rows[k]).len(),
                ));
            } else {
                assert(styled_chars(rows[k]) =~= s.subrange(
                    k * width,
                    k * width + styled_chars(rows[k]).len(),
                ));
            }
        }
    }
}

/// Wrapping is deterministic: any two row sequences of the shape the wrapping
/// contract gives, carrying the same styled characters, have the same number
/// of rows and the same styled characters in every row. Together with the
/// aggregation, tab expansion and serialization being exact functions of
/// their inputs, the pipeline's output is determined by the file's text, its
/// matches and the configuration alone, so a second run over unchanged input
/// produces identical output.
pub proof fn lemma_wrap_deterministic(rows1: Seq<Seq<SpanView>>, rows2: Seq<Seq<SpanView>>, width: int)
    requires
        width >= 1,
        wrap_shaped(rows1, width),
        wrap_shaped(rows2, width),
        rows_styled_chars(rows1) == rows_styled_chars(rows2),
    ensures
        rows1.len() == rows2.len(),
        forall|k: int|
            0 <= k < rows1.len() ==> styled_chars(#[trigger] rows1[k]) == styled_chars(rows2[k]),
{
    broadcast use vstd::arithmetic::mul::lemma_mul_basics_3;
    broadcast use vstd::arithmetic::mul::lemma_mul_basics_4;

    lemma_wrap_rows_pinned(rows1, width);
    lemma_wrap_rows_pinned(rows2, width);
    let total = rows_styled_chars(rows1).len() as int;
    let l1 = styled_chars(rows1.last()).len() as int;
    let l2 = styled_chars(rows2.last()).len() as int;
    if total == 0 {
        assert(rows1.len() == 1) by {
            if rows1.len() > 1 {
                vstd::arithmetic::mul::lemma_mul_inequality(1, rows1.len() - 1, width);
            }
        }
        assert(rows2.len() == 1) by {
            if rows2.len() > 1 {
                vstd::arithmetic::mul::lemma_mul_inequality(1, rows2.len() - 1, width);
            }
        }
    } else {
        assert(1 <= l1 <= width && 1 <= l2 <= width);
        vstd::arithmetic::div_mod::lemma_fundamental_div_mod_converse(
            total - 1,
            width,
            rows1.len() - 1,
            l1 - 1,
        );
        vstd::arithmetic::div_mod::lemma_fundamental_div_mod_converse(
            total - 1,
            width,
            rows2.len() - 1,
            l2 - 1,
        );
        assert(rows1.len() - 1 == (total - 1) / width == rows2.len() - 1);
        assert(l1 - 1 == (total - 1) % width == l2 - 1);
    }
    assert forall|k: int| 0 <= k < rows1.len() implies styled_chars(#[trigger] rows1[k])
        == styled_chars(rows2[k]) by {
        if k < rows1.len() - 1 {
            assert(styled_chars(rows1[k]).len() == width == styled_chars(rows2[k]).len());
        } else {
            assert(rows1[k] == rows1.last() && rows2[k] == rows2.last());
        }
    }
}

/// The truncation step of the pipeline: with `first_only` set, only the
/// first chunk of a file is rendered and the rest are discarded without
/// error.
pub fn chunks_to_render(chunks: Vec<Chunk>, first_only: bool) -> (r: Vec<Chunk>)
    ensures
        r@ == if first_only && chunks@.len() > 0 {
            seq![chunks@[0]]
        } else {
            chunks@
        },
{
    if first_only && chunks.len() > 0 {
        let mut it = chunks;
        it.truncate(1);
        proof {
            assert(it@ =~= seq![it@[0]]);
        }
        it
    } else {
        chunks
    }
}

/// The text of a sequence of styled characters, styles dropped.
pub open spec fn text_of(styled: Seq<(u64, char)>) -> Seq<char> {
    styled.map_values(|p: (u64, char)| p.1)
}

/// The plain text of wrapped rows, read in order with the wrap undone.
pub open spec fn rows_text_concat(rows: Seq<Seq<SpanView>>) -> Seq<char>
    decreases rows.len(),
{
    if rows.len() == 0 {
        Seq::<char>::empty()
    } else {
        rows_text_concat(rows.drop_last()) + text_of(styled_chars(rows.last()))
    }
}

/// Stripping the styling and the wrap from the rows of one rendered line
/// gives back exactly the text of the styled source line.
pub proof fn lemma_round_trip_line(rows: Seq<Seq<SpanView>>, line: Seq<SpanView>)
    requires
        rows_styled_chars(rows) == styled_chars(line),
    ensures
        rows_text_concat(rows) == text_of(styled_chars(line)),
{
    lemma_rows_text(rows);
}

/// The plain text of wrapped rows is the text of their styled characters.
proof fn lemma_rows_text(rows: Seq<Seq<SpanView>>)
    ensures
        rows_text_concat(rows) == text_of(rows_styled_chars(rows)),
    decreases rows.len(),
{
    if rows.len() == 0 {
        assert(rows_text_concat(rows) =~= text_of(rows_styled_chars(rows)));
    } else {
        lemma_rows_text(rows.drop_last());
        assert(text_of(rows_styled_chars(rows.drop_last()) + styled_chars(rows.last()))
            =~= text_of(rows_styled_chars(rows.drop_last())) + text_of(styled_chars(rows.last())));
    }
}

/// With a tab width of zero, tab expansion is the identity: the original tab
/// characters survive rendering.
pub proof fn lemma_expand_tabs_zero(s: Seq<char>)
    ensures
        expand_tabs_spec(s, 0) == s,
{
    lemma_expand_tabs_zero_from(s, 0);
}

proof fn lemma_expand_tabs_zero_from(s: Seq<char>, col: int)
    ensures
        expand_tabs_from(s, 0, col) == s,
    decreases s.len(),
{
    if s.len() == 0 {
        assert(expand_tabs_from(s, 0, col) =~= s);
    } else {
        lemma_expand_tabs_zero_from(s.drop_first(), col + 1);
        assert(expand_tabs_from(s, 0, col) =~= s);
    }
}

/// Undo the wrapping and drop the styling of one rendered line, giving the
/// plain text of the source line it renders.
pub fn strip_line(line: &RenderedLine) -> (r: Vec<char>)
    ensures
        r@ == rows_text_concat(line@.rows),
{
    let mut r: Vec<char> = Vec::new();
    let mut i: usize = 0;
    proof {
        assert(rows_view(line.rows@).take(0) =~= Seq::<Seq<SpanView>>::empty());
        assert(r@ =~= rows_text_concat(rows_view(line.rows@).take(0)));
    }
    while i < line.rows.len()
        invariant
            i <= line.rows@.len(),
            r@ == rows_text_concat(rows_view(line.rows@).take(i as int)),
        decreases line.rows@.len() - i,
    {
        let ghost r0 = r@;
        let row = &line.rows[i];
        let mut j: usize = 0;
        proof {
            assert(spans_view(row@).take(0) =~= Seq::<SpanView>::empty());
            assert(r@ =~= r0 + text_of(styled_chars(spans_view(row@).take(0))));
        }
        while j < row.len()
            invariant
                i < line.rows@.len(),
                row == &line.rows@[i as int],
                j <= row@.len(),
                r@ == r0 + text_of(styled_chars(spans_view(row@).take(j as int))),
            decreases row@.len() - j,
        {
            let span = &row[j];
            let mut c: usize = 0;
            let ghost r1 = r@;
            while c < span.text.len()
                invariant
                    j < row@.len(),
                    span == &row@[j as int],
                    c <= span.text@.len(),
                    r@ == r1 + span.text@.take(c as int),
                decreases span.text@.len() - c,
            {
                r.push(span.text[c]);
                c = c + 1;
                proof {
                    assert(r@ =~= r1 + span.text@.take(c as int));
                }
            }
            j = j + 1;
            proof {
                assert(spans_view(row@).take(j as int).drop_last() =~= spans_view(row@).take(
                    j - 1,
                ));
                assert(spans_view(row@).take(j as int).last() == row@[j - 1]@);
                assert(span.text@.take(span.text@.len() as int) =~= span.text@);
                assert(r@ =~= r0 + text_of(styled_chars(spans_view(row@).take(j as int)))) by {
                    assert(styled_chars(spans_view(row@).take(j as int)) == styled_chars(
                        spans_view(row@).take(j - 1),
                    ) + row@[j - 1]@.text.map_values(|ch: char| (row@[j - 1]@.style, ch)));
                    assert(text_of(
                        styled_chars(spans_view(row@).take(j - 1)) + row@[j - 1]@.text.map_values(
                            |ch: char| (row@[j - 1]@.style, ch),
                        ),
                    ) =~= text_of(styled_chars(spans_view(row@).take(j - 1))) + row@[j
                        - 1]@.text);
                }
            }
        }
        i = i + 1;
        proof {
            assert(spans_view(row@).take(row@.len() as int) =~= spans_view(row@));
            assert(rows_view(line.rows@).take(i as int).drop_last() =~= rows_view(
                line.rows@,
            ).take(i - 1));
            assert(rows_view(line.rows@).take(i as int).last() == spans_view(row@));
        }
    }
    proof {
        assert(rows_view(line.rows@).take(line.rows@.len() as int) =~= rows_view(line.rows@));
    }
    r
}

/// The decimal digit `d` as a character.
pub open spec fn digit_char_spec(d: int) -> char {
    if d == 0 {
        '0'
    } else if d == 1 {
        '1'
    } else if d == 2 {
        '2'
    } else if d == 3 {
        '3'
    } else if d == 4 {
        '4'
    } else if d == 5 {
        '5'
    } else if d == 6 {
        '6'
    } else if d == 7 {
        '7'
    } else if d == 8 {
        '8'
    } else {
        '9'
    }
}

/// The decimal digits of `n`, most significant first.
pub open spec fn dec_chars(n: int) -> Seq<char>
    decreases n,
{
    if n < 10 {
        seq![digit_char_spec(n)]
    } else {
        dec_chars(n / 10).push(digit_char_spec(n % 10))
    }
}

fn digit_char(d: u64) -> (c: char)
    requires
        d < 10,
    ensures
        c == digit_char_spec(d as int),
{
    if d == 0 {
        '0'
    } else if d == 1 {
        '1'
    } else if d == 2 {
        '2'
    } else if d == 3 {
        '3'
    } else if d == 4 {
        '4'
    } else if d == 5 {
        '5'
    } else if d == 6 {
        '6'
    } else if d == 7 {
        '7'
    } else if d == 8 {
        '8'
    } else {
        '9'
    }
}

/// The decimal digits of `n`.
pub fn digits_chars(n: u64) -> (r: Vec<char>)
    ensures
        r@ == dec_chars(n as int),
        r@.len() == dec_len(n as int),
    decreases n,
{
    if n < 10 {
        let mut r: Vec<char> = Vec::new();
        r.push(digit_char(n));
        proof {
            assert(r@ =~= seq![digit_char_spec(n as int)]);
        }
        r
    } else {
        let mut r = digits_chars(n / 10);
        r.push(digit_char(n % 10));
        r
    }
}

/// The escape sequence that selects the 256-color palette entry `style` as
/// foreground color.
pub open spec fn style_prefix(style: u64) -> Seq<char> {
    seq!['\u{1b}', '[', '3', '8', ';', '5', ';'] + dec_chars(style as int) + seq!['m']
}

/// The escape sequence that resets all styling.
pub open spec fn style_reset() -> Seq<char> {
    seq!['\u{1b}', '[', '0', 'm']
}

/// A row of spans with each span preceded by its color escape.
pub open spec fn spans_ansi(row: Seq<SpanView>) -> Seq<char>
    decreases row.len(),
{
    if row.len() == 0 {
        Seq::<char>::empty()
    } else {
        spans_ansi(row.drop_last()) + style_prefix(row.last().style) + row.last().text
    }
}

/// The vertical separator between gutter and code.
pub open spec fn sep_char(ascii_lines: bool) -> char {
    if ascii_lines {
        '|'
    } else {
        '\u{2502}'
    }
}

/// The gutter of the first row of a line: the right-aligned line number, a
/// marker column that flags a matched line, the separator, and a space.
/// Without the grid there is no gutter.
pub open spec fn main_gutter(line_number: u64, matched: bool, gw: int, grid: bool, ascii: bool) -> Seq<char> {
    if grid {
        let pad = if gw - dec_len(line_number as int) >= 0 {
            gw - dec_len(line_number as int)
        } else {
            0
        };
        spaces(pad) + dec_chars(line_number as int) + seq![
            if matched {
                '*'
            } else {
                ' '
            },
            sep_char(ascii),
            ' ',
        ]
    } else {
        Seq::<char>::empty()
    }
}

/// The gutter of a wrapped continuation row: blank up to the separator.
pub open spec fn cont_gutter(gw: int, grid: bool, ascii: bool) -> Seq<char> {
    if grid {
        spaces(gw) + seq![' ', sep_char(ascii), ' ']
    } else {
        Seq::<char>::empty()
    }
}

/// One output row: its gutter, the styled code, a style reset and a newline.
pub open spec fn row_ansi(row: Seq<SpanView>, gutter: Seq<char>) -> Seq<char> {
    gutter + spans_ansi(row) + style_reset() + seq!['\n']
}

/// The continuation rows of one line, in order.
pub open spec fn cont_rows_ansi(rows: Seq<Seq<SpanView>>, gutter: Seq<char>) -> Seq<char>
    decreases rows.len(),
{
    if rows.len() == 0 {
        Seq::<char>::empty()
    } else {
        cont_rows_ansi(rows.drop_last(), gutter) + row_ansi(rows.last(), gutter)
    }
}

/// One rendered line: its first row under its line number, the wrapped rest
/// under a blank gutter.
pub open spec fn line_ansi(l: RenderedLineView, gw: int, grid: bool, ascii: bool) -> Seq<char> {
    if l.rows.len() == 0 {
        Seq::<char>::empty()
    } else {
        row_ansi(l.rows.first(), main_gutter(l.line_number, l.matched, gw, grid, ascii))
            + cont_rows_ansi(l.rows.drop_first(), cont_gutter(gw, grid, ascii))
    }
}

/// All rendered lines of one chunk, in order.
pub open spec fn lines_ansi(ls: Seq<RenderedLineView>, gw: int, grid: bool, ascii: bool) -> Seq<
    char,
>
    decreases ls.len(),
{
    if ls.len() == 0 {
        Seq::<char>::empty()
    } else {
        lines_ansi(ls.drop_last(), gw, grid, ascii) + line_ansi(ls.last(), gw, grid, ascii)
    }
}

/// A horizontal border line under the grid: the full terminal width of
/// box-drawing dashes, or ASCII dashes.
pub fn border_text(term_width: u64, ascii_lines: bool) -> (r: Vec<char>)
    requires
        term_width <= usize::MAX,
    ensures
        r@ == Seq::new(term_width as nat, |i: int| sep_dash(ascii_lines)).push('\n'),
{
    let dash = if ascii_lines {
        '-'
    } else {
        '\u{2500}'
    };
    let mut r: Vec<char> = Vec::new();
    let mut i: u64 = 0;
    while i < term_width
        invariant
            i <= term_width,
            dash == sep_dash(ascii_lines),
            r@ == Seq::new(i as nat, |k: int| sep_dash(ascii_lines)),
        decreases term_width - i,
    {
        r.push(dash);
        i = i + 1;
        proof {
            assert(r@ =~= Seq::new(i as nat, |k: int| sep_dash(ascii_lines)));
        }
    }
    r.push('\n');
    proof {
        assert(r@ =~= Seq::new(term_width as nat, |i: int| sep_dash(ascii_lines)).push('\n'));
    }
    r
}

/// The character a horizontal border is drawn with.
pub open spec fn sep_dash(ascii_lines: bool) -> char {
    if ascii_lines {
        '-'
    } else {
        '\u{2500}'
    }
}

/// The plain-text fallback of the highlighting engine: the whole line as one
/// span of the given style.
pub fn plain_spans(text: Vec<char>, style: u64) -> (r: Vec<Span>)
    ensures
        spans_view(r@) == seq![SpanView { style: style, text: text@ }],
        styled_chars(spans_view(r@)) == text@.map_values(|c: char| (style, c)),
{
    let mut r: Vec<Span> = Vec::new();
    let ghost t = text@;
    r.push(Span { style, text });
    proof {
        assert(spans_view(r@) =~= seq![SpanView { style: style, text: t }]);
        let sv = seq![SpanView { style: style, text: t }];
        assert(sv.drop_last() =~= Seq::<SpanView>::empty());
        assert(styled_chars(sv) == styled_chars(sv.drop_last()) + sv.last().text.map_values(
            |c: char| (sv.last().style, c),
        ));
        assert(styled_chars(sv) =~= t.map_values(|c: char| (style, c)));
    }
    r
}

/// Append the gutter of the first row of a line.
fn append_main_gutter(
    out: &mut Vec<char>,
    line_number: u64,
    matched: bool,
    gw: u64,
    grid: bool,
    ascii: bool,
)
    ensures
        final(out)@ == old(out)@ + main_gutter(line_number, matched, gw as int, grid, ascii),
{
    let ghost out0 = out@;
    if !grid {
        proof {
            assert(out@ =~= out0 + main_gutter(line_number, matched, gw as int, grid, ascii));
        }
        return ;
    }
    let nd = digits_chars(line_number);
    let mut p: u64 = nd.len() as u64;
    while p < gw
        invariant
            p >= nd@.len(),
            p == nd@.len() || p <= gw,
            out@ == out0 + spaces((p - nd@.len()) as int),
        decreases gw - p,
    {
        out.push(' ');
        p = p + 1;
        proof {
            assert(out@ =~= out0 + spaces((p - nd@.len()) as int));
        }
    }
    let mut q: usize = 0;
    let ghost outp = out@;
    while q < nd.len()
        invariant
            q <= nd@.len(),
            out@ == outp + nd@.take(q as int),
        decreases nd@.len() - q,
    {
        out.push(nd[q]);
        q = q + 1;
        proof {
            assert(out@ =~= outp + nd@.take(q as int));
        }
    }
    out.push(if matched {
        '*'
    } else {
        ' '
    });
    out.push(if ascii {
        '|'
    } else {
        '\u{2502}'
    });
    out.push(' ');
    proof {
        assert(nd@.take(nd@.len() as int) =~= nd@);
        assert(out@ =~= out0 + main_gutter(line_number, matched, gw as int, grid, ascii));
    }
}

/// Append the blank gutter of a continuation row.
fn append_cont_gutter(out: &mut Vec<char>, gw: u64, grid: bool, ascii: bool)
    ensures
        final(out)@ == old(out)@ + cont_gutter(gw as int, grid, ascii),
{
    let ghost out0 = out@;
    if !grid {
        proof {
            assert(out@ =~= out0 + cont_gutter(gw as int, grid, ascii));
        }
        return ;
    }
    let mut p: u64 = 0;
    while p < gw
        invariant
            p <= gw,
            out@ == out0 + spaces(p as int),
        decreases gw - p,
    {
        out.push(' ');
        p = p + 1;
        proof {
            assert(out@ =~= out0 + spaces(p as int));
        }
    }
    out.push(' ');
    out.push(if ascii {
        '|'
    } else {
        '\u{2502}'
    });
    out.push(' ');
    proof {
        assert(out@ =~= out0 + cont_gutter(gw as int, grid, ascii));
    }
}

/// Append one row's styled spans, a style reset and a newline.
fn append_row_body(out: &mut Vec<char>, row: &Vec<Span>)
    ensures
        final(out)@ == old(out)@ + spans_ansi(spans_view(row@)) + style_reset() + seq!['\n'],
{
    let ghost out0 = out@;
    let mut k: usize = 0;
    proof {
        assert(spans_view(row@).take(0) =~= Seq::<SpanView>::empty());
        assert(out@ =~= out0 + spans_ansi(spans_view(row@).take(0)));
    }
    while k < row.len()
        invariant
            k <= row@.len(),
            out@ == out0 + spans_ansi(spans_view(row@).take(k as int)),
        decreases row@.len() - k,
    {
        let ghost outs = out@;
        out.push('\u{1b}');
        out.push('[');
        out.push('3');
        out.push('8');
        out.push(';');
        out.push('5');
        out.push(';');
        let sd = digits_chars(row[k].style);
        let mut q: usize = 0;
        let ghost oute = out@;
        while q < sd.len()
            invariant
                q <= sd@.len(),
                out@ == oute + sd@.take(q as int),
            decreases sd@.len() - q,
        {
            out.push(sd[q]);
            q = q + 1;
            proof {
                assert(out@ =~= oute + sd@.take(q as int));
            }
        }
        out.push('m');
        let mut c: usize = 0;
        let ghost outm = out@;
        while c < row[k].text.len()
            invariant
                k < row@.len(),
                c <= row@[k as int].text@.len(),
                out@ == outm + row@[k as int].text@.take(c as int),
            decreases row@[k as int].text@.len() - c,
        {
            out.push(row[k].text[c]);
            c = c + 1;
            proof {
                assert(out@ =~= outm + row@[k as int].text@.take(c as int));
            }
        }
        k = k + 1;
        proof {
            assert(sd@.take(sd@.len() as int) =~= sd@);
            assert(row@[k - 1].text@.take(row@[k - 1].text@.len() as int) =~= row@[k - 1].text@);
            assert(spans_view(row@).take(k as int).drop_last() =~= spans_view(row@).take(k - 1));
            assert(spans_view(row@).take(k as int).last() == row@[k - 1]@);
            assert(out@ =~= outs + style_prefix(row@[k - 1].style) + row@[k - 1].text@);
            assert(out@ =~= out0 + spans_ansi(spans_view(row@).take(k as int)));
        }
    }
    out.push('\u{1b}');
    out.push('[');
    out.push('0');
    out.push('m');
    out.push('\n');
    proof {
        assert(spans_view(row@).take(row@.len() as int) =~= spans_view(row@));
        assert(out@ =~= out0 + spans_ansi(spans_view(row@)) + style_reset() + seq!['\n']);
    }
}

/// Append one rendered line: the first row under its line number, the
/// wrapped rest under a blank gutter.
#[verifier::rlimit(60)]
fn append_line(out: &mut Vec<char>, line: &RenderedLine, gw: u64, grid: bool, ascii: bool)
    ensures
        final(out)@ == old(out)@ + line_ansi(line@, gw as int, grid, ascii),
{
    let ghost out0 = out@;
    let mut j: usize = 0;
    while j < line.rows.len()
        invariant
            j <= line.rows@.len(),
            j == 0 ==> out@ == out0,
            j > 0 ==> out@ == out0 + row_ansi(
                line@.rows.first(),
                main_gutter(line.line_number, line.matched, gw as int, grid, ascii),
            ) + cont_rows_ansi(
                line@.rows.take(j as int).drop_first(),
                cont_gutter(gw as int, grid, ascii),
            ),
        decreases line.rows@.len() - j,
    {
        let ghost outr = out@;
        if j == 0 {
            append_main_gutter(out, line.line_number, line.matched, gw, grid, ascii);
        } else {
            append_cont_gutter(out, gw, grid, ascii);
        }
        append_row_body(out, &line.rows[j]);
        j = j + 1;
        proof {
            assert(line@.rows[j - 1] == spans_view(line.rows@[j - 1]@));
            let g = if j == 1 {
                main_gutter(line.line_number, line.matched, gw as int, grid, ascii)
            } else {
                cont_gutter(gw as int, grid, ascii)
            };
            assert(out@ =~= outr + row_ansi(line@.rows[j - 1], g));
            if j == 1 {
                assert(line@.rows.take(1).drop_first() =~= Seq::<Seq<SpanView>>::empty());
                assert(out@ =~= out0 + row_ansi(
                    line@.rows.first(),
                    main_gutter(line.line_number, line.matched, gw as int, grid, ascii),
                ) + cont_rows_ansi(
                    line@.rows.take(1).drop_first(),
                    cont_gutter(gw as int, grid, ascii),
                ));
            } else {
                assert(line@.rows.take(j as int).drop_first().drop_last() =~= line@.rows.take(
                    j - 1,
                ).drop_first());
                assert(line@.rows.take(j as int).drop_first().last() == line@.rows[j - 1]);
                assert(out@ =~= out0 + row_ansi(
                    line@.rows.first(),
                    main_gutter(line.line_number, line.matched, gw as int, grid, ascii),
                ) + cont_rows_ansi(
                    line@.rows.take(j as int).drop_first(),
                    cont_gutter(gw as int, grid, ascii),
                ));
            }
        }
    }
    proof {
        if line.rows@.len() == 0 {
            assert(out@ =~= out0 + line_ansi(line@, gw as int, grid, ascii));
        } else {
            assert(line@.rows.take(line.rows@.len() as int) =~= line@.rows);
            assert(out@ =~= out0 + line_ansi(line@, gw as int, grid, ascii));
        }
    }
}

/// Serialize the rendered lines of one chunk to terminal text: under the
/// grid every row carries a line-number gutter, a marker on matched lines and
/// a vertical separator; every span is preceded by its color escape and every
/// row ends with a reset. The gutter is sized for the chunk's largest line
/// number, which is the last rendered line's.
pub fn render_text(lines: &Vec<RenderedLine>, opts: &PrinterOptions) -> (r: Vec<char>)
    ensures
        ({
            let gw = if lines@.len() > 0 {
                dec_len(lines@.last().line_number as int)
            } else {
                1int
            };
            r@ == lines_ansi(
                lines@.map_values(|l: RenderedLine| l@),
                gw,
                opts.grid,
                opts.ascii_lines,
            )
        }),
{
    let gw: u64 = if lines.len() > 0 {
        digit_count(lines[lines.len() - 1].line_number)
    } else {
        1
    };
    let ghost lsv = lines@.map_values(|l: RenderedLine| l@);
    let mut out: Vec<char> = Vec::new();
    let mut i: usize = 0;
    proof {
        assert(lsv.take(0) =~= Seq::<RenderedLineView>::empty());
        assert(out@ =~= lines_ansi(lsv.take(0), gw as int, opts.grid, opts.ascii_lines));
    }
    while i < lines.len()
        invariant
            i <= lines@.len(),
            lsv == lines@.map_values(|l: RenderedLine| l@),
            gw as int == if lines@.len() > 0 {
                dec_len(lines@.last().line_number as int)
            } else {
                1int
            },
            out@ == lines_ansi(lsv.take(i as int), gw as int, opts.grid, opts.ascii_lines),
        decreases lines@.len() - i,
    {
        append_line(&mut out, &lines[i], gw, opts.grid, opts.ascii_lines);
        i = i + 1;
        proof {
            assert(lsv.take(i as int).drop_last() =~= lsv.take(i - 1));
            assert(lsv.take(i as int).last() == lsv[i - 1]);
            assert(lsv[i - 1] == lines@[i - 1]@);
            assert(out@ =~= lines_ansi(lsv.take(i as int), gw as int, opts.grid, opts.ascii_lines));
        }
    }
    proof {
        assert(lsv.take(lines@.len() as int) =~= lsv);
    }
    out
}

} // verus!
