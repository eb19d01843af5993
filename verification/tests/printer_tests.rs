use hgrep::chunk::Chunk;
use hgrep::printer::{
    border_text, build_printer_options, chunks_to_render, digit_count, expand_tabs, plain_spans,
    render_chunk, render_text, strip_line, wrap_spans, Error, PrinterKind, PrinterOptions, Span,
    TextWrapMode,
};

fn chars(s: &str) -> Vec<char> {
    s.chars().collect()
}

fn string(v: &[char]) -> String {
    v.iter().collect()
}

#[test]
fn tab_expands_to_the_next_tab_stop() {
    // A leading tab under a tab width of four becomes four spaces.
    assert_eq!(string(&expand_tabs(&chars("\tfoo"), 4)), "    foo");
    // A tab after two characters only pads to the next multiple of four.
    assert_eq!(string(&expand_tabs(&chars("ab\tc"), 4)), "ab  c");
    // A tab right at a tab stop pads a full stop.
    assert_eq!(string(&expand_tabs(&chars("abcd\te"), 4)), "abcd    e");
}

#[test]
fn tab_width_zero_passes_tabs_through() {
    assert_eq!(string(&expand_tabs(&chars("\tfoo"), 0)), "\tfoo");
    assert_eq!(string(&expand_tabs(&chars("a\tb\t"), 0)), "a\tb\t");
}

#[test]
fn wrapping_splits_a_long_line_into_full_rows() {
    // A 45-character styled line wraps at width 20 into rows of 20, 20 and 5
    // columns, and every character keeps its token's style.
    let spans = vec![
        Span { style: 1, text: chars(&"a".repeat(15)) },
        Span { style: 2, text: chars(&"b".repeat(15)) },
        Span { style: 3, text: chars(&"c".repeat(15)) },
    ];
    let rows = wrap_spans(&spans, 20);
    assert_eq!(rows.len(), 3);
    let width = |row: &Vec<Span>| row.iter().map(|s| s.text.len()).sum::<usize>();
    assert_eq!(width(&rows[0]), 20);
    assert_eq!(width(&rows[1]), 20);
    assert_eq!(width(&rows[2]), 5);
    // styles survive the wrap boundaries
    let styled: Vec<(u64, char)> = rows
        .iter()
        .flat_map(|row| row.iter())
        .flat_map(|s| s.text.iter().map(move |&c| (s.style, c)))
        .collect();
    let expected: Vec<(u64, char)> = spans
        .iter()
        .flat_map(|s| s.text.iter().map(move |&c| (s.style, c)))
        .collect();
    assert_eq!(styled, expected);
    // the style that crosses the first boundary continues on the second row
    assert_eq!(rows[1][0].style, 2);
    assert_eq!(rows[1][0].text, chars(&"b".repeat(10)));
}

#[test]
fn wrapping_an_empty_line_gives_one_empty_row() {
    let rows = wrap_spans(&vec![], 10);
    assert_eq!(rows.len(), 1);
    assert!(rows[0].is_empty());
}

#[test]
fn options_reject_a_narrow_terminal() {
    let r = build_printer_options(
        PrinterKind::Syntect,
        4,
        None,
        false,
        false,
        Some(9),
        TextWrapMode::Char,
        false,
        false,
        false,
    );
    assert_eq!(r.unwrap_err(), Error::TermWidthTooSmall(9));
}

#[test]
fn options_reject_unsupported_backend_features() {
    let r = build_printer_options(
        PrinterKind::Bat,
        4,
        None,
        false,
        false,
        None,
        TextWrapMode::Char,
        false,
        true,
        false,
    );
    assert_eq!(r.unwrap_err(), Error::BackgroundNotSupported);
    let r = build_printer_options(
        PrinterKind::Bat,
        4,
        None,
        false,
        false,
        None,
        TextWrapMode::Char,
        false,
        false,
        true,
    );
    assert_eq!(r.unwrap_err(), Error::AsciiLinesNotSupported);
    // the in-process backend honours both
    let r = build_printer_options(
        PrinterKind::Syntect,
        4,
        None,
        false,
        false,
        None,
        TextWrapMode::Char,
        false,
        true,
        true,
    );
    assert!(r.is_ok());
}

#[test]
fn explicit_grid_flag_wins_over_no_grid() {
    let opts = |grid, no_grid| {
        build_printer_options(
            PrinterKind::Syntect,
            4,
            None,
            grid,
            no_grid,
            None,
            TextWrapMode::Char,
            false,
            false,
            false,
        )
        .unwrap()
    };
    assert!(opts(false, false).grid);
    assert!(!opts(false, true).grid);
    assert!(opts(true, true).grid);
    assert!(opts(true, false).grid);
}

#[test]
fn rendering_keeps_line_numbers_and_match_flags() {
    let lines = vec![
        plain_spans(chars("fn main() {"), 7),
        plain_spans(chars("    body();"), 7),
        plain_spans(chars("}"), 7),
    ];
    let chunk = Chunk { start: 1, end: 3, matched_lines: vec![2] };
    let opts = PrinterOptions::default();
    let rendered = render_chunk(&chunk, &lines, &opts);
    assert_eq!(rendered.len(), 3);
    assert_eq!(
        rendered.iter().map(|l| l.line_number).collect::<Vec<u64>>(),
        vec![1, 2, 3]
    );
    assert_eq!(
        rendered.iter().map(|l| l.matched).collect::<Vec<bool>>(),
        vec![false, true, false]
    );
}

#[test]
fn stripping_rendered_output_reproduces_the_source() {
    // Round trip: rendering and then stripping styling and wrap gives back
    // exactly the source lines, including tab characters left by a zero tab
    // width.
    let long = "y".repeat(200);
    let raw = vec!["\tlet x = 1;", "x", long.as_str()];
    let tab_width = 0u64;
    let lines: Vec<Vec<Span>> = raw
        .iter()
        .map(|s| plain_spans(expand_tabs(&chars(s), tab_width), 3))
        .collect();
    let chunk = Chunk { start: 1, end: 3, matched_lines: vec![1, 3] };
    for wrap in [TextWrapMode::Char, TextWrapMode::Never] {
        let mut opts = PrinterOptions::default();
        opts.text_wrap = wrap;
        opts.tab_width = tab_width;
        let rendered = render_chunk(&chunk, &lines, &opts);
        let stripped: Vec<String> = rendered.iter().map(|l| string(&strip_line(l))).collect();
        assert_eq!(stripped, raw);
    }
}

#[test]
fn rendered_text_carries_gutter_and_colors() {
    let lines = vec![plain_spans(chars("ab"), 3)];
    let chunk = Chunk { start: 1, end: 1, matched_lines: vec![1] };
    let mut opts = PrinterOptions::default();
    opts.ascii_lines = true;
    let rendered = render_chunk(&chunk, &lines, &opts);
    let text = string(&render_text(&rendered, &opts));
    assert_eq!(text, "1*| \u{1b}[38;5;3mab\u{1b}[0m\n");
    // without the grid there is no gutter
    opts.grid = false;
    let rendered = render_chunk(&chunk, &lines, &opts);
    let text = string(&render_text(&rendered, &opts));
    assert_eq!(text, "\u{1b}[38;5;3mab\u{1b}[0m\n");
}

#[test]
fn continuation_rows_get_a_blank_gutter() {
    let mut lines: Vec<Vec<Span>> = (0..8).map(|_| plain_spans(chars(""), 1)).collect();
    lines.push(plain_spans(chars(&"z".repeat(10)), 1));
    let chunk = Chunk { start: 9, end: 9, matched_lines: vec![9] };
    let mut opts = PrinterOptions::default();
    opts.ascii_lines = true;
    opts.term_width = 10;
    // gutter is one digit plus three columns, leaving six for the code
    let rendered = render_chunk(&chunk, &lines, &opts);
    assert_eq!(rendered[0].rows.len(), 2);
    let text = string(&render_text(&rendered, &opts));
    let expected = format!(
        "9*| \u{1b}[38;5;1m{}\u{1b}[0m\n  | \u{1b}[38;5;1m{}\u{1b}[0m\n",
        "z".repeat(6),
        "z".repeat(4)
    );
    assert_eq!(text, expected);
}

#[test]
fn border_line_spans_the_terminal() {
    assert_eq!(string(&border_text(5, true)), "-----\n");
    assert_eq!(string(&border_text(3, false)), "\u{2500}\u{2500}\u{2500}\n");
}

#[test]
fn digit_count_matches_decimal_length() {
    assert_eq!(digit_count(0), 1);
    assert_eq!(digit_count(9), 1);
    assert_eq!(digit_count(10), 2);
    assert_eq!(digit_count(12345), 5);
    assert_eq!(digit_count(u64::MAX), 20);
}

#[test]
fn pipeline_output_is_identical_across_runs() {
    // Running the whole rendering pipeline twice on the same input and
    // configuration produces byte-identical output.
    let long = "w".repeat(100);
    let raw = vec!["\tfn f() {}", "struct S;", long.as_str()];
    let run = || {
        let lines: Vec<Vec<Span>> = raw
            .iter()
            .map(|s| plain_spans(expand_tabs(&chars(s), 4), 2))
            .collect();
        let matches = vec![1u64, 3u64];
        let chunks = hgrep::chunk::chunks_per_file(&matches, 1, 1, 3);
        let opts = PrinterOptions::default();
        let mut out = String::new();
        for c in &chunks {
            let rendered = render_chunk(c, &lines, &opts);
            out.push_str(&string(&render_text(&rendered, &opts)));
        }
        out
    };
    assert_eq!(run(), run());
}

#[test]
fn first_only_discards_later_chunks() {
    let chunks = vec![
        Chunk { start: 1, end: 3, matched_lines: vec![2] },
        Chunk { start: 10, end: 12, matched_lines: vec![11] },
    ];
    let kept = chunks_to_render(chunks, true);
    assert_eq!(kept.len(), 1);
    assert_eq!((kept[0].start, kept[0].end), (1, 3));
    let chunks = vec![
        Chunk { start: 1, end: 3, matched_lines: vec![2] },
        Chunk { start: 10, end: 12, matched_lines: vec![11] },
    ];
    assert_eq!(chunks_to_render(chunks, false).len(), 2);
}
