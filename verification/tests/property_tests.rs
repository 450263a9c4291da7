use phantom_text::cursor::{CursorInfo, DEFAULT_BLINK_INTERVAL, DEFAULT_SHOULD_BLINK};
use phantom_text::event::{EventPropagation, EventResult};
use phantom_text::interval::Interval;
use phantom_text::line::PhantomTextLine;
use phantom_text::lines::{line_col_of_hit, HitPoint, Lines};
use phantom_text::multiline::{PhantomTextMultiLine, StyleSpan};
use phantom_text::phantom::{Color, PhantomText, PhantomTextKind};
use phantom_text::ranges::Ranges;
use phantom_text::segment::Text;
use phantom_text::text_util::push_strip_suffix;

fn pt(kind: PhantomTextKind, line: usize, col: usize, merge_col: usize, text: &str) -> PhantomText {
    PhantomText {
        kind,
        line,
        col,
        merge_col,
        final_col: 0,
        affinity: None,
        text: text.to_string(),
        font_size: None,
        fg: None,
        bg: None,
        under_line: None,
    }
}

fn folded_group() -> PhantomTextMultiLine {
    // "    if true {nr    } else {nr    }nr"  ->  "    if true {...} else {...}nr"
    let line2 = PhantomTextLine::new(
        1,
        15,
        0,
        vec![pt(
            PhantomTextKind::LineFoldedRang { len: 3, next_line: Some(3) },
            1,
            12,
            12,
            "{...}",
        )],
    );
    let line4 = PhantomTextLine::new(
        3,
        14,
        0,
        vec![
            pt(PhantomTextKind::LineFoldedRang { next_line: None, len: 5 }, 3, 0, 0, ""),
            pt(PhantomTextKind::LineFoldedRang { next_line: Some(5), len: 3 }, 3, 11, 11, "{...}"),
        ],
    );
    let line6 = PhantomTextLine::new(
        5,
        7,
        0,
        vec![pt(PhantomTextKind::LineFoldedRang { next_line: None, len: 5 }, 5, 0, 0, "")],
    );
    let mut m = PhantomTextMultiLine::new(line2);
    m.merge(line4);
    m.merge(line6);
    m
}

// Fold collapse, concretely: two origin lines with a fold placeholder
// render as one row, and a final column inside the continuation line
// resolves to that line.
#[test]
fn fold_collapse_scenario() {
    let line2 = PhantomTextLine::new(
        1,
        15,
        0,
        vec![pt(
            PhantomTextKind::LineFoldedRang { len: 3, next_line: Some(3) },
            1,
            12,
            12,
            "{...}",
        )],
    );
    let line4 = PhantomTextLine::new(
        3,
        14,
        0,
        vec![pt(PhantomTextKind::LineFoldedRang { next_line: None, len: 5 }, 3, 0, 0, "")],
    );
    let mut m = PhantomTextMultiLine::new(line2);
    m.merge(line4);
    let rendered = m.final_line_content("    if true {nr    } else {nr");
    assert_eq!(rendered.as_str(), "    if true {...} else {nr");
    // The 'l' of "else" sits at final column 19 and belongs to origin line 3
    // at column 7.
    let (line, col, _) = m.cursor_position_of_final_col(19);
    assert_eq!((line, col), (3, 7));
}

// Length conservation: final length is origin length plus inserted text
// minus folded-away columns.
#[test]
fn length_conservation() {
    let spans = vec![
        pt(PhantomTextKind::InlayHint, 0, 4, 4, ": u32"),
        pt(PhantomTextKind::LineFoldedRang { len: 6, next_line: None }, 0, 10, 10, ".."),
        pt(PhantomTextKind::Diagnostic, 0, 20, 20, " boom"),
    ];
    let line = PhantomTextLine::new(0, 24, 0, spans);
    assert_eq!(line.final_text_len, 24 + (5 + 2 + 5) - 6);
}

// Ordering invariant: the segments' final ranges are contiguous and cover
// exactly [0, final_text_len).
#[test]
fn final_ranges_contiguous() {
    let m = folded_group();
    let mut cursor = 0usize;
    for seg in &m.text {
        match seg {
            Text::Phantom { text } => {
                assert_eq!(text.final_col, cursor);
                cursor += text.text.len();
            }
            Text::OriginText { text } => {
                assert_eq!(text.final_col.start, cursor);
                cursor = text.final_col.end;
            }
            Text::Empty => {}
        }
    }
    assert_eq!(cursor, m.final_text_len);
}

// Round trip: every final column inside real text maps to an origin
// position and back to the same final column.
#[test]
fn origin_final_round_trip() {
    let m = folded_group();
    for f in 0..m.final_text_len {
        if let Some((line, col)) = m.origin_col_of_final_offset(f) {
            assert_eq!(m.final_col_of_col(line, col, false), f);
        }
    }
}

// An empty origin line with no spans carries the empty marker, renders
// nothing, and every query resolves to the line start without panicking.
#[test]
fn empty_line_queries() {
    let line = PhantomTextLine::new(6, 0, 0, Vec::new());
    assert_eq!(line.final_text_len, 0);
    assert_eq!(line.texts.len(), 1);
    assert!(matches!(line.texts[0], Text::Empty));
    let m = PhantomTextMultiLine::new(line);
    // The marker never enters a merged row: the row of an empty line holds
    // no segments at all, so later merges stay strictly append-only.
    assert!(m.text.is_empty());
    assert_eq!(m.cursor_position_of_final_col(9), (6, 0, 0));
    assert_eq!(m.origin_col_of_final_offset(0), None);
    assert_eq!(m.col_at(0), None);
    assert_eq!(m.phantom_text_of_final_col(0), None);
    assert_eq!(m.final_col_of_col(6, 0, false), 0);
    assert_eq!(m.final_line_content("").as_str(), "");
}

// Inlay hint insertion: the hint text lands between the anchor column and
// the rest of the line, and cursor queries inside the hint fall back to
// the anchor.
#[test]
fn inlay_hint_insertion() {
    let line = PhantomTextLine::new(
        6,
        16,
        0,
        vec![pt(PhantomTextKind::InlayHint, 6, 9, 9, ": A ")],
    );
    assert_eq!(line.final_text_len, 20);
    let m = PhantomTextMultiLine::new(line);
    assert_eq!(m.final_line_content("    let a = A;nr").as_str(), "    let a: A  = A;nr");
    assert_eq!(m.cursor_position_of_final_col(8).1, 8);
    assert_eq!(m.cursor_position_of_final_col(11).1, 9);
}

// Idempotent rebuild: identical inputs give bit-identical annotations.
#[test]
fn rebuild_idempotent() {
    let spans = || {
        vec![
            pt(PhantomTextKind::Diagnostic, 2, 7, 7, "!"),
            pt(PhantomTextKind::InlayHint, 2, 7, 7, ": A "),
            pt(PhantomTextKind::Ime, 2, 3, 3, "x"),
        ]
    };
    let a = PhantomTextLine::new(2, 12, 40, spans());
    let b = PhantomTextLine::new(2, 12, 40, spans());
    assert_eq!(a, b);
    // Co-located spans stack by kind priority: Ime, then InlayHint, then
    // Diagnostic.
    let m = PhantomTextMultiLine::new(a);
    let phantoms = m.iter_phantom_text();
    assert_eq!(phantoms.len(), 3);
    assert!(matches!(phantoms[0].kind, PhantomTextKind::Ime));
    assert!(matches!(phantoms[1].kind, PhantomTextKind::InlayHint));
    assert!(matches!(phantoms[2].kind, PhantomTextKind::Diagnostic));
}

#[test]
fn phantom_of_final_col() {
    let m = folded_group();
    // Final columns 12..17 show the first fold placeholder "{...}".
    let (p, off) = m.phantom_text_of_final_col(14).unwrap();
    assert_eq!(p.text.as_str(), "{...}");
    assert_eq!(off, 2);
    assert_eq!(m.phantom_text_of_final_col(9), None);
}

#[test]
fn phantom_styles() {
    let mut line_spans = vec![pt(PhantomTextKind::InlayHint, 0, 4, 4, ": u32")];
    line_spans[0].fg = Some(Color { r: 1, g: 2, b: 3, a: 255 });
    line_spans.push(pt(PhantomTextKind::Diagnostic, 0, 8, 8, "!!"));
    let line = PhantomTextLine::new(0, 10, 0, line_spans);
    let m = PhantomTextMultiLine::new(line);
    let mut spans: Vec<StyleSpan> = Vec::new();
    let grey = Color { r: 96, g: 96, b: 96, a: 255 };
    m.add_phantom_style(&mut spans, 14, grey);
    assert_eq!(spans.len(), 2);
    assert_eq!(spans[0].range, Interval { start: 4, end: 9 });
    assert_eq!(spans[0].fg, Color { r: 1, g: 2, b: 3, a: 255 });
    assert_eq!(spans[0].font_size, 14);
    assert_eq!(spans[1].range, Interval { start: 13, end: 15 });
    assert_eq!(spans[1].fg, grey);
}

#[test]
fn ranges_except() {
    let ranges = Ranges {
        ranges: vec![Interval { start: 5, end: 10 }, Interval { start: 15, end: 20 }],
    };
    let out = ranges.except(Interval { start: 0, end: 30 });
    assert_eq!(
        out,
        vec![
            Interval { start: 0, end: 5 },
            Interval { start: 10, end: 15 },
            Interval { start: 20, end: 30 },
        ]
    );
    // A range wholly inside an exclusion disappears.
    let out = ranges.except(Interval { start: 6, end: 9 });
    assert_eq!(out, Vec::<Interval>::new());
    // A range cut short by an exclusion keeps only its head.
    let out = ranges.except(Interval { start: 12, end: 17 });
    assert_eq!(out, vec![Interval { start: 12, end: 15 }]);
    // A range before every exclusion is untouched.
    let out = ranges.except(Interval { start: 0, end: 3 });
    assert_eq!(out, vec![Interval { start: 0, end: 3 }]);
}

#[test]
fn event_propagation() {
    assert!(EventResult::event_continue().0.is_continue());
    assert!(!EventResult::event_continue().is_processed());
    assert!(EventResult::event_stop().is_processed());
    assert!(EventPropagation::Stop.is_stop());
    assert!(EventPropagation::Stop.is_processed());
    assert!(EventPropagation::Continue.is_continue());
    assert!(!EventPropagation::Continue.is_processed());
}

#[test]
fn cursor_blinking() {
    let mut info = CursorInfo::new();
    assert!(!info.hidden);
    // The library's defaults arm a timer: the caret blinks at 500 ms.
    assert_eq!(DEFAULT_BLINK_INTERVAL, 500);
    assert!(info.blink(DEFAULT_BLINK_INTERVAL, DEFAULT_SHOULD_BLINK, 1));
    info.reset();
    // No blinking without an interval or when blinking is off.
    assert!(!info.blink(0, true, 7));
    assert!(!info.blink(500, false, 7));
    // Arm a timer; only its own token toggles the caret.
    assert!(info.blink(500, true, 7));
    assert!(!info.timer_fired(3));
    assert!(!info.hidden);
    assert!(info.timer_fired(7));
    assert!(info.hidden);
    // A cursor move shows the caret again and disarms the timer.
    info.reset();
    assert!(!info.hidden);
    assert!(!info.timer_fired(7));
}

#[test]
fn lines_tables() {
    let mut lines = Lines::new();
    assert!(lines.check_cache_rev(1));
    assert!(!lines.check_cache_rev(1));
    assert!(lines.check_cache_rev(2));

    // One folded group covering origin lines 1..=3 with two wrapped rows,
    // then a single-line group for origin line 4.
    let group = {
        let line2 = PhantomTextLine::new(
            1,
            15,
            0,
            vec![pt(
                PhantomTextKind::LineFoldedRang { len: 3, next_line: Some(3) },
                1,
                12,
                12,
                "{...}",
            )],
        );
        let line4 = PhantomTextLine::new(
            3,
            14,
            15,
            vec![pt(PhantomTextKind::LineFoldedRang { next_line: None, len: 5 }, 3, 0, 0, "")],
        );
        let mut m = PhantomTextMultiLine::new(line2);
        m.merge(line4);
        m
    };
    // Rendered row "    if true {...} else {nr" wrapped after 17 columns.
    lines.update_folded_line(group, vec![17, 9], vec![0, 15, 29]);
    let plain = PhantomTextLine::new(4, 6, 43, Vec::new());
    let single = PhantomTextMultiLine::new(plain);
    lines.update_folded_line(single, vec![6], vec![43]);

    assert_eq!(lines.origin_lines.len(), 4);
    assert_eq!(lines.origin_folded_lines.len(), 2);
    assert_eq!(lines.visual_lines.len(), 3);
    assert_eq!(lines.origin_lines[2].start_offset, 29);

    let folded = lines.folded_line_of_origin_line(2);
    assert_eq!(folded.line_index, 0);
    assert_eq!(folded.origin_line_start, 1);
    assert_eq!(folded.origin_line_end, 3);

    let first = lines.start_visual_line_of_origin_line(3);
    assert_eq!(first.line_index, 0);

    let vl = lines.visual_line_of_folded_line_and_sub_index(0, 1);
    assert_eq!(vl.line_index, 1);

    assert_eq!(lines.last_visual_line().line_index, 2);
    assert_eq!(lines.first_vline_info().vline.0, 0);
    assert_eq!(lines.vline_infos(0, 10).len(), 3);

    // The 'l' of "else" on origin line 3 renders at final column 19, which
    // lies on the second wrapped row at offset 2.
    let (info, off, last) = lines.visual_line_of_offset(3, 7);
    assert_eq!(info.rvline.line, 0);
    assert_eq!(info.rvline.line_index, 1);
    assert_eq!(off, 2);
    assert!(!last);
}

#[test]
fn interval_basics() {
    let iv = Interval::new(3, 7);
    assert_eq!(iv.len(), 4);
    assert!(iv.contains(3));
    assert!(!iv.contains(7));
    assert_eq!(iv.translate(10), Interval { start: 13, end: 17 });
}

#[test]
fn phantom_span_columns() {
    let mut p = pt(PhantomTextKind::LineFoldedRang { len: 3, next_line: Some(3) }, 1, 12, 12, "{...}");
    p.final_col = 12;
    assert_eq!(p.next_line(), Some(3));
    assert_eq!(p.final_col_range(), Some((12, 16)));
    assert_eq!(p.next_final_col(), 17);
    assert_eq!(p.next_origin_col(), 15);
    assert_eq!(p.next_merge_col(), 15);
    let q = pt(PhantomTextKind::InlayHint, 6, 9, 9, "");
    assert_eq!(q.next_line(), None);
    assert_eq!(q.final_col_range(), None);
    assert_eq!(q.next_final_col(), 0);
    assert_eq!(q.next_origin_col(), 9);
}

#[test]
fn folded_line_continuation() {
    let line2 = PhantomTextLine::new(
        1,
        15,
        0,
        vec![pt(
            PhantomTextKind::LineFoldedRang { len: 3, next_line: Some(3) },
            1,
            12,
            12,
            "{...}",
        )],
    );
    assert_eq!(line2.folded_line(), Some(3));
    let plain = PhantomTextLine::new(0, 5, 0, Vec::new());
    assert_eq!(plain.folded_line(), None);
}

#[test]
fn update_final_text_len_overrides() {
    let mut m = folded_group();
    assert_eq!(m.final_text_len(), 30);
    m.update_final_text_len(7);
    assert_eq!(m.final_text_len(), 7);
}

#[test]
fn hit_point_resolution() {
    let m = folded_group();
    // A hit inside the first fold placeholder resolves to its anchor.
    let ((line, col), inside) = line_col_of_hit(&m, HitPoint { line: 0, index: 14, is_inside: true });
    assert_eq!((line, col), (1, 12));
    assert!(inside);
    // A hit past the rendered text clamps to the last position.
    let ((line, col), inside) = line_col_of_hit(&m, HitPoint { line: 0, index: 99, is_inside: false });
    assert_eq!((line, col), (5, 6));
    assert!(!inside);
}

#[test]
fn strip_suffix_variants() {
    let mut out = String::new();
    push_strip_suffix("abc\r\n", &mut out);
    assert_eq!(out.as_str(), "abc  ");
    let mut out = String::new();
    push_strip_suffix("abc\n", &mut out);
    assert_eq!(out.as_str(), "abc ");
    let mut out = String::from("x");
    push_strip_suffix("abc", &mut out);
    assert_eq!(out.as_str(), "xabc");
}

// Merging is strictly append-only: the row's earlier segments survive
// untouched, and each appended segment is the source segment with merge and
// final columns shifted by what the row already held.
#[test]
fn merge_is_append_only() {
    let line2 = PhantomTextLine::new(
        1,
        15,
        0,
        vec![pt(
            PhantomTextKind::LineFoldedRang { len: 3, next_line: Some(3) },
            1,
            12,
            12,
            "{...}",
        )],
    );
    let line4 = PhantomTextLine::new(
        3,
        14,
        0,
        vec![pt(PhantomTextKind::LineFoldedRang { next_line: None, len: 5 }, 3, 0, 0, "")],
    );
    let incoming = line4.texts.clone();
    let mut m = PhantomTextMultiLine::new(line2);
    let before = m.text.clone();
    let origin_shift = m.origin_text_len;
    let final_shift = m.final_text_len;
    m.merge(line4);
    assert_eq!(&m.text[..before.len()], &before[..]);
    assert_eq!(m.text.len(), before.len() + incoming.len());
    for (appended, source) in m.text[before.len()..].iter().zip(incoming.iter()) {
        match (appended, source) {
            (Text::Phantom { text: a }, Text::Phantom { text: s }) => {
                assert_eq!(a.merge_col, s.merge_col + origin_shift);
                assert_eq!(a.final_col, s.final_col + final_shift);
                // Origin coordinates are never re-based.
                assert_eq!((a.line, a.col), (s.line, s.col));
                assert_eq!(a.text, s.text);
            }
            (Text::OriginText { text: a }, Text::OriginText { text: s }) => {
                assert_eq!(a.merge_col.start, s.merge_col.start + origin_shift);
                assert_eq!(a.final_col.start, s.final_col.start + final_shift);
                assert_eq!((a.line, a.col), (s.line, s.col));
            }
            _ => panic!("appended segment changed kind"),
        }
    }
}
