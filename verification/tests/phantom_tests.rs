use phantom_text::line::PhantomTextLine;
use phantom_text::multiline::{combine_with_text, PhantomTextMultiLine};
use phantom_text::phantom::{PhantomText, PhantomTextKind};
use phantom_text::segment::Text;

fn pt(kind: PhantomTextKind, line: usize, col: usize, merge_col: usize, text: &str) -> PhantomText {
    PhantomText {
        kind,
        line,
        col,
        merge_col,
        final_col: 0,
        affinity: None,
        text: text.to_string(),
        font_size: None,
        fg: None,
        bg: None,
        under_line: None,
    }
}

// "0123456789012345678901234567890123456789
// "    if true {nr    } else {nr    }nr"
// "    if true {...} else {...}nr"
fn init_folded_line(visual_line: usize, folded: bool) -> PhantomTextLine {
    let mut text: Vec<PhantomText> = Vec::new();
    let origin_text_len;
    match (visual_line, folded) {
        (2, _) => {
            origin_text_len = 15;
            text.push(pt(
                PhantomTextKind::LineFoldedRang { len: 3, next_line: Some(3) },
                1,
                12,
                12,
                "{...}",
            ));
        }
        (4, false) => {
            origin_text_len = 14;
            text.push(pt(
                PhantomTextKind::LineFoldedRang { next_line: None, len: 5 },
                3,
                0,
                0,
                "",
            ));
        }
        (4, true) => {
            // "0123456789012345678901234567890123456789
            // "    } else {nr    }nr"
            origin_text_len = 14;
            text.push(pt(
                PhantomTextKind::LineFoldedRang { next_line: None, len: 5 },
                3,
                0,
                0,
                "",
            ));
            text.push(pt(
                PhantomTextKind::LineFoldedRang { next_line: Some(5), len: 3 },
                3,
                11,
                11,
                "{...}",
            ));
        }
        (6, _) => {
            origin_text_len = 7;
            text.push(pt(
                PhantomTextKind::LineFoldedRang { next_line: None, len: 5 },
                5,
                0,
                0,
                "",
            ));
        }
        _ => {
            panic!("");
        }
    }
    PhantomTextLine::new(visual_line - 1, origin_text_len, 0, text)
}

// "0         10        20        30
// "0123456789012345678901234567890123456789
// "    let a = A;nr
fn let_data() -> PhantomTextLine {
    let mut text: Vec<PhantomText> = Vec::new();
    let origin_text_len = 16;
    text.push(pt(PhantomTextKind::InlayHint, 6, 9, 9, ": A "));
    PhantomTextLine::new(6, origin_text_len, 0, text)
}

fn empty_data() -> PhantomTextLine {
    let text: Vec<PhantomText> = Vec::new();
    let origin_text_len = 0;
    PhantomTextLine::new(6, origin_text_len, 0, text)
}

/*
 2 |    if a.0 {...} else {...}
 */
fn get_merged_data() -> PhantomTextMultiLine {
    let line2 = init_folded_line(2, false);
    let line_folded_4 = init_folded_line(4, true);
    let line6 = init_folded_line(6, false);
    let mut lines = PhantomTextMultiLine::new(line2);
    lines.merge(line_folded_4);
    lines.merge(line6);
    lines
}

fn check_lines_col(lines: &Vec<Text>, final_text_len: usize, origin: &str, expect: &str) {
    let rs = combine_with_text(lines, origin);
    assert_eq!(expect, rs.as_str());
    assert_eq!(final_text_len, expect.len());
}

fn check_line_final_col(lines: &PhantomTextLine, rs: &str) {
    for text in &lines.texts {
        if let Text::Phantom { text } = text {
            assert_eq!(
                text.text.as_str(),
                &rs[text.final_col..text.final_col + text.text.len()]
            );
        }
    }
}

#[test]
fn test_all() {
    test_init_cases();
    test_merge_cases();
    check_origin_position_cases();
    check_col_at_cases();
    check_final_col_of_col_cases();
}

#[test]
fn test_init() {
    test_init_cases();
}

fn test_init_cases() {
    let line2 = init_folded_line(2, false);
    let line4 = init_folded_line(4, false);
    let line_folded_4 = init_folded_line(4, true);
    let line6 = init_folded_line(6, false);

    check_lines_col(&line2.texts, line2.final_text_len, "    if true {nr", "    if true {...}");
    check_line_final_col(&line2, "    if true {...}");

    check_lines_col(&line4.texts, line4.final_text_len, "    } else {nr", " else {nr");
    check_line_final_col(&line4, " else {nr");

    check_lines_col(
        &line_folded_4.texts,
        line_folded_4.final_text_len,
        "    } else {nr",
        " else {...}",
    );
    check_line_final_col(&line_folded_4, " else {...}");

    check_lines_col(&line6.texts, line6.final_text_len, "    }nr", "nr");
    check_line_final_col(&line6, "nr");

    {
        let let_line = let_data();
        let expect_str = "    let a: A  = A;nr";
        check_lines_col(&let_line.texts, let_line.final_text_len, "    let a = A;nr", expect_str);
        check_line_final_col(&line6, expect_str);
    }
}

/**
 **2 |    if a.0 {...} else {...}
 **/
#[test]
fn test_merge() {
    test_merge_cases();
}

fn test_merge_cases() {
    let line2 = init_folded_line(2, false);
    let line4 = init_folded_line(4, false);
    let line_folded_4 = init_folded_line(4, true);
    let line6 = init_folded_line(6, false);

    {
        /*
         2 |    if a.0 {...} else {
         */
        let mut lines = PhantomTextMultiLine::new(line2.clone());
        check_lines_col(&lines.text, lines.final_text_len, "    if true {nr", "    if true {...}");
        lines.merge(line4);
        check_lines_col(
            &lines.text,
            lines.final_text_len,
            "    if true {nr    } else {nr",
            "    if true {...} else {nr",
        );
    }
    {
        /*
         2 |    if a.0 {...} else {...}
         */
        let mut lines = PhantomTextMultiLine::new(line2);
        check_lines_col(&lines.text, lines.final_text_len, "    if true {nr", "    if true {...}");
        lines.merge(line_folded_4);
        check_lines_col(
            &lines.text,
            lines.final_text_len,
            "    if true {nr    } else {nr",
            "    if true {...} else {...}",
        );
        lines.merge(line6);
        check_lines_col(
            &lines.text,
            lines.final_text_len,
            "    if true {nr    } else {nr    }nr",
            "    if true {...} else {...}nr",
        );
    }
}

#[test]
fn check_origin_position_of_final_col() {
    check_origin_position_cases();
}

fn check_origin_position_cases() {
    check_empty_origin_position_of_final_col();
    check_folded_origin_position_of_final_col();
    check_let_origin_position_of_final_col();
    check_folded_origin_position_of_final_col_1();
}

fn check_let_origin_position_of_final_col() {
    // "0         10        20        30
    // "0123456789012345678901234567890123456789
    // "    let a = A;nr
    // "    let a: A  = A;nr
    // "0123456789012345678901234567890123456789
    // "0         10        20        30
    let let_line = PhantomTextMultiLine::new(let_data());

    let orgin_text: Vec<char> = "    let a: A  = A;nr".chars().collect();
    {
        assert_eq!(orgin_text[8], 'a');
        assert_eq!(let_line.cursor_position_of_final_col(8).1, 8);
    }
    {
        assert_eq!(orgin_text[11], 'A');
        assert_eq!(let_line.cursor_position_of_final_col(11).1, 9);
    }
    {
        assert_eq!(orgin_text[17], ';');
        assert_eq!(let_line.cursor_position_of_final_col(17).1, 13);
    }
    {
        assert_eq!(let_line.cursor_position_of_final_col(30).1, 15);
    }
}

fn check_folded_origin_position_of_final_col_1() {
    //  "0         10        20        30
    //  "0123456789012345678901234567890123456789
    //  "    if true {nr"
    //2 "    } else {nr"
    //  "    if true {...} else {"
    //  "0123456789012345678901234567890123456789
    //  "0         10        20        30
    //              s    e     s    e
    let line = {
        let line2 = init_folded_line(2, false);
        let line_folded_4 = init_folded_line(4, false);
        let mut lines = PhantomTextMultiLine::new(line2);
        lines.merge(line_folded_4);
        lines
    };
    let orgin_text: Vec<char> = "    if true {...} else {nr".chars().collect();
    {
        assert_eq!(orgin_text[9], 'u');
        assert_eq!(line.cursor_position_of_final_col(9), (1, 9, 9));
    }
    {
        let index = 12;
        assert_eq!(orgin_text[index], '{');
        assert_eq!(line.cursor_position_of_final_col(index), (1, 12, 12));
    }
    // "0         10        20        30
    // "0123456789012345678901234567890123456789
    // "    if true {nr    } else {nr    }nr"
    {
        let index = 19;
        assert_eq!(orgin_text[index], 'l');
        assert_eq!(line.cursor_position_of_final_col(index), (3, 7, 22));
    }
    {
        assert_eq!(line.cursor_position_of_final_col(26), (3, 13, 28));
    }
}

fn check_empty_origin_position_of_final_col() {
    let line = PhantomTextMultiLine::new(empty_data());
    {
        assert_eq!(line.cursor_position_of_final_col(9), (6, 0, 0));
    }
}

fn check_folded_origin_position_of_final_col() {
    //  "0         10        20        30
    //  "0123456789012345678901234567890123456789
    //  "    }nr"
    //2 "    } else {nr    }nr"
    //  "    if true {...} else {...}nr"
    //  "0123456789012345678901234567890123456789
    //  "0         10        20        30
    //              s    e     s    e
    let line = get_merged_data();
    let orgin_text: Vec<char> = "    if true {...} else {...}nr".chars().collect();
    {
        assert_eq!(orgin_text[9], 'u');
        assert_eq!(line.cursor_position_of_final_col(9), (1, 9, 9));
    }
    {
        assert_eq!(orgin_text[0], ' ');
        assert_eq!(line.cursor_position_of_final_col(0), (1, 0, 0));
    }
    {
        let index = 12;
        assert_eq!(orgin_text[index], '{');
        assert_eq!(line.cursor_position_of_final_col(index), (1, 12, 12));
    }
    // "0         10        20        30
    // "0123456789012345678901234567890123456789
    // "    if true {nr    } else {nr    }nr"
    {
        let index = 19;
        assert_eq!(orgin_text[index], 'l');
        assert_eq!(line.cursor_position_of_final_col(index), (3, 7, 22));
    }
    {
        let index = 25;
        assert_eq!(orgin_text[index], '.');
        assert_eq!(line.cursor_position_of_final_col(index), (3, 11, 26));
    }
    {
        let index = 29;
        assert_eq!(orgin_text[index], 'r');
        assert_eq!(line.cursor_position_of_final_col(index), (5, 6, 35));
    }
    {
        let index = 40;
        assert_eq!(line.cursor_position_of_final_col(index), (5, 6, 35));
    }
}

#[test]
fn check_final_col_of_col() {
    check_final_col_of_col_cases();
}

fn check_final_col_of_col_cases() {
    check_let_final_col_of_col();
    check_folded_final_col_of_col();
}

fn check_let_final_col_of_col() {
    let line = PhantomTextMultiLine::new(let_data());
    {
        // "0         10        20        30
        // "0123456789012345678901234567890123456789
        // "    let a = A;nr
        // "    let a: A  = A;nr
        // "0123456789012345678901234567890123456789
        // "0         10        20        30
        let orgin_text: Vec<char> = "    let a = A;nr".chars().collect();
        let col_line = 6;
        {
            let index = 8;
            assert_eq!(orgin_text[index], 'a');
            assert_eq!(line.final_col_of_col(col_line, index, false), 8);
        }
        {
            let index = 15;
            assert_eq!(orgin_text[index], 'r');
            assert_eq!(line.final_col_of_col(col_line, index, false), 19);
        }
        {
            let index = 18;
            assert_eq!(line.final_col_of_col(col_line, index, false), 19);
        }
    }
}

fn check_folded_final_col_of_col() {
    //  "    if true {...} else {...}nr"
    //  "0123456789012345678901234567890123456789
    //  "0         10        20        30
    let line = get_merged_data();
    {
        //  "0         10        20        30
        //  "0123456789012345678901234567890123456789
        //2 "    if true {nr"
        let orgin_text: Vec<char> = "    if true {nr".chars().collect();
        let col_line = 1;
        {
            let index = 9;
            assert_eq!(orgin_text[index], 'u');
            assert_eq!(line.final_col_of_col(col_line, index, false), 9);
        }
        {
            let index = 12;
            assert_eq!(orgin_text[index], '{');
            // Inside the fold's hidden range: the position just after the
            // fold's placeholder text.
            assert_eq!(line.final_col_of_col(col_line, index, false), 17);
        }
    }
    {
        //  "0         10        20        30
        //  "0123456789012345678901234567890123456789
        //2 "    } else {nr"
        let col_line = 2;
        {
            let index = 1;
            // A line folded away entirely: after the fold's placeholder.
            assert_eq!(line.final_col_of_col(col_line, index, false), 17);
        }
    }
    {
        //  "0         10        20        30
        //  "0123456789012345678901234567890123456789
        //2 "    } else {nr"
        let orgin_text: Vec<char> = "    } else {nr".chars().collect();
        let col_line = 3;
        {
            let index = 1;
            assert_eq!(orgin_text[index], ' ');
            assert_eq!(line.final_col_of_col(col_line, index, false), 17);
        }
        {
            let index = 8;
            assert_eq!(orgin_text[index], 's');
            assert_eq!(line.final_col_of_col(col_line, index, false), 20);
        }
        {
            let index = 13;
            assert_eq!(orgin_text[index], 'r');
            // Hidden by the second fold: after its placeholder text.
            assert_eq!(line.final_col_of_col(col_line, index, false), 28);
        }
        {
            let index = 18;
            assert_eq!(line.final_col_of_col(col_line, index, false), 28);
        }
    }
    {
        //  "0         10
        //  "0123456789012
        //2 "    }nr"
        let orgin_text: Vec<char> = "    }nr".chars().collect();
        let col_line = 5;
        {
            let index = 1;
            assert_eq!(orgin_text[index], ' ');
            assert_eq!(line.final_col_of_col(col_line, index, false), 28);
        }
        {
            let index = 6;
            assert_eq!(orgin_text[index], 'r');
            assert_eq!(line.final_col_of_col(col_line, index, false), 29);
        }
        {
            let index = 13;
            assert_eq!(line.final_col_of_col(col_line, index, false), 29);
        }
    }
}

#[test]
fn check_col_at() {
    check_col_at_cases();
}

fn check_col_at_cases() {
    // "0         10        20        30
    // "0123456789012345678901234567890123456789
    // "    if true {nr    } else {nr    }nr"
    // "    if true {...} else {...}nr"
    // "0123456789012345678901234567890123456789
    // "0         10        20        30
    //              s    e     s    e
    let line = get_merged_data();
    let orgin_text: Vec<char> = "    if true {nr    } else {nr    }nr".chars().collect();
    {
        let index = 35;
        assert_eq!(orgin_text[index], 'r');
        assert_eq!(line.col_at(index), Some(29));
    }
    {
        let index = 26;
        assert_eq!(orgin_text[index], '{');
        assert_eq!(line.col_at(index), None);
    }
    {
        let index = 22;
        assert_eq!(orgin_text[index], 'l');
        assert_eq!(line.col_at(index), Some(19));
    }
    {
        assert_eq!(orgin_text[9], 'u');
        assert_eq!(line.col_at(9), Some(9));
    }
    {
        let index = 12;
        assert_eq!(orgin_text[index], '{');
        assert_eq!(line.col_at(index), None);
    }
    {
        let index = 19;
        assert_eq!(orgin_text[index], '}');
        assert_eq!(line.col_at(index), None);
    }
}
