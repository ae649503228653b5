use figfont::FIGfont;
use riglet::{
    hierarchy_class, FIGline, FIGure, Font, Glyph, Layout, PrintDirection, SplitWords,
    SubCharacter, HORIZONTAL_EQUAL, HORIZONTAL_KERNING, HORIZONTAL_SMUSH,
};

fn cells(row: &str) -> Vec<SubCharacter> {
    row.chars()
        .map(|c| if c == '$' { SubCharacter::Blank } else { SubCharacter::Symbol(c) })
        .collect()
}

fn glyph(code: char, rows: &[&str]) -> Glyph {
    Glyph {
        code: code as i32,
        rows: rows.iter().map(|r| cells(r)).collect(),
    }
}

fn text_rows(line: &FIGline) -> Vec<String> {
    line.lines()
        .iter()
        .map(|r| {
            r.iter()
                .map(|c| match c {
                    SubCharacter::Symbol(x) => *x,
                    SubCharacter::Blank => '$',
                })
                .collect()
        })
        .collect()
}

fn font_of(height: usize, bits: u32, direction: PrintDirection, glyphs: Vec<Glyph>) -> Font {
    Font::new(height, Layout { bits }, direction, glyphs).expect("well-formed font")
}

fn standard_font() -> Font {
    let f = FIGfont::standard().unwrap();
    let header = f.header();
    let mut glyphs = Vec::new();
    for code in 0..256i32 {
        let rows = f
            .get(code)
            .lines()
            .iter()
            .map(|row| {
                row.iter()
                    .map(|sc| match sc {
                        figfont::SubCharacter::Blank => SubCharacter::Blank,
                        figfont::SubCharacter::Symbol(s) => {
                            SubCharacter::Symbol(s.chars().next().unwrap_or(' '))
                        }
                    })
                    .collect()
            })
            .collect();
        glyphs.push(Glyph { code, rows });
    }
    let direction = match header.print_direction() {
        figfont::PrintDirection::LeftToRight => PrintDirection::LeftToRight,
        figfont::PrintDirection::RightToLeft => PrintDirection::RightToLeft,
    };
    Font::new(header.height(), Layout { bits: header.layout().bits() }, direction, glyphs).unwrap()
}

#[test]
fn split_words_iterator() {
    let known: Vec<String> = [
        "Ciao", " ", " ", " ", " ", " ", " ", " ", " ", " ", " ", "Ciao,", " ", "ciao",
    ]
    .iter()
    .map(ToString::to_string)
    .collect();
    let value: Vec<String> = SplitWords::new("Ciao          Ciao, ciao").collect_words();
    assert_eq!(known, value);
}

#[test]
fn test_figure() {
    let font = standard_font();
    let mut figure = FIGure::new(&font, 80);
    assert!(figure
        .add("Ciao ciao ciao ciao ciao ciao ciao ciao ciao ciao")
        .is_ok());
    assert!(figure.lines.len() > 1);
    for line in figure.lines.iter() {
        assert!(line.width() <= 80);
    }
    println!("{}", figure.to_string());
}

#[test]
fn line_test() {
    let font = standard_font();
    let mut line = FIGline::new(&font);
    for c in "CiTÃ¨".chars() {
        line.add_char(c as u32 as i32);
    }
    assert_eq!(line.chars, vec![67, 105, 84, 195, 168]);
    assert_eq!(line.height(), font.height);
    assert!(line.width() > 0);
    println!("{}", line.to_string());
}

#[test]
fn tokenizer_separators_stand_alone() {
    let mut s = SplitWords::new("a\tb\n\ncd  ");
    let v = s.collect_words();
    assert_eq!(v, vec!["a", "\t", "b", "\n", "\n", "cd", " ", " "]);
    assert_eq!(s.next(), None);
    assert!(SplitWords::new("").collect_words().is_empty());
}

#[test]
fn plain_concatenation_scenario() {
    let h = ["|  |", "|  |", "|--|", "|  |", "|  |", "    "];
    let i = [" o ", "   ", " | ", " | ", " | ", "   "];
    let font = font_of(
        6,
        0,
        PrintDirection::LeftToRight,
        vec![glyph('H', &h), glyph('i', &i), glyph('~', &["~"; 6])],
    );
    let mut fig = FIGure::new(&font, 80);
    fig.add("Hi").unwrap();
    assert_eq!(fig.lines.len(), 1);
    let rows = text_rows(&fig.lines[0]);
    for r in 0..6 {
        assert_eq!(rows[r], format!("{}{}", h[r], i[r]));
    }
    assert_eq!(fig.lines[0].width(), 7);
    let expected: String = (0..6).map(|r| format!("{}{}", h[r], i[r])).collect::<Vec<_>>().join("\n");
    assert_eq!(fig.to_string(), format!("{}\n", expected));
}

#[test]
fn equal_smush_scenario() {
    let bits = HORIZONTAL_SMUSH | HORIZONTAL_EQUAL;
    let font = font_of(
        2,
        bits,
        PrintDirection::LeftToRight,
        vec![
            glyph('a', &["aX", "bX"]),
            glyph('b', &["Xc", "Xd"]),
            glyph('c', &["Xc", "Yd"]),
            glyph('~', &["~", "~"]),
        ],
    );
    let mut line = FIGline::new(&font);
    line.add_char('a' as i32);
    line.add_char('b' as i32);
    assert_eq!(text_rows(&line), vec!["aXc", "bXd"]);
    assert_eq!(line.width(), 3);

    // one row cannot merge, so neither does the other
    let mut line = FIGline::new(&font);
    line.add_char('a' as i32);
    line.add_char('c' as i32);
    assert_eq!(text_rows(&line), vec!["aXXc", "bXYd"]);
    assert_eq!(line.width(), 4);
}

#[test]
fn empty_merge_trims_only_the_leading_side() {
    let font = font_of(
        2,
        HORIZONTAL_KERNING,
        PrintDirection::LeftToRight,
        vec![glyph('a', &["  a a ", " bb   "]), glyph('~', &["~", "~"])],
    );
    let mut line = FIGline::new(&font);
    assert!(line.is_empty());
    line.add_char('a' as i32);
    assert!(!line.is_empty());
    assert_eq!(text_rows(&line), vec![" a a ", "bb   "]);

    let font = font_of(
        2,
        HORIZONTAL_KERNING,
        PrintDirection::RightToLeft,
        vec![glyph('a', &["  a a ", " bb   "]), glyph('~', &["~", "~"])],
    );
    let mut line = FIGline::new(&font);
    line.add_char('a' as i32);
    assert_eq!(text_rows(&line), vec!["  a a", " bb  "]);
}

#[test]
fn kerning_removes_the_common_gap() {
    let font = font_of(
        2,
        HORIZONTAL_KERNING,
        PrintDirection::LeftToRight,
        vec![glyph('a', &["a  ", "aa "]), glyph('b', &[" b", "  b"]), glyph('~', &["~", "~"])],
    );
    let mut line = FIGline::new(&font);
    line.add_char('a' as i32);
    line.add_char('b' as i32);
    // gaps are 3 and 3: every row loses three columns
    assert_eq!(text_rows(&line), vec!["ab", "aab"]);
    assert_eq!(line.width(), 3);
}

#[test]
fn right_to_left_puts_new_glyphs_first() {
    let font = font_of(
        1,
        0,
        PrintDirection::RightToLeft,
        vec![glyph('a', &["aa"]), glyph('b', &["b"]), glyph('~', &["~"])],
    );
    let mut line = FIGline::new(&font);
    line.add_char('a' as i32);
    line.add_char('b' as i32);
    assert_eq!(text_rows(&line), vec!["baa"]);
}

#[test]
fn composition_splits_at_any_point() {
    for bits in [0u32, HORIZONTAL_SMUSH | HORIZONTAL_EQUAL] {
        let font = font_of(
            2,
            bits,
            PrintDirection::LeftToRight,
            vec![
                glyph('a', &["a|", "a|"]),
                glyph('b', &["|b", "|b"]),
                glyph('~', &["~", "~"]),
            ],
        );
        let mut whole = FIGline::new(&font);
        for c in "abab".chars() {
            whole.add_char(c as i32);
        }
        let mut first = FIGline::new(&font);
        first.add_char('a' as i32);
        first.add_char('b' as i32);
        let mut second = FIGline::new(&font);
        second.add_char('a' as i32);
        second.add_char('b' as i32);
        first.add_line(&second);
        assert_eq!(text_rows(&whole), text_rows(&first));
        assert_eq!(whole.chars, first.chars);
    }
}

#[test]
fn add_line_with_empty_sides() {
    let font = font_of(1, 0, PrintDirection::LeftToRight, vec![glyph('a', &["a"]), glyph('~', &["~"])]);
    let mut empty = FIGline::new(&font);
    let mut one = FIGline::new(&font);
    one.add_char('a' as i32);
    empty.add_line(&one);
    assert_eq!(text_rows(&empty), vec!["a"]);
    let blank = FIGline::new(&font);
    one.add_line(&blank);
    assert_eq!(text_rows(&one), vec!["a"]);
    assert_eq!(one.chars, vec!['a' as i32]);
}

#[test]
fn width_bound_and_wrapping() {
    let font = font_of(
        1,
        0,
        PrintDirection::LeftToRight,
        vec![glyph('a', &["aa"]), glyph(' ', &["$"]), glyph('~', &["~"])],
    );
    let mut fig = FIGure::new(&font, 5);
    fig.add("aa aa aa").unwrap();
    let texts: Vec<Vec<String>> = fig.lines.iter().map(|l| text_rows(l)).collect();
    assert_eq!(texts, vec![vec!["aaaa$"], vec!["aaaa$"], vec!["aaaa"]]);
    for l in fig.lines.iter() {
        assert!(l.width() <= fig.width());
    }
}

#[test]
fn over_wide_glyphs_stand_alone() {
    let font = font_of(
        1,
        0,
        PrintDirection::LeftToRight,
        vec![glyph('w', &["wwwwww"]), glyph('~', &["~"])],
    );
    let mut fig = FIGure::new(&font, 4);
    fig.add("ww").unwrap();
    assert_eq!(fig.lines.len(), 2);
    for l in fig.lines.iter() {
        assert_eq!(l.chars.len(), 1);
        assert_eq!(l.width(), 6);
    }
}

#[test]
fn long_word_breaks_at_the_overflowing_glyph() {
    let font = font_of(1, 0, PrintDirection::LeftToRight, vec![glyph('a', &["aa"]), glyph('~', &["~"])]);
    let mut fig = FIGure::new(&font, 5);
    fig.add("aaaaa").unwrap();
    let texts: Vec<Vec<String>> = fig.lines.iter().map(|l| text_rows(l)).collect();
    assert_eq!(texts, vec![vec!["aaaa"], vec!["aaaa"], vec!["aa"]]);
    let total: usize = fig.lines.iter().map(|l| l.chars.len()).sum();
    assert_eq!(total, 5);
}

#[test]
fn rendering_is_deterministic() {
    let font = standard_font();
    let mut a = FIGure::new(&font, 40);
    let mut b = FIGure::new(&font, 40);
    a.add("Hello world, again").unwrap();
    b.add("Hello world, again").unwrap();
    assert_eq!(a.to_string(), b.to_string());
    assert_eq!(a.width(), 40);
}

#[test]
fn unmappable_characters_become_question_marks() {
    let font = font_of(
        1,
        0,
        PrintDirection::LeftToRight,
        vec![glyph('?', &["Q"]), glyph('\u{e9}', &["E"]), glyph('~', &["~"])],
    );
    let mut fig = FIGure::new(&font, 80);
    fig.add_char('\u{20ac}').unwrap();
    fig.add("\u{e9}").unwrap();
    assert_eq!(fig.lines.len(), 1);
    assert_eq!(fig.lines[0].chars, vec![63, 233]);
    assert_eq!(text_rows(&fig.lines[0]), vec!["QE"]);
}

#[test]
fn missing_codes_use_the_fallback_glyph() {
    let font = font_of(1, 0, PrintDirection::LeftToRight, vec![glyph('~', &["~"])]);
    let mut line = FIGline::new(&font);
    line.add_char('z' as i32);
    assert_eq!(text_rows(&line), vec!["~"]);
}

#[test]
fn font_validation() {
    let l = Layout { bits: 0 };
    let d = PrintDirection::LeftToRight;
    assert!(Font::new(0, l, d, vec![]).is_none());
    assert!(Font::new(1, l, d, vec![glyph('a', &["a"])]).is_none());
    assert!(Font::new(2, l, d, vec![glyph('~', &["~"])]).is_none());
    assert!(Font::new(1, l, d, vec![glyph('~', &["~"])]).is_some());
}

#[test]
fn hierarchy_classes() {
    assert_eq!(hierarchy_class('|'), Some(1));
    assert_eq!(hierarchy_class('\\'), Some(2));
    assert_eq!(hierarchy_class(']'), Some(3));
    assert_eq!(hierarchy_class('{'), Some(4));
    assert_eq!(hierarchy_class(')'), Some(5));
    assert_eq!(hierarchy_class('<'), Some(6));
    assert_eq!(hierarchy_class('x'), None);
}
