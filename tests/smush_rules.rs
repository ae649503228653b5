use riglet::{
    bigx_smush, controlled_smush, equal_smush, get_smush_char, hardblank_smush, hierarchy_smush,
    opposite_smush, space_smush, underscore_smush, FIGline, Font, Glyph, Layout, PrintDirection,
    SubCharacter, HORIZONTAL_BIGX, HORIZONTAL_EQUAL, HORIZONTAL_HARDBLANK, HORIZONTAL_HIERARCHY,
    HORIZONTAL_KERNING, HORIZONTAL_LOWLINE, HORIZONTAL_PAIR, HORIZONTAL_SMUSH,
};

fn s(c: char) -> SubCharacter {
    SubCharacter::Symbol(c)
}

const B: SubCharacter = SubCharacter::Blank;

#[test]
fn space_rule_keeps_the_other_side() {
    assert_eq!(space_smush(&s(' '), &s('a')), Some(s('a')));
    assert_eq!(space_smush(&s('a'), &s(' ')), Some(s('a')));
    assert_eq!(space_smush(&s(' '), &B), None);
    assert_eq!(space_smush(&s('a'), &s('b')), None);
    assert_eq!(space_smush(&s(' '), &s(' ')), None);
    assert!(B.is_blank());
    assert!(!s(' ').is_blank());
    assert!(s(' ').is_space());
    assert!(!B.is_space());
}

#[test]
fn equal_rule() {
    assert_eq!(equal_smush(&s('X'), &s('X')), Some(s('X')));
    assert_eq!(equal_smush(&s('X'), &s('Y')), None);
    assert_eq!(equal_smush(&B, &B), None);
    assert_eq!(equal_smush(&s(' '), &s(' ')), None);
}

#[test]
fn underscore_rule() {
    assert_eq!(underscore_smush(&s('_'), &s('|')), Some(s('|')));
    assert_eq!(underscore_smush(&s('>'), &s('_')), Some(s('>')));
    assert_eq!(underscore_smush(&s('_'), &s('a')), None);
    assert_eq!(underscore_smush(&s('_'), &s('_')), None);
}

#[test]
fn hierarchy_rule() {
    assert_eq!(hierarchy_smush(&s('|'), &s('/')), Some(s('/')));
    assert_eq!(hierarchy_smush(&s('<'), &s('[')), Some(s('<')));
    assert_eq!(hierarchy_smush(&s('('), &s(')')), None);
    assert_eq!(hierarchy_smush(&s('a'), &s('|')), None);
    assert_eq!(hierarchy_smush(&B, &s('|')), None);
}

#[test]
fn pair_rule() {
    assert_eq!(opposite_smush(&s('['), &s(']')), Some(s('|')));
    assert_eq!(opposite_smush(&s('}'), &s('{')), Some(s('|')));
    assert_eq!(opposite_smush(&s(')'), &s('(')), Some(s('|')));
    assert_eq!(opposite_smush(&s('('), &s(']')), None);
}

#[test]
fn bigx_rule() {
    assert_eq!(bigx_smush(&s('/'), &s('\\')), Some(s('|')));
    assert_eq!(bigx_smush(&s('\\'), &s('/')), Some(s('Y')));
    assert_eq!(bigx_smush(&s('>'), &s('<')), Some(s('X')));
    assert_eq!(bigx_smush(&s('<'), &s('>')), None);
}

#[test]
fn hardblank_rule() {
    assert_eq!(hardblank_smush(&B, &B), Some(B));
    assert_eq!(hardblank_smush(&B, &s(' ')), None);
}

#[test]
fn rules_apply_in_priority_order_and_only_when_enabled() {
    let all = Layout {
        bits: HORIZONTAL_SMUSH
            | HORIZONTAL_EQUAL
            | HORIZONTAL_LOWLINE
            | HORIZONTAL_HIERARCHY
            | HORIZONTAL_PAIR
            | HORIZONTAL_BIGX
            | HORIZONTAL_HARDBLANK,
    };
    // '/' and '\\' share a hierarchy class, so big-X decides
    assert_eq!(controlled_smush(&s('/'), &s('\\'), all), Some(s('|')));
    // hierarchy beats pair for '[' and '}'
    assert_eq!(controlled_smush(&s('['), &s('}'), all), Some(s('}')));
    assert_eq!(controlled_smush(&s('['), &s(']'), all), Some(s('|')));
    assert_eq!(controlled_smush(&B, &B, all), Some(B));
    let only_equal = Layout { bits: HORIZONTAL_SMUSH | HORIZONTAL_EQUAL };
    assert_eq!(controlled_smush(&s('['), &s(']'), only_equal), None);
    assert_eq!(controlled_smush(&B, &B, only_equal), None);
    assert_eq!(controlled_smush(&s(' '), &s('q'), only_equal), Some(s('q')));
}

#[test]
fn universal_rule_prefers_the_incoming_cell() {
    let universal = Layout { bits: HORIZONTAL_SMUSH };
    assert_eq!(get_smush_char(&vec![s('a')], &vec![s('b')], universal), Some(s('b')));
    assert_eq!(get_smush_char(&vec![s('a')], &vec![], universal), Some(s('a')));
    assert_eq!(get_smush_char(&vec![], &vec![], universal), None);
    let controlled = Layout { bits: HORIZONTAL_SMUSH | HORIZONTAL_EQUAL };
    assert_eq!(get_smush_char(&vec![s('a')], &vec![], controlled), None);
    assert_eq!(get_smush_char(&vec![s('z'), s('a')], &vec![s('a'), s('k')], controlled), Some(s('a')));
}

#[test]
fn universal_smushing_in_a_line() {
    let font = Font::new(
        1,
        Layout { bits: HORIZONTAL_SMUSH },
        PrintDirection::LeftToRight,
        vec![
            Glyph { code: 'a' as i32, rows: vec![vec![s('a'), s('a')]] },
            Glyph { code: 'b' as i32, rows: vec![vec![s('b'), s('c')]] },
            Glyph { code: '~' as i32, rows: vec![vec![s('~')]] },
        ],
    )
    .unwrap();
    let mut line = FIGline::new(&font);
    line.add_char('a' as i32);
    line.add_char('b' as i32);
    assert_eq!(line.to_string(), "abc");
    assert_eq!(line.width(), 3);
}

#[test]
fn bigx_split_composition_differs_from_glyph_by_glyph() {
    let font = Font::new(
        1,
        Layout { bits: HORIZONTAL_SMUSH | HORIZONTAL_BIGX },
        PrintDirection::LeftToRight,
        vec![
            Glyph { code: '/' as i32, rows: vec![vec![s('/')]] },
            Glyph { code: '\\' as i32, rows: vec![vec![s('\\')]] },
            Glyph { code: '~' as i32, rows: vec![vec![s('~')]] },
        ],
    )
    .unwrap();
    let mut whole = FIGline::new(&font);
    for c in ['/', '\\', '/'] {
        whole.add_char(c as i32);
    }
    assert_eq!(whole.to_string(), "|/");
    let mut first = FIGline::new(&font);
    first.add_char('/' as i32);
    let mut second = FIGline::new(&font);
    second.add_char('\\' as i32);
    second.add_char('/' as i32);
    first.add_line(&second);
    assert_eq!(first.to_string(), "/Y");
}

#[test]
fn kerned_split_composition_differs_from_glyph_by_glyph() {
    let font = Font::new(
        2,
        Layout { bits: HORIZONTAL_KERNING },
        PrintDirection::LeftToRight,
        vec![
            Glyph { code: 'a' as i32, rows: vec![vec![s(' ')], vec![s('x')]] },
            Glyph { code: 'b' as i32, rows: vec![vec![s('x')], vec![s(' ')]] },
            Glyph { code: '~' as i32, rows: vec![vec![s('~')], vec![s('~')]] },
        ],
    )
    .unwrap();
    let mut whole = FIGline::new(&font);
    for c in ['a', 'b', 'a'] {
        whole.add_char(c as i32);
    }
    assert_eq!(whole.to_string(), "x \nxx");
    let mut first = FIGline::new(&font);
    first.add_char('a' as i32);
    let mut second = FIGline::new(&font);
    second.add_char('b' as i32);
    second.add_char('a' as i32);
    first.add_line(&second);
    assert_eq!(first.to_string(), " x\nxx");
}

#[test]
fn space_against_space_blocks_every_row_from_merging() {
    let font = Font::new(
        2,
        Layout { bits: HORIZONTAL_SMUSH | HORIZONTAL_EQUAL },
        PrintDirection::LeftToRight,
        vec![
            Glyph { code: 'a' as i32, rows: vec![vec![s('a'), s(' ')], vec![s('a'), s('X')]] },
            Glyph { code: 'b' as i32, rows: vec![vec![s(' '), s('b')], vec![s('X'), s('b')]] },
            Glyph { code: '~' as i32, rows: vec![vec![s('~')], vec![s('~')]] },
        ],
    )
    .unwrap();
    assert_eq!(controlled_smush(&s(' '), &s(' '), Layout { bits: HORIZONTAL_SMUSH | HORIZONTAL_EQUAL }), None);
    let mut line = FIGline::new(&font);
    line.add_char('a' as i32);
    line.add_char('b' as i32);
    // the space row gives no merge, so the X row does not merge either
    assert_eq!(line.to_string(), "a  b\naXXb");
    assert_eq!(line.width(), 4);
}
