use vstd::prelude::*;
use crate::cell::{
    Layout, SubCharacter, HORIZONTAL_BIGX, HORIZONTAL_EQUAL, HORIZONTAL_HARDBLANK,
    HORIZONTAL_HIERARCHY, HORIZONTAL_LOWLINE, HORIZONTAL_PAIR,
};

verus! {

/// Space rule: exactly one literal space beside a non-hardblank keeps the other side.
pub open spec fn space_rule(a: SubCharacter, b: SubCharacter) -> Option<SubCharacter> {
    if a is Blank || b is Blank {
        None
    } else if a.spec_is_space() && !b.spec_is_space() {
        Some(b)
    } else if b.spec_is_space() && !a.spec_is_space() {
        Some(a)
    } else {
        None
    }
}

/// Equal rule: two identical symbols, neither a space, merge into one.
pub open spec fn equal_rule(a: SubCharacter, b: SubCharacter) -> Option<SubCharacter> {
    if a is Blank || b is Blank || a.spec_is_space() {
        None
    } else if a == b {
        Some(a)
    } else {
        None
    }
}

pub open spec fn is_replacing(c: SubCharacter) -> bool {
    match c {
        SubCharacter::Symbol(x) => x == '|' || x == '/' || x == '\\' || x == '[' || x == ']'
            || x == '{' || x == '}' || x == '(' || x == ')' || x == '<' || x == '>',
        SubCharacter::Blank => false,
    }
}

/// Underscore rule: an underscore gives way to a border symbol.
pub open spec fn underscore_rule(a: SubCharacter, b: SubCharacter) -> Option<SubCharacter> {
    if a == SubCharacter::Symbol('_') && is_replacing(b) {
        Some(b)
    } else if b == SubCharacter::Symbol('_') && is_replacing(a) {
        Some(a)
    } else {
        None
    }
}

pub open spec fn spec_class(c: char) -> Option<usize> {
    if c == '|' {
        Some(1)
    } else if c == '/' || c == '\\' {
        Some(2)
    } else if c == '[' || c == ']' {
        Some(3)
    } else if c == '{' || c == '}' {
        Some(4)
    } else if c == '(' || c == ')' {
        Some(5)
    } else if c == '<' || c == '>' {
        Some(6)
    } else {
        None
    }
}

/// Hierarchy rule: of two ranked symbols of different classes, the higher class wins.
pub open spec fn hierarchy_rule(a: SubCharacter, b: SubCharacter) -> Option<SubCharacter> {
    match (a, b) {
        (SubCharacter::Symbol(x), SubCharacter::Symbol(y)) => {
            match (spec_class(x), spec_class(y)) {
                (Some(k1), Some(k2)) => if k1 > k2 {
                    Some(a)
                } else if k2 > k1 {
                    Some(b)
                } else {
                    None
                },
                _ => None,
            }
        },
        _ => None,
    }
}

pub open spec fn is_pair(x: char, y: char) -> bool {
    (x == '[' && y == ']') || (x == ']' && y == '[') || (x == '{' && y == '}') || (x == '}'
        && y == '{') || (x == '(' && y == ')') || (x == ')' && y == '(')
}

/// Bracket-pair rule: complementary brackets become a bar.
pub open spec fn pair_rule(a: SubCharacter, b: SubCharacter) -> Option<SubCharacter> {
    match (a, b) {
        (SubCharacter::Symbol(x), SubCharacter::Symbol(y)) => if is_pair(x, y) {
            Some(SubCharacter::Symbol('|'))
        } else {
            None
        },
        _ => None,
    }
}

/// Big-X rule: slashes and angle brackets meeting form a bar, a Y or an X.
pub open spec fn bigx_rule(a: SubCharacter, b: SubCharacter) -> Option<SubCharacter> {
    match (a, b) {
        (SubCharacter::Symbol(x), SubCharacter::Symbol(y)) => if x == '/' && y == '\\' {
            Some(SubCharacter::Symbol('|'))
        } else if x == '\\' && y == '/' {
            Some(SubCharacter::Symbol('Y'))
        } else if x == '>' && y == '<' {
            Some(SubCharacter::Symbol('X'))
        } else {
            None
        },
        _ => None,
    }
}

/// Hardblank rule: two hardblanks merge into one.
pub open spec fn hardblank_rule(a: SubCharacter, b: SubCharacter) -> Option<SubCharacter> {
    if a is Blank && b is Blank {
        Some(SubCharacter::Blank)
    } else {
        None
    }
}

/// The controlled rules in priority order on the two touching cells; the first that
/// applies wins.
pub open spec fn controlled_cells(a: SubCharacter, b: SubCharacter, layout: Layout) -> Option<
    SubCharacter,
> {
    if space_rule(a, b) is Some {
        space_rule(a, b)
    } else if layout.has(HORIZONTAL_EQUAL) && equal_rule(a, b) is Some {
        equal_rule(a, b)
    } else if layout.has(HORIZONTAL_LOWLINE) && underscore_rule(a, b) is Some {
        underscore_rule(a, b)
    } else if layout.has(HORIZONTAL_HIERARCHY) && hierarchy_rule(a, b) is Some {
        hierarchy_rule(a, b)
    } else if layout.has(HORIZONTAL_PAIR) && pair_rule(a, b) is Some {
        pair_rule(a, b)
    } else if layout.has(HORIZONTAL_BIGX) && bigx_rule(a, b) is Some {
        bigx_rule(a, b)
    } else if layout.has(HORIZONTAL_HARDBLANK) && hardblank_rule(a, b) is Some {
        hardblank_rule(a, b)
    } else {
        None
    }
}

/// The merged cell for a left row meeting a right row, if any. The controlled rules
/// look at the left row's last cell and the right row's first; they need both.
pub open spec fn smush_rows(l: Seq<SubCharacter>, r: Seq<SubCharacter>, layout: Layout) -> Option<
    SubCharacter,
> {
    if layout.spec_is_universal() {
        if r.len() > 0 {
            Some(r[0])
        } else if l.len() > 0 {
            Some(l.last())
        } else {
            None
        }
    } else if l.len() > 0 && r.len() > 0 {
        controlled_cells(l.last(), r[0], layout)
    } else {
        None
    }
}

fn sym_is(c: &SubCharacter, x: char) -> (r: bool)
    ensures
        r == (*c == SubCharacter::Symbol(x)),
{
    match c {
        SubCharacter::Symbol(y) => *y == x,
        SubCharacter::Blank => false,
    }
}

pub fn space_smush(a: &SubCharacter, b: &SubCharacter) -> (r: Option<SubCharacter>)
    ensures
        r == space_rule(*a, *b),
{
    if a.is_blank() || b.is_blank() {
        None
    } else if a.is_space() && !b.is_space() {
        Some(*b)
    } else if b.is_space() && !a.is_space() {
        Some(*a)
    } else {
        None
    }
}

pub fn equal_smush(a: &SubCharacter, b: &SubCharacter) -> (r: Option<SubCharacter>)
    ensures
        r == equal_rule(*a, *b),
{
    if a.is_blank() || b.is_blank() || a.is_space() {
        None
    } else if *a == *b {
        Some(*a)
    } else {
        None
    }
}

fn replacing(c: &SubCharacter) -> (r: bool)
    ensures
        r == is_replacing(*c),
{
    match c {
        SubCharacter::Symbol(x) => {
            let x = *x;
            x == '|' || x == '/' || x == '\\' || x == '[' || x == ']' || x == '{' || x == '}'
                || x == '(' || x == ')' || x == '<' || x == '>'
        },
        SubCharacter::Blank => false,
    }
}

pub fn underscore_smush(a: &SubCharacter, b: &SubCharacter) -> (r: Option<SubCharacter>)
    ensures
        r == underscore_rule(*a, *b),
{
    if sym_is(a, '_') && replacing(b) {
        Some(*b)
    } else if sym_is(b, '_') && replacing(a) {
        Some(*a)
    } else {
        None
    }
}

/// The rank of a border symbol in the hierarchy rule.
pub fn hierarchy_class(c: char) -> (r: Option<usize>)
    ensures
        r == spec_class(c),
{
    if c == '|' {
        Some(1)
    } else if c == '/' || c == '\\' {
        Some(2)
    } else if c == '[' || c == ']' {
        Some(3)
    } else if c == '{' || c == '}' {
        Some(4)
    } else if c == '(' || c == ')' {
        Some(5)
    } else if c == '<' || c == '>' {
        Some(6)
    } else {
        None
    }
}

pub fn hierarchy_smush(a: &SubCharacter, b: &SubCharacter) -> (r: Option<SubCharacter>)
    ensures
        r == hierarchy_rule(*a, *b),
{
    match (a, b) {
        (SubCharacter::Symbol(x), SubCharacter::Symbol(y)) => {
            match (hierarchy_class(*x), hierarchy_class(*y)) {
                (Some(k1), Some(k2)) => if k1 > k2 {
                    Some(*a)
                } else if k2 > k1 {
                    Some(*b)
                } else {
                    None
                },
                _ => None,
            }
        },
        _ => None,
    }
}

pub fn opposite_smush(a: &SubCharacter, b: &SubCharacter) -> (r: Option<SubCharacter>)
    ensures
        r == pair_rule(*a, *b),
{
    match (a, b) {
        (SubCharacter::Symbol(x), SubCharacter::Symbol(y)) => {
            let (x, y) = (*x, *y);
            if (x == '[' && y == ']') || (x == ']' && y == '[') || (x == '{' && y == '}') || (x
                == '}' && y == '{') || (x == '(' && y == ')') || (x == ')' && y == '(') {
                Some(SubCharacter::Symbol('|'))
            } else {
                None
            }
        },
        _ => None,
    }
}

pub fn bigx_smush(a: &SubCharacter, b: &SubCharacter) -> (r: Option<SubCharacter>)
    ensures
        r == bigx_rule(*a, *b),
{
    match (a, b) {
        (SubCharacter::Symbol(x), SubCharacter::Symbol(y)) => {
            if *x == '/' && *y == '\\' {
                Some(SubCharacter::Symbol('|'))
            } else if *x == '\\' && *y == '/' {
                Some(SubCharacter::Symbol('Y'))
            } else if *x == '>' && *y == '<' {
                Some(SubCharacter::Symbol('X'))
            } else {
                None
            }
        },
        _ => None,
    }
}

pub fn hardblank_smush(a: &SubCharacter, b: &SubCharacter) -> (r: Option<SubCharacter>)
    ensures
        r == hardblank_rule(*a, *b),
{
    if a.is_blank() && b.is_blank() {
        Some(SubCharacter::Blank)
    } else {
        None
    }
}

/// The controlled rules in priority order, first success wins.
pub fn controlled_smush(a: &SubCharacter, b: &SubCharacter, layout: Layout) -> (r: Option<
    SubCharacter,
>)
    ensures
        r == controlled_cells(*a, *b, layout),
{
    let s = space_smush(a, b);
    if s.is_some() {
        return s;
    }
    if layout.contains(HORIZONTAL_EQUAL) {
        let s = equal_smush(a, b);
        if s.is_some() {
            return s;
        }
    }
    if layout.contains(HORIZONTAL_LOWLINE) {
        let s = underscore_smush(a, b);
        if s.is_some() {
            return s;
        }
    }
    if layout.contains(HORIZONTAL_HIERARCHY) {
        let s = hierarchy_smush(a, b);
        if s.is_some() {
            return s;
        }
    }
    if layout.contains(HORIZONTAL_PAIR) {
        let s = opposite_smush(a, b);
        if s.is_some() {
            return s;
        }
    }
    if layout.contains(HORIZONTAL_BIGX) {
        let s = bigx_smush(a, b);
        if s.is_some() {
            return s;
        }
    }
    if layout.contains(HORIZONTAL_HARDBLANK) {
        let s = hardblank_smush(a, b);
        if s.is_some() {
            return s;
        }
    }
    None
}

/// The merged cell for the left row's end meeting the right row's start.
pub fn get_smush_char(l: &Vec<SubCharacter>, r: &Vec<SubCharacter>, layout: Layout) -> (res:
    Option<SubCharacter>)
    ensures
        res == smush_rows(l@, r@, layout),
{
    if layout.is_universal() {
        if r.len() > 0 {
            Some(r[0])
        } else if l.len() > 0 {
            Some(l[l.len() - 1])
        } else {
            None
        }
    } else if l.len() > 0 && r.len() > 0 {
        controlled_smush(&l[l.len() - 1], &r[0], layout)
    } else {
        None
    }
}

} // verus!
