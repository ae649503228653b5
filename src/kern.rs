use vstd::prelude::*;
use crate::cell::SubCharacter;

verus! {

/// A glyph or a line as rows of cells.
pub open spec fn rows_view(v: Seq<Vec<SubCharacter>>) -> Seq<Seq<SubCharacter>> {
    v.map_values(|r: Vec<SubCharacter>| r@)
}

/// Number of literal spaces at the end of a row.
pub open spec fn trail(r: Seq<SubCharacter>) -> nat
    decreases r.len(),
{
    if r.len() == 0 {
        0
    } else if r.last().spec_is_space() {
        1 + trail(r.drop_last())
    } else {
        0
    }
}

/// Number of literal spaces at the start of a row.
pub open spec fn lead(r: Seq<SubCharacter>) -> nat
    decreases r.len(),
{
    if r.len() == 0 {
        0
    } else if r[0].spec_is_space() {
        1 + lead(r.drop_first())
    } else {
        0
    }
}

pub open spec fn min_nat(a: nat, b: nat) -> nat {
    if a <= b {
        a
    } else {
        b
    }
}

/// Whitespace between the left row `i` and the right row `i`.
pub open spec fn gap(l: Seq<Seq<SubCharacter>>, r: Seq<Seq<SubCharacter>>, i: int) -> nat {
    trail(l[i]) + lead(r[i])
}

/// The kerning amount: the least gap over the first `n` rows.
pub open spec fn min_gap(l: Seq<Seq<SubCharacter>>, r: Seq<Seq<SubCharacter>>, n: nat) -> nat
    decreases n,
{
    if n <= 1 {
        gap(l, r, 0)
    } else {
        min_nat(min_gap(l, r, (n - 1) as nat), gap(l, r, n - 1))
    }
}

/// The least leading-space run over the first `n` rows.
pub open spec fn min_lead(g: Seq<Seq<SubCharacter>>, n: nat) -> nat
    decreases n,
{
    if n == 0 {
        0
    } else if n == 1 {
        lead(g[0])
    } else {
        min_nat(min_lead(g, (n - 1) as nat), lead(g[n - 1]))
    }
}

/// The least trailing-space run over the first `n` rows.
pub open spec fn min_trail(g: Seq<Seq<SubCharacter>>, n: nat) -> nat
    decreases n,
{
    if n == 0 {
        0
    } else if n == 1 {
        trail(g[0])
    } else {
        min_nat(min_trail(g, (n - 1) as nat), trail(g[n - 1]))
    }
}

/// Cells taken off the end of a left row when `k` columns are kerned away.
pub open spec fn left_cut(lrow: Seq<SubCharacter>, k: nat) -> nat {
    min_nat(trail(lrow), k)
}

/// Cells taken off the start of a right row: what the left row could not give.
pub open spec fn right_cut(lrow: Seq<SubCharacter>, rrow: Seq<SubCharacter>, k: nat) -> nat {
    min_nat(lead(rrow), (k - left_cut(lrow, k)) as nat)
}

pub open spec fn kern_left(l: Seq<Seq<SubCharacter>>, k: nat) -> Seq<Seq<SubCharacter>> {
    Seq::new(l.len(), |i: int| l[i].take(l[i].len() - left_cut(l[i], k)))
}

pub open spec fn kern_right(l: Seq<Seq<SubCharacter>>, r: Seq<Seq<SubCharacter>>, k: nat) -> Seq<
    Seq<SubCharacter>,
> {
    Seq::new(r.len(), |i: int| r[i].skip(right_cut(l[i], r[i], k) as int))
}

pub proof fn lemma_trail_bound(r: Seq<SubCharacter>)
    ensures
        trail(r) <= r.len(),
    decreases r.len(),
{
    if r.len() > 0 {
        lemma_trail_bound(r.drop_last());
    }
}

pub proof fn lemma_lead_bound(r: Seq<SubCharacter>)
    ensures
        lead(r) <= r.len(),
    decreases r.len(),
{
    if r.len() > 0 {
        lemma_lead_bound(r.drop_first());
    }
}

pub fn trailing_spaces(row: &Vec<SubCharacter>) -> (n: usize)
    ensures
        n == trail(row@),
{
    let len = row.len();
    let mut k: usize = 0;
    proof {
        assert(row@.take(len as int) =~= row@);
    }
    while k < len && row[len - 1 - k].is_space()
        invariant
            k <= len == row@.len(),
            trail(row@) == k + trail(row@.take(len - k)),
        decreases len - k,
    {
        proof {
            let t = row@.take(len - k);
            assert(t.drop_last() =~= row@.take(len - k - 1));
        }
        k += 1;
    }
    proof {
        let t = row@.take(len - k);
        if k < len {
            assert(t.last() == row@[len - 1 - k]);
        }
    }
    k
}

pub fn leading_spaces(row: &Vec<SubCharacter>) -> (n: usize)
    ensures
        n == lead(row@),
{
    let len = row.len();
    let mut k: usize = 0;
    proof {
        assert(row@.skip(0) =~= row@);
    }
    while k < len && row[k].is_space()
        invariant
            k <= len == row@.len(),
            lead(row@) == k + lead(row@.skip(k as int)),
        decreases len - k,
    {
        proof {
            let t = row@.skip(k as int);
            assert(t.drop_first() =~= row@.skip(k + 1));
        }
        k += 1;
    }
    k
}

/// The cells of `row` before position `n`.
pub fn take_prefix(row: &Vec<SubCharacter>, n: usize) -> (out: Vec<SubCharacter>)
    requires
        n <= row@.len(),
    ensures
        out@ == row@.take(n as int),
{
    let mut out: Vec<SubCharacter> = Vec::new();
    let mut j: usize = 0;
    while j < n
        invariant
            j <= n <= row@.len(),
            out@ == row@.take(j as int),
        decreases n - j,
    {
        out.push(row[j]);
        j += 1;
        assert(out@ =~= row@.take(j as int));
    }
    out
}

/// Appends the cells of `row` from position `n` on to `out`.
pub fn append_from(out: &mut Vec<SubCharacter>, row: &Vec<SubCharacter>, n: usize)
    requires
        n <= row@.len(),
    ensures
        final(out)@ == old(out)@ + row@.skip(n as int),
{
    let mut j: usize = n;
    while j < row.len()
        invariant
            n <= j <= row@.len(),
            out@ == old(out)@ + row@.subrange(n as int, j as int),
        decreases row@.len() - j,
    {
        out.push(row[j]);
        j += 1;
        assert(out@ =~= old(out)@ + row@.subrange(n as int, j as int));
    }
    assert(row@.subrange(n as int, j as int) =~= row@.skip(n as int));
}

/// The kerning amount of two sets of rows: the least whitespace gap over all rows.
pub fn max_kerning(l: &Vec<Vec<SubCharacter>>, r: &Vec<Vec<SubCharacter>>) -> (k: usize)
    requires
        l@.len() == r@.len() >= 1,
        forall|i: int| 0 <= i < l@.len() ==> l@[i]@.len() + r@[i]@.len() <= usize::MAX,
    ensures
        k == min_gap(rows_view(l@), rows_view(r@), l@.len() as nat),
{
    let ghost lv = rows_view(l@);
    let ghost rv = rows_view(r@);
    proof {
        lemma_trail_bound(lv[0]);
        lemma_lead_bound(rv[0]);
    }
    let mut kern: usize = trailing_spaces(&l[0]) + leading_spaces(&r[0]);
    let mut i: usize = 1;
    while i < l.len()
        invariant
            1 <= i <= l@.len() == r@.len(),
            lv == rows_view(l@),
            rv == rows_view(r@),
            forall|j: int| 0 <= j < l@.len() ==> l@[j]@.len() + r@[j]@.len() <= usize::MAX,
            kern == min_gap(lv, rv, i as nat),
        decreases l@.len() - i,
    {
        proof {
            lemma_trail_bound(lv[i as int]);
            lemma_lead_bound(rv[i as int]);
        }
        let g = trailing_spaces(&l[i]) + leading_spaces(&r[i]);
        if g < kern {
            kern = g;
        }
        i += 1;
    }
    kern
}

/// Removes `k` whitespace columns between each left row and the right row beside it:
/// trailing spaces of the left row first, then leading spaces of the right row.
pub fn apply_kerning(l: &Vec<Vec<SubCharacter>>, r: &Vec<Vec<SubCharacter>>, k: usize) -> (res: (
    Vec<Vec<SubCharacter>>,
    Vec<Vec<SubCharacter>>,
))
    requires
        l@.len() == r@.len(),
    ensures
        res.0@.len() == l@.len(),
        res.1@.len() == r@.len(),
        rows_view(res.0@) == kern_left(rows_view(l@), k as nat),
        rows_view(res.1@) == kern_right(rows_view(l@), rows_view(r@), k as nat),
{
    let ghost lv = rows_view(l@);
    let ghost rv = rows_view(r@);
    let mut nl: Vec<Vec<SubCharacter>> = Vec::new();
    let mut nr: Vec<Vec<SubCharacter>> = Vec::new();
    let mut i: usize = 0;
    while i < l.len()
        invariant
            i <= l@.len() == r@.len(),
            lv == rows_view(l@),
            rv == rows_view(r@),
            nl@.len() == i,
            nr@.len() == i,
            forall|j: int| 0 <= j < i ==> nl@[j]@ == kern_left(lv, k as nat)[j],
            forall|j: int| 0 <= j < i ==> nr@[j]@ == kern_right(lv, rv, k as nat)[j],
        decreases l@.len() - i,
    {
        let t = trailing_spaces(&l[i]);
        let lc = if t < k { t } else { k };
        proof {
            lemma_trail_bound(lv[i as int]);
        }
        let left = take_prefix(&l[i], l[i].len() - lc);
        let s = leading_spaces(&r[i]);
        let rest = k - lc;
        let rc = if s < rest { s } else { rest };
        proof {
            lemma_lead_bound(rv[i as int]);
        }
        let mut right: Vec<SubCharacter> = Vec::new();
        append_from(&mut right, &r[i], rc);
        assert(right@ =~= rv[i as int].skip(rc as int));
        nl.push(left);
        nr.push(right);
        i += 1;
    }
    assert(rows_view(nl@) =~= kern_left(lv, k as nat));
    assert(rows_view(nr@) =~= kern_right(lv, rv, k as nat));
    (nl, nr)
}

} // verus!
