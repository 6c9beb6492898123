//! The card grid: how many columns and rows it has, and which cell a card
//! takes.
use vstd::prelude::*;

verus! {

/// The square of `w` is at least 1.6 times `n`.
pub open spec fn reaches(n: nat, w: nat) -> bool {
    5 * w * w >= 8 * n
}

/// The least number of columns from `w` on whose square is at least 1.6 times
/// the number of cards.
pub open spec fn wanted_from(n: nat, w: nat) -> nat
    decreases 8 * n + 1 - w,
{
    if w > 8 * n || reaches(n, w) {
        w
    } else {
        wanted_from(n, w + 1)
    }
}

/// The number of columns that makes the grid about 1.6 times as wide as high,
/// counted in cards: the square root of 1.6 times the number of cards, rounded
/// up, and at least 1.
pub open spec fn wanted(n: nat) -> nat {
    wanted_from(n, 1)
}

/// The smaller of two numbers.
pub open spec fn least(a: nat, b: nat) -> nat {
    if a <= b {
        a
    } else {
        b
    }
}

/// The larger of two numbers.
pub open spec fn most(a: nat, b: nat) -> nat {
    if a <= b {
        b
    } else {
        a
    }
}

/// The columns of a grid of `n` cards on a screen that has room for
/// `max_cols`: as many as wanted, but no more than fit or than there are
/// cards, and two where there are two cards.
pub open spec fn columns_for(n: nat, max_cols: nat) -> nat {
    most(least(least(wanted(n), max_cols), most(n, 1)), least(2, most(n, 1)))
}

/// The rows that `n` cards fill.
pub open spec fn rows_for(n: nat, cols: nat) -> nat {
    if n == 0 {
        0
    } else {
        ((n + cols - 1) / cols as int) as nat
    }
}

/// What `wanted` is: its square reaches 1.6 times the number of cards, and no
/// smaller number's does.
pub proof fn law_wanted_is_least(n: nat)
    ensures
        wanted(n) >= 1,
        reaches(n, wanted(n)),
        forall|v: nat| 1 <= v < wanted(n) ==> !#[trigger] reaches(n, v),
{
    lemma_wanted_from(n, 1);
}

proof fn lemma_wanted_from(n: nat, w: nat)
    requires
        w >= 1,
        forall|v: nat| 1 <= v < w ==> !#[trigger] reaches(n, v),
    ensures
        wanted_from(n, w) >= w,
        reaches(n, wanted_from(n, w)),
        forall|v: nat| 1 <= v < wanted_from(n, w) ==> !#[trigger] reaches(n, v),
    decreases 8 * n + 1 - w,
{
    if w > 8 * n {
        assert(5 * w * w >= w) by (nonlinear_arith)
            requires
                w >= 1,
        ;
    } else if !reaches(n, w) {
        lemma_wanted_from(n, w + 1);
    }
}

/// The number of columns that is wanted for `n` cards.
fn wanted_columns(n: usize) -> (r: usize)
    ensures
        r == wanted(n as nat),
{
    let mut w: usize = 1;
    loop
        invariant
            1 <= w,
            w <= 3 || w <= n,
            wanted(n as nat) == wanted_from(n as nat, w as nat),
        decreases 8 * n + 4 - w,
    {
        let wide: u128 = w as u128;
        assert(w * w <= usize::MAX * usize::MAX) by (nonlinear_arith)
            requires
                w <= usize::MAX,
        ;
        assert(usize::MAX * usize::MAX <= u64::MAX * u64::MAX) by (nonlinear_arith)
            requires
                usize::MAX <= u64::MAX,
        ;
        let reached: bool = wide * wide >= (8 * (n as u128) + 4) / 5;
        proof {
            assert(5 * w * w == 5 * (w * w)) by (nonlinear_arith);
            assert(w > 8 * n ==> 5 * (w * w) >= 8 * n) by (nonlinear_arith)
                requires
                    w >= 1,
            ;
        }
        if reached {
            return w;
        }
        proof {
            assert(5 * (w * w) < 8 * n);
            assert(w >= 3 ==> w * w >= 3 * w) by (nonlinear_arith);
        }
        w = w + 1;
    }
}

/// The columns of a grid of `n` cards on a screen that has room for
/// `max_cols`.
pub fn columns(n: usize, max_cols: usize) -> (r: usize)
    requires
        max_cols >= 1,
    ensures
        r == columns_for(n as nat, max_cols as nat),
{
    let want: usize = wanted_columns(n);
    let cards: usize = if n == 0 {
        1
    } else {
        n
    };
    let fitting: usize = if want <= max_cols {
        want
    } else {
        max_cols
    };
    let few: usize = if fitting <= cards {
        fitting
    } else {
        cards
    };
    let two: usize = if cards >= 2 {
        2
    } else {
        cards
    };
    if few <= two {
        two
    } else {
        few
    }
}

/// The rows that `n` cards fill.
pub fn rows(n: usize, cols: usize) -> (r: usize)
    requires
        cols >= 1,
    ensures
        r == rows_for(n as nat, cols as nat),
{
    if n == 0 {
        0
    } else {
        proof {
            let (a, c) = ((n - 1) as int, cols as int);
            let (q, r) = (a / c, a % c);
            vstd::arithmetic::div_mod::lemma_fundamental_div_mod(a, c);
            vstd::arithmetic::div_mod::lemma_mod_bound(a, c);
            vstd::arithmetic::div_mod::lemma_div_pos_is_pos(a, c);
            assert(q <= c * q) by (nonlinear_arith)
                requires
                    q >= 0,
                    c >= 1,
            ;
            assert(n + c - 1 == (q + 1) * c + r) by (nonlinear_arith)
                requires
                    n - 1 == c * q + r,
            ;
            vstd::arithmetic::div_mod::lemma_fundamental_div_mod_converse(
                n + c - 1,
                c,
                q + 1,
                r,
            );
        }
        (n - 1) / cols + 1
    }
}

/// The column and row of the card at `pos`.
pub fn cell(pos: usize, cols: usize) -> (r: (usize, usize))
    requires
        cols >= 1,
    ensures
        r.0 == pos as int % cols as int,
        r.1 == pos as int / cols as int,
        r.1 * cols + r.0 == pos,
        r.0 < cols,
{
    proof {
        let (p, c) = (pos as int, cols as int);
        vstd::arithmetic::div_mod::lemma_fundamental_div_mod(p, c);
        vstd::arithmetic::div_mod::lemma_mod_bound(p, c);
        assert(c * (p / c) == (p / c) * c) by (nonlinear_arith);
    }
    (pos % cols, pos / cols)
}

/// A grid has at least one column, no more than there are cards, and no more
/// than fit (but two where there are two cards).
pub proof fn law_columns_in_range(n: nat, max_cols: nat)
    requires
        max_cols >= 1,
    ensures
        1 <= columns_for(n, max_cols),
        n > 0 ==> columns_for(n, max_cols) <= n,
        columns_for(n, max_cols) <= most(max_cols, 2),
{
    law_wanted_is_least(n);
}

/// The rows hold every card, and no row is empty.
pub proof fn law_rows_hold_all(n: nat, cols: nat)
    requires
        cols >= 1,
    ensures
        rows_for(n, cols) * cols >= n,
        n > 0 ==> (rows_for(n, cols) - 1) * cols < n,
{
    if n > 0 {
        let (a, c) = (n + cols - 1, cols as int);
        vstd::arithmetic::div_mod::lemma_fundamental_div_mod(a, c);
        vstd::arithmetic::div_mod::lemma_mod_bound(a, c);
        let q = a / c;
        assert(q * c == c * q) by (nonlinear_arith);
        assert((q - 1) * c == q * c - c) by (nonlinear_arith);
        assert(q >= 0) by {
            vstd::arithmetic::div_mod::lemma_div_pos_is_pos(a, c);
        }
    }
}

/// Each card has a cell inside the grid.
pub proof fn law_cells_are_inside(pos: nat, n: nat, cols: nat)
    requires
        cols >= 1,
        pos < n,
    ensures
        0 <= pos as int % cols as int,
        (pos as int % cols as int) < cols,
        0 <= pos as int / cols as int,
        (pos as int / cols as int) < rows_for(n, cols),
{
    let (p, c) = (pos as int, cols as int);
    law_rows_hold_all(n, cols);
    vstd::arithmetic::div_mod::lemma_fundamental_div_mod(p, c);
    vstd::arithmetic::div_mod::lemma_mod_bound(p, c);
    vstd::arithmetic::div_mod::lemma_div_pos_is_pos(p, c);
    let r = rows_for(n, cols) as int;
    let q = p / c;
    if q >= r {
        assert(c * q >= r * c) by (nonlinear_arith)
            requires
                q >= r,
                c >= 1,
        ;
    }
}

/// No two cards share a cell.
pub proof fn law_cells_are_distinct(a: nat, b: nat, cols: nat)
    requires
        cols >= 1,
        a as int % cols as int == b as int % cols as int,
        a as int / cols as int == b as int / cols as int,
    ensures
        a == b,
{
    vstd::arithmetic::div_mod::lemma_fundamental_div_mod(a as int, cols as int);
    vstd::arithmetic::div_mod::lemma_fundamental_div_mod(b as int, cols as int);
}

/// What the number of columns is: for one card one, for more at least two; the
/// least whose square, five times, is eight times the number of cards, but no
/// more than there are cards and no more than fit beyond two.
pub proof fn law_columns(n: nat, max_cols: nat)
    requires
        max_cols >= 1,
    ensures
        ({
            let c = columns_for(n, max_cols);
            &&& n <= 1 ==> c == 1
            &&& n >= 2 ==> 2 <= c <= n && (c <= max_cols || c == 2)
            &&& c > 2 ==> 5 * ((c - 1) * (c - 1)) < 8 * n
            &&& c < n && c < max_cols ==> 5 * (c * c) >= 8 * n
        }),
{
    let c = columns_for(n, max_cols);
    law_wanted_is_least(n);
    let w = wanted(n);
    assert(5 * w * w == 5 * (w * w)) by (nonlinear_arith);
    if c > 2 {
        let d = (c - 1) as nat;
        assert(!reaches(n, d));
        assert(5 * d * d == 5 * (d * d)) by (nonlinear_arith);
    }
    if w == 1 {
        assert(n == 0);
    }
}

/// One card more fills the row, or begins the next one where the row is full.
pub proof fn law_one_more_card(n: nat, cols: nat)
    requires
        cols >= 1,
    ensures
        rows_for(0, cols) == 0,
        n as int % cols as int == 0 ==> rows_for(n + 1, cols) == rows_for(n, cols) + 1,
        n as int % cols as int != 0 ==> rows_for(n + 1, cols) == rows_for(n, cols),
{
    let c = cols as int;
    let (q, r) = (n as int / c, n as int % c);
    vstd::arithmetic::div_mod::lemma_fundamental_div_mod(n as int, c);
    vstd::arithmetic::div_mod::lemma_mod_bound(n as int, c);
    vstd::arithmetic::div_mod::lemma_div_pos_is_pos(n as int, c);
    assert(n + c == (q + 1) * c + r) by (nonlinear_arith)
        requires
            n == c * q + r,
    ;
    vstd::arithmetic::div_mod::lemma_fundamental_div_mod_converse(n + c, c, q + 1, r);
    if r == 0 {
        assert(n + c - 1 == q * c + (c - 1)) by (nonlinear_arith)
            requires
                n == c * q,
        ;
        vstd::arithmetic::div_mod::lemma_fundamental_div_mod_converse(n + c - 1, c, q, c - 1);
        if n == 0 {
            assert(q == 0) by (nonlinear_arith)
                requires
                    0 == c * q,
                    c >= 1,
            ;
        }
    } else {
        assert(n + c - 1 == (q + 1) * c + (r - 1)) by (nonlinear_arith)
            requires
                n == c * q + r,
        ;
        vstd::arithmetic::div_mod::lemma_fundamental_div_mod_converse(n + c - 1, c, q + 1, r - 1);
    }
}

} // verus!
