//! The initial-state loader: parses a line-oriented plaintext pattern
//! description into live cells, or places the built-in seed when no
//! description is given.
//!
//! A description line is one of: an origin directive `#P <x> <y>` setting the
//! running offset, a comment beginning with `#`, or a coordinate pair
//! `<x> <y>` naming one live cell at the offset-adjusted position. In a pair,
//! `x` names the column and `y` the row. A malformed line (wrong token count,
//! a token that is not an integer, or an out-of-bounds coordinate) is
//! silently skipped. Tokens are separated by ASCII whitespace.

use vstd::prelude::*;
use crate::grid::cell_alive;
use crate::grid::grid_wf;
use crate::grid::live_set;
use crate::grid::new_grid;
use crate::grid::set_cell;

verus! {

/// The byte values the format gives meaning to.
pub const BYTE_ZERO: u8 = 48;

pub const BYTE_NINE: u8 = 57;

pub const BYTE_PLUS: u8 = 43;

pub const BYTE_MINUS: u8 = 45;

pub const BYTE_HASH: u8 = 35;

pub const BYTE_UPPER_P: u8 = 80;

/// An ASCII whitespace byte: space, tab, line feed, vertical tab, form feed
/// or carriage return.
pub open spec fn is_space(b: u8) -> bool {
    b == 32 || b == 9 || b == 10 || b == 11 || b == 12 || b == 13
}

/// The tokens of `s` from position `i` on, with `cur` the partial token read
/// so far and `acc` the tokens already complete: a token is a maximal run of
/// non-whitespace bytes.
pub open spec fn tokens_rec(s: Seq<u8>, i: int, cur: Seq<u8>, acc: Seq<Seq<u8>>) -> Seq<Seq<u8>>
    decreases s.len() - i,
{
    if i < 0 || i >= s.len() {
        if cur.len() > 0 {
            acc.push(cur)
        } else {
            acc
        }
    } else if is_space(s[i]) {
        if cur.len() > 0 {
            tokens_rec(s, i + 1, Seq::empty(), acc.push(cur))
        } else {
            tokens_rec(s, i + 1, cur, acc)
        }
    } else {
        tokens_rec(s, i + 1, cur.push(s[i]), acc)
    }
}

/// The whitespace-separated tokens of `s` from position `from` on.
pub open spec fn tokens_from(s: Seq<u8>, from: int) -> Seq<Seq<u8>> {
    tokens_rec(s, from, Seq::empty(), Seq::empty())
}

/// Splits `line` from position `from` on into its whitespace-separated
/// tokens.
pub fn my_tokenize(line: &Vec<u8>, from: usize) -> (toks: Vec<Vec<u8>>)
    requires
        from <= line@.len(),
    ensures
        toks.deep_view() == tokens_from(line@, from as int),
{
    let mut toks: Vec<Vec<u8>> = Vec::new();
    let mut cur: Vec<u8> = Vec::new();
    let mut i = from;
    proof {
        assert(cur@ =~= Seq::<u8>::empty());
        assert(toks.deep_view() =~= Seq::<Seq<u8>>::empty());
    }
    while i < line.len()
        invariant
            from <= i <= line@.len(),
            tokens_from(line@, from as int) == tokens_rec(line@, i as int, cur@, toks.deep_view()),
        decreases line@.len() - i,
    {
        let b = line[i];
        let ghost pre_cur = cur@;
        let ghost pre_toks = toks.deep_view();
        if b == 32 || b == 9 || b == 10 || b == 11 || b == 12 || b == 13 {
            if cur.len() > 0 {
                toks.push(cur);
                cur = Vec::new();
                proof {
                    assert(toks.deep_view() =~~= pre_toks.push(pre_cur));
                    assert(cur@ =~= Seq::<u8>::empty());
                }
            }
        } else {
            cur.push(b);
        }
        i += 1;
    }
    if cur.len() > 0 {
        let ghost pre_toks = toks.deep_view();
        toks.push(cur);
        proof {
            assert(toks.deep_view() =~~= pre_toks.push(cur@));
        }
    }
    toks
}

/// A decimal digit byte.
pub open spec fn is_digit(b: u8) -> bool {
    BYTE_ZERO <= b <= BYTE_NINE
}

/// Every byte of `s` is a decimal digit.
pub open spec fn all_digits(s: Seq<u8>) -> bool {
    forall|i: int| 0 <= i < s.len() ==> is_digit(#[trigger] s[i])
}

/// The value of a digit string, most significant digit first.
pub open spec fn digits_val(s: Seq<u8>) -> int
    decreases s.len(),
{
    if s.len() == 0 {
        0
    } else {
        digits_val(s.drop_last()) * 10 + (s.last() - BYTE_ZERO)
    }
}

/// The integer a token stands for: an optional sign, then at least one
/// decimal digit and nothing else; `None` for any other shape.
pub open spec fn int_token_val(s: Seq<u8>) -> Option<int> {
    let body = if s.len() > 0 && (s[0] == BYTE_PLUS || s[0] == BYTE_MINUS) {
        s.drop_first()
    } else {
        s
    };
    if body.len() > 0 && all_digits(body) {
        if s[0] == BYTE_MINUS {
            Some(-digits_val(body))
        } else {
            Some(digits_val(body))
        }
    } else {
        None
    }
}

/// The integer a token parses to: its value when the token is well formed
/// and the value fits a 64-bit signed integer, else `None`.
pub open spec fn parse_int_spec(s: Seq<u8>) -> Option<int> {
    match int_token_val(s) {
        Some(v) => if i64::MIN <= v <= i64::MAX {
            Some(v)
        } else {
            None
        },
        None => None,
    }
}

/// The value of a digit string is never negative.
proof fn lemma_digits_val_nonneg(s: Seq<u8>)
    requires
        all_digits(s),
    ensures
        digits_val(s) >= 0,
    decreases s.len(),
{
    if s.len() > 0 {
        assert(all_digits(s.drop_last()));
        lemma_digits_val_nonneg(s.drop_last());
    }
}

/// Extending a digit string never shrinks its value: a prefix values at most
/// the whole.
proof fn lemma_digits_val_prefix_le(s: Seq<u8>, k: int)
    requires
        all_digits(s),
        0 <= k <= s.len(),
    ensures
        digits_val(s.take(k)) <= digits_val(s),
    decreases s.len() - k,
{
    if k == s.len() {
        assert(s.take(k) =~= s);
    } else {
        lemma_digits_val_prefix_le(s, k + 1);
        assert(s.take(k + 1).drop_last() =~= s.take(k));
        assert(s.take(k + 1).last() == s[k]);
        assert(all_digits(s.take(k)));
        lemma_digits_val_nonneg(s.take(k));
        assert(digits_val(s.take(k + 1)) == digits_val(s.take(k)) * 10 + (s[k] - BYTE_ZERO));
    }
}

/// Parses a token as a signed 64-bit decimal integer: an optional sign, then
/// at least one digit and nothing else; `None` when the token has another
/// shape or its value does not fit.
pub fn my_parse_int(t: &Vec<u8>) -> (r: Option<i64>)
    ensures
        match r {
            Some(v) => parse_int_spec(t@) == Some(v as int),
            None => parse_int_spec(t@) is None,
        },
{
    let n = t.len();
    if n == 0 {
        return None;
    }
    let neg = t[0] == BYTE_MINUS;
    let start: usize = if neg || t[0] == BYTE_PLUS {
        1
    } else {
        0
    };
    let ghost body = if start == 1 {
        t@.drop_first()
    } else {
        t@
    };
    if start == n {
        return None;
    }
    let mut mag: i128 = 0;
    let mut i = start;
    while i < n
        invariant
            start <= i <= n,
            n == t@.len(),
            n > 0,
            start <= 1,
            (start == 1) == (t@[0] == BYTE_PLUS || t@[0] == BYTE_MINUS),
            body == (if start == 1 {
                t@.drop_first()
            } else {
                t@
            }),
            body.len() == n - start,
            forall|j: int| 0 <= j < body.len() ==> body[j] == t@[j + start],
            all_digits(body.take(i - start)),
            mag == digits_val(body.take(i - start)),
            0 <= mag <= 0x8000_0000_0000_0000,
        decreases n - i,
    {
        let b = t[i];
        if b < BYTE_ZERO || b > BYTE_NINE {
            proof {
                assert(body[i - start] == t@[i as int]);
                assert(!all_digits(body));
            }
            return None;
        }
        proof {
            assert(body[i - start] == t@[i as int]);
            assert(body.take(i - start + 1).drop_last() =~= body.take(i - start));
            assert(body.take(i - start + 1).last() == body[i - start]);
            assert(all_digits(body.take(i - start + 1)));
        }
        mag = mag * 10 + (b - BYTE_ZERO) as i128;
        if mag > 0x8000_0000_0000_0000i128 {
            proof {
                if all_digits(body) {
                    lemma_digits_val_prefix_le(body, i - start + 1);
                }
            }
            return None;
        }
        i += 1;
    }
    proof {
        assert(body.take(i - start) =~= body);
    }
    if neg {
        Some((-mag) as i64)
    } else {
        if mag > 0x7fff_ffff_ffff_ffffi128 {
            return None;
        }
        Some(mag as i64)
    }
}

/// The loader's running state: the origin offset and the set of (row,
/// column) pairs marked alive so far.
#[verifier::ext_equal]
pub struct LoaderState {
    pub px: int,
    pub py: int,
    pub live: Set<(int, int)>,
}

/// The state the loader starts from: offset (0, 0) and no cell alive.
pub open spec fn init_state() -> LoaderState {
    LoaderState { px: 0, py: 0, live: Set::empty() }
}

/// An origin directive line: it begins with the two bytes `#P`.
pub open spec fn is_directive(line: Seq<u8>) -> bool {
    line.len() >= 2 && line[0] == BYTE_HASH && line[1] == BYTE_UPPER_P
}

/// A comment line: it begins with `#` but not with `#P`.
pub open spec fn is_comment(line: Seq<u8>) -> bool {
    line.len() >= 1 && line[0] == BYTE_HASH && !is_directive(line)
}

/// The loader state after one line. A directive whose remainder is exactly
/// two integer tokens `<x> <y>` replaces the offset by (x, y); a comment
/// changes nothing; a coordinate line of exactly two integer tokens
/// `<x> <y>` marks the cell at row `y + py`, column `x + px` alive when that
/// position lies inside the grid; every other line changes nothing.
pub open spec fn line_step(height: int, width: int, st: LoaderState, line: Seq<u8>) -> LoaderState {
    if is_directive(line) {
        let toks = tokens_from(line, 2);
        if toks.len() == 2 {
            match (parse_int_spec(toks[0]), parse_int_spec(toks[1])) {
                (Some(x), Some(y)) => LoaderState { px: x, py: y, live: st.live },
                _ => st,
            }
        } else {
            st
        }
    } else if is_comment(line) {
        st
    } else {
        let toks = tokens_from(line, 0);
        if toks.len() == 2 {
            match (parse_int_spec(toks[0]), parse_int_spec(toks[1])) {
                (Some(x), Some(y)) => {
                    let col = x + st.px;
                    let row = y + st.py;
                    if 0 <= row < height && 0 <= col < width {
                        LoaderState { px: st.px, py: st.py, live: st.live.insert((row, col)) }
                    } else {
                        st
                    }
                },
                _ => st,
            }
        } else {
            st
        }
    }
}

/// The loader state after the lines from index `i` on, starting from `st`.
pub open spec fn load_rec(
    height: int,
    width: int,
    lines: Seq<Seq<u8>>,
    i: int,
    st: LoaderState,
) -> LoaderState
    decreases lines.len() - i,
{
    if i < 0 || i >= lines.len() {
        st
    } else {
        load_rec(height, width, lines, i + 1, line_step(height, width, st, lines[i]))
    }
}

/// The cells a description marks alive, as (row, column) pairs.
pub open spec fn loaded_live(height: int, width: int, lines: Seq<Seq<u8>>) -> Set<(int, int)> {
    load_rec(height, width, lines, 0, init_state()).live
}

/// The five live cells of the built-in seed, as (row, column) pairs.
pub open spec fn seed_cells() -> Set<(int, int)> {
    set![(20int, 30int), (20int, 32int), (22int, 30int), (22int, 31int), (23int, 31int)]
}

/// Fills the grid with the initial generation. Without a description every
/// cell is dead but the five seed cells; with one, every cell is dead but
/// those the description's lines mark alive.
pub fn my_init_cells(
    height: usize,
    width: usize,
    cell: &mut Vec<Vec<i32>>,
    lines: Option<&Vec<Vec<u8>>>,
)
    requires
        grid_wf(height as int, width as int, old(cell).deep_view()),
        lines is None ==> height >= 24 && width >= 33,
    ensures
        grid_wf(height as int, width as int, final(cell).deep_view()),
        match lines {
            None => forall|y: int, x: int|
                0 <= y < height && 0 <= x < width ==> (cell_alive(final(cell).deep_view(), y, x)
                    <==> seed_cells().contains((y, x))),
            Some(ls) => forall|y: int, x: int|
                0 <= y < height && 0 <= x < width ==> (cell_alive(final(cell).deep_view(), y, x)
                    <==> loaded_live(height as int, width as int, ls.deep_view()).contains(
                    (y, x),
                )),
        },
{
    let fresh = new_grid(height, width);
    *cell = fresh;
    match lines {
        None => {
            let ghost g0 = cell.deep_view();
            set_cell(height, width, cell, 20, 30, true);
            let ghost g1 = cell.deep_view();
            set_cell(height, width, cell, 20, 32, true);
            let ghost g2 = cell.deep_view();
            set_cell(height, width, cell, 22, 30, true);
            let ghost g3 = cell.deep_view();
            set_cell(height, width, cell, 22, 31, true);
            let ghost g4 = cell.deep_view();
            set_cell(height, width, cell, 23, 31, true);
            proof {
                assert forall|y: int, x: int| 0 <= y < height && 0 <= x < width implies (cell_alive(
                    cell.deep_view(),
                    y,
                    x,
                ) <==> seed_cells().contains((y, x))) by {
                    if !seed_cells().contains((y, x)) {
                        assert(cell.deep_view()[y][x] == g4[y][x]);
                        assert(g4[y][x] == g3[y][x]);
                        assert(g3[y][x] == g2[y][x]);
                        assert(g2[y][x] == g1[y][x]);
                        assert(g1[y][x] == g0[y][x]);
                        assert(!cell_alive(g0, y, x));
                    }
                }
            }
        },
        Some(ls) => {
            let ghost lv = ls.deep_view();
            let mut px: i64 = 0;
            let mut py: i64 = 0;
            let mut i: usize = 0;
            proof {
                assert(live_set(height as int, width as int, cell.deep_view())
                    =~= Set::<(int, int)>::empty());
                assert(LoaderState {
                    px: px as int,
                    py: py as int,
                    live: live_set(height as int, width as int, cell.deep_view()),
                } =~= init_state());
            }
            while i < ls.len()
                invariant
                    grid_wf(height as int, width as int, cell.deep_view()),
                    i <= ls@.len(),
                    lv == ls.deep_view(),
                    load_rec(height as int, width as int, lv, 0, init_state()) == load_rec(
                        height as int,
                        width as int,
                        lv,
                        i as int,
                        LoaderState {
                            px: px as int,
                            py: py as int,
                            live: live_set(height as int, width as int, cell.deep_view()),
                        },
                    ),
                decreases ls@.len() - i,
            {
                let ghost pre_st = LoaderState {
                    px: px as int,
                    py: py as int,
                    live: live_set(height as int, width as int, cell.deep_view()),
                };
                let line: &Vec<u8> = &ls[i];
                proof {
                    assert(line@ =~= lv[i as int]);
                }
                if line.len() >= 2 && line[0] == BYTE_HASH && line[1] == BYTE_UPPER_P {
                    let toks = my_tokenize(line, 2);
                    if toks.len() == 2 {
                        proof {
                            assert(toks@[0]@ =~= toks.deep_view()[0]);
                            assert(toks@[1]@ =~= toks.deep_view()[1]);
                        }
                        let a = my_parse_int(&toks[0]);
                        let b = my_parse_int(&toks[1]);
                        if let (Some(x), Some(y)) = (a, b) {
                            px = x;
                            py = y;
                        }
                    }
                } else if line.len() >= 1 && line[0] == BYTE_HASH {
                } else {
                    let toks = my_tokenize(line, 0);
                    if toks.len() == 2 {
                        proof {
                            assert(toks@[0]@ =~= toks.deep_view()[0]);
                            assert(toks@[1]@ =~= toks.deep_view()[1]);
                        }
                        let a = my_parse_int(&toks[0]);
                        let b = my_parse_int(&toks[1]);
                        if let (Some(x), Some(y)) = (a, b) {
                            let col: i128 = x as i128 + px as i128;
                            let row: i128 = y as i128 + py as i128;
                            if 0 <= row && row < height as i128 && 0 <= col && col
                                < width as i128 {
                                let ghost pre_live = live_set(
                                    height as int,
                                    width as int,
                                    cell.deep_view(),
                                );
                                set_cell(height, width, cell, row as usize, col as usize, true);
                                proof {
                                    assert(live_set(height as int, width as int, cell.deep_view())
                                        =~= pre_live.insert((row as int, col as int)));
                                }
                            }
                        }
                    }
                }
                proof {
                    let post_st = LoaderState {
                        px: px as int,
                        py: py as int,
                        live: live_set(height as int, width as int, cell.deep_view()),
                    };
                    assert(post_st =~= line_step(height as int, width as int, pre_st, lv[i as int]));
                    assert(load_rec(height as int, width as int, lv, i as int, pre_st) == load_rec(
                        height as int,
                        width as int,
                        lv,
                        i + 1,
                        line_step(height as int, width as int, pre_st, lv[i as int]),
                    ));
                }
                i += 1;
            }
            proof {
                let st = LoaderState {
                    px: px as int,
                    py: py as int,
                    live: live_set(height as int, width as int, cell.deep_view()),
                };
                assert(load_rec(height as int, width as int, lv, i as int, st) == st);
            }
        },
    }
}

/// A coordinate line that does not hold exactly two integer tokens alters
/// neither a cell nor the running offset.
pub proof fn lemma_malformed_coordinate_ignored(
    height: int,
    width: int,
    st: LoaderState,
    line: Seq<u8>,
)
    requires
        line.len() == 0 || line[0] != BYTE_HASH,
        tokens_from(line, 0).len() != 2 || parse_int_spec(tokens_from(line, 0)[0]) is None
            || parse_int_spec(tokens_from(line, 0)[1]) is None,
    ensures
        line_step(height, width, st, line) == st,
{
}

/// A directive line whose remainder is not exactly two integer tokens alters
/// neither a cell nor the running offset.
pub proof fn lemma_malformed_directive_ignored(
    height: int,
    width: int,
    st: LoaderState,
    line: Seq<u8>,
)
    requires
        is_directive(line),
        tokens_from(line, 2).len() != 2 || parse_int_spec(tokens_from(line, 2)[0]) is None
            || parse_int_spec(tokens_from(line, 2)[1]) is None,
    ensures
        line_step(height, width, st, line) == st,
{
}

} // verus!
