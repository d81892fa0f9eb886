//! Cell references in formulas.
//!
//! A reference names a column in capital letters and a row by its
//! number. The letters are the digits of the column's number to the base
//! 26, `Z` for 0 and `A` to `Y` for 1 to 25: `Z` is column 0, `A` column
//! 1, `AZ` column 26. A `Z` in front of more letters makes the column
//! negative (`ZB` is column -2), and an `n` in front of the row number
//! makes the row negative. A `$` may stand before the column and before
//! the row. Two references with a colon between them name a block of
//! cells. A column or a row without a `$` is relative: it names the
//! cell as seen from the place where the formula was written. In a code
//! cell the columns are counted from `A`, which is column 0 there.

use crate::formulas::grammar::digits_end;
use crate::position::{Pos, Rect};
use crate::text::{decimal, digit_of, parse_decimal};
use vstd::prelude::*;

verus! {

/// The value of a column letter as a digit.
pub open spec fn letter_value(c: char) -> Option<int> {
    if 'A' <= c && c <= 'Y' {
        Some(c as int - 'A' as int + 1)
    } else if c == 'Z' {
        Some(0)
    } else {
        None
    }
}

/// The number that the letters `s` spell as digits to the base 26.
pub open spec fn letters_number(s: Seq<char>) -> Option<int>
    decreases s.len(),
{
    if s.len() == 0 {
        None
    } else if s.len() == 1 {
        letter_value(s[0])
    } else {
        match (letters_number(s.drop_last()), letter_value(s.last())) {
            (Some(a), Some(d)) => Some(a * 26 + d),
            _ => None,
        }
    }
}

/// The column that the letters `s` name.
pub open spec fn column_number(s: Seq<char>) -> Option<int> {
    if s.len() > 1 && s[0] == 'Z' {
        match letters_number(s.drop_first()) {
            Some(n) => Some(-n),
            None => None,
        }
    } else {
        letters_number(s)
    }
}

/// The first place from `i` on that holds no capital letter.
pub open spec fn letters_end(s: Seq<char>, i: int) -> int
    decreases s.len() - i,
{
    if 0 <= i < s.len() && letter_value(s[i]) is Some {
        letters_end(s, i + 1)
    } else {
        i
    }
}

/// The place behind a `$` at `i`, or `i` where none stands.
pub open spec fn skip_dollar(s: Seq<char>, i: int) -> int {
    if 0 <= i < s.len() && s[i] == '$' {
        i + 1
    } else {
        i
    }
}

/// A cell as a formula names it. A column or a row with a `$` before it
/// is fixed; one without moves along when the formula is evaluated from
/// another place than the one it was written for.
#[derive(Debug, PartialEq, Eq, Structural)]
pub struct CellName {
    pub pos: Pos,
    pub column_fixed: bool,
    pub row_fixed: bool,
}

impl Clone for CellName {
    fn clone(&self) -> (r: Self)
        ensures
            r == *self,
    {
        CellName { pos: self.pos, column_fixed: self.column_fixed, row_fixed: self.row_fixed }
    }
}

impl Copy for CellName {

}

/// How the names in a formula are read: where the formula was written
/// and where it is evaluated from.
#[derive(Debug, PartialEq, Eq, Structural)]
pub struct Frame {
    pub parsed_at: Pos,
    pub evaluated_at: Pos,
    /// Whether a reference to the cell that the formula is evaluated
    /// from counts as an error.
    pub check_circular: bool,
    /// Whether the columns are counted from `A`: `A` is then column 0,
    /// and every name means the column before the one it spells.
    pub columns_from_a: bool,
}

impl Clone for Frame {
    fn clone(&self) -> (r: Self)
        ensures
            r == *self,
    {
        Frame {
            parsed_at: self.parsed_at,
            evaluated_at: self.evaluated_at,
            check_circular: self.check_circular,
            columns_from_a: self.columns_from_a,
        }
    }
}

impl Copy for Frame {

}

impl Frame {
    /// The frame of the formula in the code cell at `pos`: it was
    /// written for that cell, is evaluated from it and may not name it,
    /// and its columns are counted from `A`.
    pub open spec fn spec_code_cell(pos: Pos) -> Frame {
        Frame { parsed_at: pos, evaluated_at: pos, check_circular: true, columns_from_a: true }
    }

    #[verifier::when_used_as_spec(spec_code_cell)]
    pub fn code_cell(pos: Pos) -> (r: Frame)
        ensures
            r == Frame::spec_code_cell(pos),
    {
        Frame { parsed_at: pos, evaluated_at: pos, check_circular: true, columns_from_a: true }
    }
}

/// The cell that `name` means in `frame`: a part that is not fixed is
/// moved as far as the place of evaluation lies from the place of
/// writing. `None` where the grid does not reach that far.
pub open spec fn resolve(name: CellName, frame: Frame) -> Option<Pos> {
    let column = if frame.columns_from_a {
        name.pos.x - 1
    } else {
        name.pos.x as int
    };
    let x = if name.column_fixed {
        column
    } else {
        column - frame.parsed_at.x + frame.evaluated_at.x
    };
    let y = if name.row_fixed {
        name.pos.y as int
    } else {
        name.pos.y - frame.parsed_at.y + frame.evaluated_at.y
    };
    if i64::MIN <= x <= i64::MAX && i64::MIN <= y <= i64::MAX {
        Some(Pos { x: x as i64, y: y as i64 })
    } else {
        None
    }
}

/// The cell that `name` means in `frame`.
pub fn resolve_name(name: CellName, frame: Frame) -> (r: Option<Pos>)
    ensures
        r == resolve(name, frame),
{
    let column: i128 = if frame.columns_from_a {
        name.pos.x as i128 - 1
    } else {
        name.pos.x as i128
    };
    let x: i128 = if name.column_fixed {
        column
    } else {
        column - frame.parsed_at.x as i128 + frame.evaluated_at.x as i128
    };
    let y: i128 = if name.row_fixed {
        name.pos.y as i128
    } else {
        name.pos.y as i128 - frame.parsed_at.y as i128 + frame.evaluated_at.y as i128
    };
    if x >= i64::MIN as i128 && x <= i64::MAX as i128 && y >= i64::MIN as i128 && y
        <= i64::MAX as i128 {
        Some(Pos { x: x as i64, y: y as i64 })
    } else {
        None
    }
}

/// The cell that the reference at `i` names, and the place behind it.
pub open spec fn cell_ref(s: Seq<char>, i: int) -> Option<(CellName, int)> {
    let c = skip_dollar(s, i);
    let a = letters_end(s, c);
    let r = skip_dollar(s, a);
    let negative = 0 <= r < s.len() && s[r] == 'n';
    let b = if negative {
        r + 1
    } else {
        r
    };
    let e = digits_end(s, b);
    if 0 <= i <= c <= a <= r <= b <= e <= s.len() {
        match (column_number(s.subrange(c, a)), decimal(s.subrange(b, e))) {
            (Some(x), Some(y)) => if -i64::MAX <= x <= i64::MAX && y <= i64::MAX {
                Some(
                    (
                        CellName {
                            pos: Pos {
                                x: x as i64,
                                y: if negative {
                                    (-y) as i64
                                } else {
                                    y as i64
                                },
                            },
                            column_fixed: c > i,
                            row_fixed: r > a,
                        },
                        e,
                    ),
                )
            } else {
                None
            },
            _ => None,
        }
    } else {
        None
    }
}

/// The smallest rectangle that holds both cells.
pub open spec fn span(p: Pos, q: Pos) -> Rect {
    Rect {
        min: Pos {
            x: if p.x <= q.x {
                p.x
            } else {
                q.x
            },
            y: if p.y <= q.y {
                p.y
            } else {
                q.y
            },
        },
        max: Pos {
            x: if p.x <= q.x {
                q.x
            } else {
                p.x
            },
            y: if p.y <= q.y {
                q.y
            } else {
                p.y
            },
        },
    }
}

/// The reference at `i`: the name of one cell or, with a colon between
/// them, the names of two corners of a block (for one cell, twice the
/// same name), and the place behind it.
pub open spec fn reference(s: Seq<char>, i: int) -> Option<(CellName, CellName, int)> {
    match cell_ref(s, i) {
        Some((p, j)) => if 0 <= j < s.len() && s[j] == ':' {
            match cell_ref(s, j + 1) {
                Some((q, k)) => Some((p, q, k)),
                None => None,
            }
        } else {
            Some((p, p, j))
        },
        None => None,
    }
}

fn letter_of(c: char) -> (r: Option<u8>)
    ensures
        match r {
            Some(d) => letter_value(c) == Some(d as int) && d <= 25,
            None => letter_value(c) is None,
        },
{
    if 'A' <= c && c <= 'Y' {
        let d: u32 = c as u32 - 'A' as u32 + 1;
        Some(d as u8)
    } else if c == 'Z' {
        Some(0)
    } else {
        None
    }
}

pub fn end_of_letters(s: &str, n: usize, i: usize) -> (k: usize)
    requires
        n == s@.len(),
        i <= n,
    ensures
        k == letters_end(s@, i as int),
        i <= k <= n,
{
    let mut k = i;
    while k < n && letter_of(s.get_char(k)).is_some()
        invariant
            i <= k <= n,
            n == s@.len(),
            letters_end(s@, k as int) == letters_end(s@, i as int),
        decreases n - k,
    {
        k += 1;
    }
    k
}

/// More letters spell no lower number.
proof fn lemma_letters_grow(s: Seq<char>, k: int)
    requires
        1 <= k <= s.len(),
        letters_number(s) is Some,
    ensures
        letters_number(s.subrange(0, k)) is Some,
        0 <= letters_number(s.subrange(0, k))->0 <= letters_number(s)->0,
    decreases s.len(),
{
    if k == s.len() {
        assert(s.subrange(0, k) =~= s);
        if s.len() > 1 {
            lemma_letters_grow(s.drop_last(), s.len() - 1);
            assert(s.drop_last().subrange(0, s.len() - 1) =~= s.drop_last());
        }
    } else {
        lemma_letters_grow(s.drop_last(), k);
        assert(s.drop_last().subrange(0, k) =~= s.subrange(0, k));
    }
}

/// Reads the letters of `s` from `start` to `end` as digits to the base 26.
fn parse_letters(s: &str, start: usize, end: usize) -> (r: Option<i64>)
    requires
        start <= end <= s@.len(),
    ensures
        match r {
            Some(x) => letters_number(s@.subrange(start as int, end as int)) == Some(x as int)
                && x >= 0,
            None => letters_number(s@.subrange(start as int, end as int)) is None
                || letters_number(s@.subrange(start as int, end as int))->0 > i64::MAX,
        },
{
    let ghost letters = s@.subrange(start as int, end as int);
    if start == end {
        return None;
    }
    let mut value: i64 = 0;
    let mut i: usize = start;
    while i < end
        invariant
            start <= i <= end <= s@.len(),
            letters == s@.subrange(start as int, end as int),
            i > start ==> letters_number(letters.subrange(0, i - start)) == Some(value as int),
            i == start ==> value == 0,
            0 <= value,
        decreases end - i,
    {
        let ghost part = letters.subrange(0, i + 1 - start);
        assert(part.last() == s@[i as int]);
        assert(part.drop_last() =~= letters.subrange(0, i - start));
        match letter_of(s.get_char(i)) {
            Some(d) => {
                if value > (i64::MAX - d as i64) / 26 {
                    proof {
                        if letters_number(letters) is Some {
                            lemma_letters_grow(letters, i + 1 - start);
                        }
                    }
                    return None;
                }
                value = value * 26 + d as i64;
            },
            None => {
                proof {
                    if letters_number(letters) is Some {
                        lemma_letters_grow(letters, i + 1 - start);
                    }
                }
                return None;
            },
        }
        i += 1;
    }
    assert(letters.subrange(0, end - start) =~= letters);
    Some(value)
}

/// Reads the letters of `s` from `start` to `end` as a column.
fn parse_column(s: &str, start: usize, end: usize) -> (r: Option<i64>)
    requires
        start <= end <= s@.len(),
    ensures
        match r {
            Some(x) => column_number(s@.subrange(start as int, end as int)) == Some(x as int)
                && -i64::MAX <= x,
            None => column_number(s@.subrange(start as int, end as int)) is None || !(-i64::MAX
                <= column_number(s@.subrange(start as int, end as int))->0 <= i64::MAX),
        },
{
    let ghost letters = s@.subrange(start as int, end as int);
    if end - start > 1 && s.get_char(start) == 'Z' {
        assert(letters.drop_first() =~= s@.subrange(start + 1, end as int));
        match parse_letters(s, start + 1, end) {
            Some(x) => Some(-x),
            None => None,
        }
    } else {
        parse_letters(s, start, end)
    }
}

fn end_of_row_digits(s: &str, n: usize, i: usize) -> (k: usize)
    requires
        n == s@.len(),
        i <= n,
    ensures
        k == digits_end(s@, i as int),
        i <= k <= n,
{
    let mut k = i;
    while k < n && digit_of(s.get_char(k)).is_some()
        invariant
            i <= k <= n,
            n == s@.len(),
            digits_end(s@, k as int) == digits_end(s@, i as int),
        decreases n - k,
    {
        k += 1;
    }
    k
}

/// Reads the reference to one cell at `i`.
pub fn parse_cell_ref(s: &str, n: usize, i: usize) -> (r: Option<(CellName, usize)>)
    requires
        n == s@.len(),
        i <= n,
    ensures
        match r {
            Some((p, j)) => cell_ref(s@, i as int) == Some((p, j as int)) && i <= j <= n,
            None => cell_ref(s@, i as int) is None,
        },
{
    let c = if i < n && s.get_char(i) == '$' {
        i + 1
    } else {
        i
    };
    let a = end_of_letters(s, n, c);
    let r = if a < n && s.get_char(a) == '$' {
        a + 1
    } else {
        a
    };
    let negative = r < n && s.get_char(r) == 'n';
    let b = if negative {
        r + 1
    } else {
        r
    };
    let e = end_of_row_digits(s, n, b);
    match (parse_column(s, c, a), parse_decimal(s, b, e, 0x7fff_ffff_ffff_ffff)) {
        (Some(x), Some(y)) => {
            let row: i64 = if negative {
                -(y as i64)
            } else {
                y as i64
            };
            Some((CellName { pos: Pos { x, y: row }, column_fixed: c > i, row_fixed: r > a }, e))
        },
        _ => None,
    }
}

/// Reads the reference to a cell or to a block of cells at `i`.
pub fn parse_reference(s: &str, n: usize, i: usize) -> (r: Option<(CellName, CellName, usize)>)
    requires
        n == s@.len(),
        i <= n,
    ensures
        match r {
            Some((p, q, j)) => reference(s@, i as int) == Some((p, q, j as int)) && i <= j <= n,
            None => reference(s@, i as int) is None,
        },
{
    match parse_cell_ref(s, n, i) {
        Some((p, j)) => {
            if j < n && s.get_char(j) == ':' {
                match parse_cell_ref(s, n, j + 1) {
                    Some((q, k)) => Some((p, q, k)),
                    None => None,
                }
            } else {
                Some((p, p, j))
            }
        },
        None => None,
    }
}

/// The smallest rectangle that holds both cells.
pub fn span_of(p: Pos, q: Pos) -> (r: Rect)
    ensures
        r == span(p, q),
{
    let min = Pos {
        x: if p.x <= q.x {
            p.x
        } else {
            q.x
        },
        y: if p.y <= q.y {
            p.y
        } else {
            q.y
        },
    };
    let max = Pos {
        x: if p.x <= q.x {
            q.x
        } else {
            p.x
        },
        y: if p.y <= q.y {
            q.y
        } else {
            p.y
        },
    };
    Rect { min, max }
}

} // verus!
