//! What a formula means: the grammar and the value of each form.
//!
//! A formula is made of whole numbers, texts in single or double quotes,
//! references to cells and to blocks of cells, parentheses, and the
//! functions `SUM`, `AVERAGE` and `IF`, and the operators `=`, `<` and `>` (which
//! give 1 or 0), `&` (joins texts), `+` and `-`, `*`, `^` (power, grouping
//! to the right) and the sign `-`, from the one that binds least to the
//! one that binds most. Every value is a block of cell values; a number, a
//! text and a single cell are blocks of one value. An operator works
//! cell by cell on two blocks of the same size, and a block of one value
//! goes with every cell of the other block.

use crate::formulas::references::{
    letter_value, letters_end, reference, resolve, span, CellName, Frame,
};
use crate::grid::sheet::SheetView;
use crate::outside::text_string;
use crate::position::{Pos, Rect};
use crate::text::{decimal, digit_value, fraction_digits, fraction_text, integer_text};
use crate::values::CellValue;
use vstd::prelude::*;

verus! {

/// The greatest number of cells that a reference in a formula may name.
pub const CELL_RANGE_LIMIT: u32 = 1_000_000;

/// Why a formula has no value.
#[derive(Debug, PartialEq, Eq, Structural)]
pub enum FormulaError {
    /// The text is not a formula.
    Syntax,
    /// A number does not fit in 64 bits.
    Overflow,
    /// A text stands where a number is needed.
    ExpectedNumber,
    /// A number is raised to a negative power.
    NegativeExponent,
    /// A reference names more cells than a formula may read.
    RangeTooLarge,
    /// A reference names a cell beyond the grid.
    BadReference,
    /// A reference names the cell that the formula is evaluated from.
    CircularReference,
    /// An operator stands between two blocks of different sizes, neither
    /// of them a single value.
    ArraySizeMismatch { expected_height: u32, expected_width: u32, got_height: u32, got_width: u32 },
}

impl Clone for FormulaError {
    fn clone(&self) -> (r: Self)
        ensures
            r == *self,
    {
        match self {
            FormulaError::Syntax => FormulaError::Syntax,
            FormulaError::Overflow => FormulaError::Overflow,
            FormulaError::ExpectedNumber => FormulaError::ExpectedNumber,
            FormulaError::NegativeExponent => FormulaError::NegativeExponent,
            FormulaError::RangeTooLarge => FormulaError::RangeTooLarge,
            FormulaError::BadReference => FormulaError::BadReference,
            FormulaError::CircularReference => FormulaError::CircularReference,
            FormulaError::ArraySizeMismatch {
                expected_height,
                expected_width,
                got_height,
                got_width,
            } => FormulaError::ArraySizeMismatch {
                expected_height: *expected_height,
                expected_width: *expected_width,
                got_height: *got_height,
                got_width: *got_width,
            },
        }
    }
}

impl Copy for FormulaError {

}

/// The value of a formula or of a part of one: a block of cell values,
/// stored row by row.
pub struct Block {
    pub width: int,
    pub height: int,
    pub values: Seq<CellValue>,
}

impl Block {
    /// The block of the one value `v`.
    pub open spec fn single(v: CellValue) -> Block {
        Block { width: 1, height: 1, values: seq![v] }
    }

    /// Whether the block holds one value.
    pub open spec fn is_single(self) -> bool {
        self.width == 1 && self.height == 1
    }

    /// The block has a value for each of its cells, and no more cells
    /// than a formula may read.
    pub open spec fn wf(self) -> bool {
        &&& 1 <= self.width <= CELL_RANGE_LIMIT
        &&& 1 <= self.height <= CELL_RANGE_LIMIT
        &&& self.width * self.height <= CELL_RANGE_LIMIT
        &&& self.values.len() == self.width * self.height
    }

    /// The value that goes with the cell `i` of the other operand: the
    /// one value of a single block, the value of the same cell otherwise.
    pub open spec fn pick(self, i: int) -> CellValue {
        if self.is_single() {
            self.values[0]
        } else {
            self.values[i]
        }
    }
}

/// A value or the reason why there is none.
pub type Outcome = Result<Block, FormulaError>;

/// Whether `n` fits in an `i64`.
pub open spec fn fits(n: int) -> bool {
    i64::MIN <= n <= i64::MAX
}

/// A number, where it fits.
pub open spec fn number(n: int) -> Result<CellValue, FormulaError> {
    if fits(n) {
        Ok(CellValue::Number(n as i64))
    } else {
        Err(FormulaError::Overflow)
    }
}

/// `b` to the power of `e`, by `e` multiplications: there is no value
/// where one of the products does not fit.
pub open spec fn power(b: int, e: nat) -> Result<CellValue, FormulaError>
    decreases e,
{
    if e == 0 {
        number(1)
    } else {
        match power(b, (e - 1) as nat) {
            Ok(CellValue::Number(p)) => number(p * b),
            other => other,
        }
    }
}

/// Once a product does not fit, no higher power has a value.
pub proof fn lemma_power_stays_err(b: int, k: nat, e: nat)
    requires
        power(b, k) is Err,
        k <= e,
    ensures
        power(b, e) == power(b, k),
    decreases e - k,
{
    if k < e {
        lemma_power_stays_err(b, k, (e - 1) as nat);
    }
}

/// The powers of 0, 1 and -1.
pub proof fn lemma_power_unit(b: int, e: nat)
    requires
        -1 <= b <= 1,
    ensures
        power(b, e) == Ok::<CellValue, FormulaError>(
            CellValue::Number(
                if e == 0 {
                    1i64
                } else if b == 0 {
                    0i64
                } else if b == 1 || e % 2 == 0 {
                    1i64
                } else {
                    -1i64
                },
            ),
        ),
    decreases e,
{
    if e > 0 {
        lemma_power_unit(b, (e - 1) as nat);
        let p = power(b, (e - 1) as nat)->Ok_0->Number_0 as int;
        assert(p * b == if b == 0 {
            0
        } else if b == 1 {
            p
        } else {
            -p
        }) by (nonlinear_arith)
            requires
                -1 <= b <= 1,
        ;
    }
}

/// The number that a cell value counts as: an empty cell counts as 0,
/// and a text as no number.
pub open spec fn as_number(v: CellValue) -> Option<int> {
    match v {
        CellValue::Blank => Some(0),
        CellValue::Number(n) => Some(n as int),
        _ => None,
    }
}

/// A cell value as text: a number in decimal digits, an empty cell as
/// no text.
pub open spec fn scalar_text(v: CellValue) -> Seq<char> {
    match v {
        CellValue::Blank => Seq::empty(),
        CellValue::Number(n) => integer_text(n as int),
        CellValue::Text(t) => t@,
        CellValue::Html(t) => t@,
        CellValue::Code(c) => c.code@,
        CellValue::Decimal { negative, whole, fraction } => fraction_text(
            negative,
            whole as nat,
            fraction@,
        ),
    }
}

/// Whether two cell values are the same: two numbers by their amount,
/// two texts letter by letter; a number is never the same as a text.
pub open spec fn same(x: CellValue, y: CellValue) -> bool {
    match (as_number(x), as_number(y)) {
        (Some(a), Some(b)) => a == b,
        (None, None) => scalar_text(x) == scalar_text(y),
        _ => false,
    }
}

/// 1 for what holds and 0 for what does not.
pub open spec fn truth(b: bool) -> CellValue {
    CellValue::Number(
        if b {
            1
        } else {
            0
        },
    )
}

/// The value of `x op y` for two cell values: `&` joins them as texts,
/// `=` says whether they are the same, the other operators take them as
/// numbers.
pub open spec fn scalar_op(op: char, x: CellValue, y: CellValue) -> Result<
    CellValue,
    FormulaError,
> {
    if op == '&' {
        Ok(CellValue::Text(text_string(scalar_text(x) + scalar_text(y))))
    } else if op == '=' {
        Ok(truth(same(x, y)))
    } else {
        match (as_number(x), as_number(y)) {
            (Some(a), Some(b)) => if op == '+' {
                number(a + b)
            } else if op == '-' {
                number(a - b)
            } else if op == '*' {
                number(a * b)
            } else if op == '<' {
                Ok(truth(a < b))
            } else if op == '>' {
                Ok(truth(a > b))
            } else if b < 0 {
                Err(FormulaError::NegativeExponent)
            } else {
                power(a, b as nat)
            },
            _ => Err(FormulaError::ExpectedNumber),
        }
    }
}

/// The values of `a op b` for the first `n` cells, cell by cell. The
/// first cell without a value decides the error.
pub open spec fn zipped(op: char, a: Block, b: Block, n: int) -> Result<Seq<CellValue>, FormulaError>
    decreases n,
{
    if n <= 0 {
        Ok(Seq::empty())
    } else {
        match zipped(op, a, b, n - 1) {
            Ok(before) => match scalar_op(op, a.pick(n - 1), b.pick(n - 1)) {
                Ok(v) => Ok(before.push(v)),
                Err(e) => Err(e),
            },
            Err(e) => Err(e),
        }
    }
}

/// Once a cell has no value, the block has none.
pub proof fn lemma_zipped_stays_err(op: char, a: Block, b: Block, k: int, n: int)
    requires
        zipped(op, a, b, k) is Err,
        k <= n,
    ensures
        zipped(op, a, b, n) == zipped(op, a, b, k),
    decreases n - k,
{
    if k < n {
        lemma_zipped_stays_err(op, a, b, k, n - 1);
    }
}

/// The value of `a op b`. An error on the left comes before one on the
/// right. A block of one value goes with every cell of the other block;
/// two larger blocks must have the same size, and the error for blocks
/// that differ names the size of the left one as expected.
pub open spec fn combine(op: char, a: Outcome, b: Outcome) -> Outcome {
    match (a, b) {
        (Err(e), _) => Err(e),
        (_, Err(e)) => Err(e),
        (Ok(x), Ok(y)) => {
            let shape = if x.is_single() {
                y
            } else {
                x
            };
            if !x.is_single() && !y.is_single() && (x.width != y.width || x.height != y.height) {
                Err(
                    FormulaError::ArraySizeMismatch {
                        expected_height: x.height as u32,
                        expected_width: x.width as u32,
                        got_height: y.height as u32,
                        got_width: y.width as u32,
                    },
                )
            } else {
                match zipped(op, x, y, shape.width * shape.height) {
                    Ok(values) => Ok(Block { width: shape.width, height: shape.height, values }),
                    Err(e) => Err(e),
                }
            }
        },
    }
}

/// The value with its sign changed: 0 less the value.
pub open spec fn negate(v: Outcome) -> Outcome {
    combine('-', Ok(Block::single(CellValue::Number(0))), v)
}

/// What the cells of `rect` show on the sheet `cells`, row by row; an
/// empty cell shows a blank value. There is no value for more cells
/// than a formula may read.
pub open spec fn block_of(cells: SheetView, rect: Rect) -> Outcome {
    let w = rect.max.x - rect.min.x + 1;
    let h = rect.max.y - rect.min.y + 1;
    if w <= 0 || h <= 0 || w > CELL_RANGE_LIMIT || h > CELL_RANGE_LIMIT || w * h
        > CELL_RANGE_LIMIT {
        Err(FormulaError::RangeTooLarge)
    } else {
        Ok(
            Block {
                width: w,
                height: h,
                values: Seq::new(
                    (w * h) as nat,
                    |k: int|
                        CellValue::or_blank(
                            cells.display(
                                Pos {
                                    x: (rect.min.x + k % w) as i64,
                                    y: (rect.min.y + k / w) as i64,
                                },
                            ),
                        ),
                ),
            },
        )
    }
}

/// What the block between the corners `p` and `q` shows, as named in
/// `frame`. A corner beyond the grid is an error, and so is, where the
/// frame asks for it, a block that holds the cell of evaluation.
pub open spec fn named_block(cells: SheetView, frame: Frame, p: CellName, q: CellName) -> Outcome {
    match (resolve(p, frame), resolve(q, frame)) {
        (Some(a), Some(b)) => {
            let rect = span(a, b);
            if frame.check_circular && rect.min.x <= frame.evaluated_at.x <= rect.max.x
                && rect.min.y <= frame.evaluated_at.y <= rect.max.y {
                Err(FormulaError::CircularReference)
            } else {
                block_of(cells, rect)
            }
        },
        _ => Err(FormulaError::BadReference),
    }
}

/// `acc` and the first `n` values of the block, added up one after the
/// other.
pub open spec fn folded(acc: CellValue, b: Block, n: int) -> Result<CellValue, FormulaError>
    decreases n,
{
    if n <= 0 {
        Ok(acc)
    } else {
        match folded(acc, b, n - 1) {
            Ok(t) => scalar_op('+', t, b.values[n - 1]),
            Err(e) => Err(e),
        }
    }
}

/// The sum `total` shared out among `count`: a whole number where the
/// division comes out even, and else a number with at most nine digits
/// behind the point, what lies beyond them cut off.
#[verifier::opaque]
pub open spec fn mean(total: int, count: int) -> CellValue {
    let size = if total < 0 {
        -total
    } else {
        total
    };
    if size % count == 0 {
        CellValue::Number(
            (if total < 0 {
                -(size / count)
            } else {
                size / count
            }) as i64,
        )
    } else {
        CellValue::Decimal {
            negative: total < 0,
            whole: (size / count) as u64,
            fraction: text_string(fraction_digits(size % count, count, 9)),
        }
    }
}

/// What `AVERAGE` gives for the sum `t` of `count` values.
pub open spec fn mean_of(t: CellValue, count: int) -> Outcome {
    match as_number(t) {
        Some(total) => if count > 0 {
            Ok(Block::single(mean(total, count)))
        } else {
            Err(FormulaError::ExpectedNumber)
        },
        None => Err(FormulaError::ExpectedNumber),
    }
}

/// What `IF` gives for a condition and two values: the first value where
/// the condition is a number other than 0, the second where it is 0.
pub open spec fn chosen(c: Block, a: Block, b: Block) -> Outcome {
    if !c.is_single() {
        Err(FormulaError::ExpectedNumber)
    } else {
        match as_number(c.values[0]) {
            Some(n) => Ok(
                if n != 0 {
                    a
                } else {
                    b
                },
            ),
            None => Err(FormulaError::ExpectedNumber),
        }
    }
}

/// Whether the letters from `k` to `a` spell `SUM`.
pub open spec fn spells_sum(s: Seq<char>, k: int, a: int) -> bool {
    a == k + 3 && 0 <= k && a <= s.len() && s[k] == 'S' && s[k + 1] == 'U' && s[k + 2] == 'M'
}

/// Whether the letters from `k` to `a` spell `AVERAGE`.
pub open spec fn spells_average(s: Seq<char>, k: int, a: int) -> bool {
    a == k + 7 && 0 <= k && a <= s.len() && s[k] == 'A' && s[k + 1] == 'V' && s[k + 2] == 'E'
        && s[k + 3] == 'R' && s[k + 4] == 'A' && s[k + 5] == 'G' && s[k + 6] == 'E'
}

/// Whether the letters from `k` to `a` spell `IF`.
pub open spec fn spells_if(s: Seq<char>, k: int, a: int) -> bool {
    a == k + 2 && 0 <= k && a <= s.len() && s[k] == 'I' && s[k + 1] == 'F'
}

/// Whether the character is one of the operators that compare.
pub open spec fn compares(c: char) -> bool {
    c == '=' || c == '<' || c == '>'
}

/// Whether the character is blank space.
pub open spec fn is_space(c: char) -> bool {
    c == ' ' || c == '\t' || c == '\n' || c == '\r'
}

/// The first place from `i` on that holds no space.
pub open spec fn skip_spaces(s: Seq<char>, i: int) -> int
    decreases s.len() - i,
{
    if 0 <= i < s.len() && is_space(s[i]) {
        skip_spaces(s, i + 1)
    } else {
        i
    }
}

/// The first place from `i` on that holds no digit.
pub open spec fn digits_end(s: Seq<char>, i: int) -> int
    decreases s.len() - i,
{
    if 0 <= i < s.len() && digit_value(s[i]) is Some {
        digits_end(s, i + 1)
    } else {
        i
    }
}

/// The first place from `i` on that holds `quote`, or the end.
pub open spec fn quote_end(s: Seq<char>, i: int, quote: char) -> int
    decreases s.len() - i,
{
    if 0 <= i < s.len() && s[i] != quote {
        quote_end(s, i + 1, quote)
    } else {
        i
    }
}

/// A number, a quoted text, a reference, a function with its arguments,
/// or a formula in parentheses, read from `i`. The result is the value and the place behind what was
/// read.
pub open spec fn atom(cells: SheetView, frame: Frame, s: Seq<char>, i: int) -> (Outcome, int)
    decreases s.len() - i, 1int,
{
    let k = skip_spaces(s, i);
    if k < i || k >= s.len() {
        (Err(FormulaError::Syntax), k)
    } else if digit_value(s[k]) is Some {
        let e = digits_end(s, k);
        match decimal(s.subrange(k, e)) {
            Some(n) => (
                match number(n) {
                    Ok(v) => Ok(Block::single(v)),
                    Err(e) => Err(e),
                },
                e,
            ),
            None => (Err(FormulaError::Syntax), e),
        }
    } else if s[k] == '\'' || s[k] == '"' {
        let e = quote_end(s, k + 1, s[k]);
        if e >= s.len() {
            (Err(FormulaError::Syntax), e)
        } else {
            (Ok(Block::single(CellValue::Text(text_string(s.subrange(k + 1, e))))), e + 1)
        }
    } else if s[k] == '(' {
        let (v, j) = compared(cells, frame, s, k + 1);
        let m = skip_spaces(s, j);
        if v is Err {
            (v, j)
        } else if 0 <= m < s.len() && s[m] == ')' {
            (v, m + 1)
        } else {
            (Err(FormulaError::Syntax), m)
        }
    } else if letter_value(s[k]) is Some || s[k] == '$' {
        let a = letters_end(s, k);
        if k < a < s.len() && s[a] == '(' {
            if spells_sum(s, k, a) {
                total(cells, frame, s, a + 1, CellValue::Number(0))
            } else if spells_average(s, k, a) {
                averaged(cells, frame, s, a + 1, CellValue::Number(0), 0)
            } else if spells_if(s, k, a) {
                conditional(cells, frame, s, a + 1)
            } else {
                (Err(FormulaError::Syntax), k)
            }
        } else {
            match reference(s, k) {
                Some((p, q, e)) => (named_block(cells, frame, p, q), e),
                None => (Err(FormulaError::Syntax), k),
            }
        }
    } else {
        (Err(FormulaError::Syntax), k)
    }
}

/// An atom with any number of signs before it.
pub open spec fn signed(cells: SheetView, frame: Frame, s: Seq<char>, i: int) -> (Outcome, int)
    decreases s.len() - i, 2int,
{
    let k = skip_spaces(s, i);
    if k < i || k > s.len() {
        (Err(FormulaError::Syntax), k)
    } else if k < s.len() && s[k] == '-' {
        let (v, j) = signed(cells, frame, s, k + 1);
        (negate(v), j)
    } else {
        atom(cells, frame, s, k)
    }
}

/// A signed atom, or one raised to a power; `a ^ b ^ c` is `a ^ (b ^ c)`.
pub open spec fn powered(cells: SheetView, frame: Frame, s: Seq<char>, i: int) -> (Outcome, int)
    decreases s.len() - i, 3int,
{
    let (b, j) = signed(cells, frame, s, i);
    let k = skip_spaces(s, j);
    if b is Ok && i <= k < s.len() && s[k] == '^' {
        let (e, m) = powered(cells, frame, s, k + 1);
        (combine('^', b, e), m)
    } else {
        (b, j)
    }
}

/// The factors that follow the product `acc`, which ends at `j`.
pub open spec fn product_rest(cells: SheetView, frame: Frame, s: Seq<char>, j: int, acc: Outcome) -> (
    Outcome,
    int,
)
    decreases s.len() - j, 4int,
{
    let k = skip_spaces(s, j);
    if acc is Ok && j <= k < s.len() && s[k] == '*' {
        let (r, m) = powered(cells, frame, s, k + 1);
        if m <= k || m > s.len() {
            (Err(FormulaError::Syntax), m)
        } else {
            product_rest(cells, frame, s, m, combine('*', acc, r))
        }
    } else {
        (acc, j)
    }
}

/// A product of powers.
pub open spec fn product(cells: SheetView, frame: Frame, s: Seq<char>, i: int) -> (Outcome, int)
    decreases s.len() - i, 5int,
{
    let (l, j) = powered(cells, frame, s, i);
    if j < i || j > s.len() {
        (Err(FormulaError::Syntax), j)
    } else {
        product_rest(cells, frame, s, j, l)
    }
}

/// The terms that follow the sum `acc`, which ends at `j`.
pub open spec fn sum_rest(cells: SheetView, frame: Frame, s: Seq<char>, j: int, acc: Outcome) -> (Outcome, int)
    decreases s.len() - j, 6int,
{
    let k = skip_spaces(s, j);
    if acc is Ok && j <= k < s.len() && (s[k] == '+' || s[k] == '-') {
        let (r, m) = product(cells, frame, s, k + 1);
        if m <= k || m > s.len() {
            (Err(FormulaError::Syntax), m)
        } else {
            sum_rest(cells, frame, s, m, combine(s[k], acc, r))
        }
    } else {
        (acc, j)
    }
}

/// A sum or difference of products.
pub open spec fn sum(cells: SheetView, frame: Frame, s: Seq<char>, i: int) -> (Outcome, int)
    decreases s.len() - i, 7int,
{
    let (l, j) = product(cells, frame, s, i);
    if j < i || j > s.len() {
        (Err(FormulaError::Syntax), j)
    } else {
        sum_rest(cells, frame, s, j, l)
    }
}

/// The parts that follow the joined text `acc`, which ends at `j`.
pub open spec fn joined_rest(cells: SheetView, frame: Frame, s: Seq<char>, j: int, acc: Outcome) -> (
    Outcome,
    int,
)
    decreases s.len() - j, 8int,
{
    let k = skip_spaces(s, j);
    if acc is Ok && j <= k < s.len() && s[k] == '&' {
        let (r, m) = sum(cells, frame, s, k + 1);
        if m <= k || m > s.len() {
            (Err(FormulaError::Syntax), m)
        } else {
            joined_rest(cells, frame, s, m, combine('&', acc, r))
        }
    } else {
        (acc, j)
    }
}

/// Sums joined by `&`.
pub open spec fn joined(cells: SheetView, frame: Frame, s: Seq<char>, i: int) -> (Outcome, int)
    decreases s.len() - i, 9int,
{
    let (l, j) = sum(cells, frame, s, i);
    if j < i || j > s.len() {
        (Err(FormulaError::Syntax), j)
    } else {
        joined_rest(cells, frame, s, j, l)
    }
}

/// A joined text, or two of them with `=`, `<` or `>` between them: a
/// whole formula.
pub open spec fn compared(cells: SheetView, frame: Frame, s: Seq<char>, i: int) -> (Outcome, int)
    decreases s.len() - i, 10int,
{
    let (l, j) = joined(cells, frame, s, i);
    let k = skip_spaces(s, j);
    if l is Ok && i <= k < s.len() && compares(s[k]) {
        let (r, m) = joined(cells, frame, s, k + 1);
        (combine(s[k], l, r), m)
    } else {
        (l, j)
    }
}

/// An argument of a function: a formula with a comma or a closing
/// parenthesis behind it. The place given with a value is that of the
/// comma or the parenthesis.
pub open spec fn argument(cells: SheetView, frame: Frame, s: Seq<char>, i: int) -> (Outcome, int)
    decreases s.len() - i, 11int,
{
    let (v, j) = compared(cells, frame, s, i);
    let k = skip_spaces(s, j);
    if v is Err {
        (v, j)
    } else if i < k < s.len() && (s[k] == ',' || s[k] == ')') {
        (v, k)
    } else {
        (Err(FormulaError::Syntax), k)
    }
}

/// The arguments of `SUM` from `i` on, up to the closing parenthesis:
/// every value of every argument, added to `acc` one after the other.
pub open spec fn total(cells: SheetView, frame: Frame, s: Seq<char>, i: int, acc: CellValue) -> (
    Outcome,
    int,
)
    decreases s.len() - i, 12int,
{
    match argument(cells, frame, s, i) {
        (Err(e), k) => (Err(e), k),
        (Ok(b), k) => match folded(acc, b, b.values.len() as int) {
            Err(e) => (Err(e), k),
            Ok(t) => if i < k < s.len() && s[k] == ',' {
                total(cells, frame, s, k + 1, t)
            } else {
                (Ok(Block::single(t)), k + 1)
            },
        },
    }
}

/// The arguments of `AVERAGE` from `i` on, up to the closing
/// parenthesis: every value of every argument is added to `acc` and
/// counted with `count`, and the sum is shared out among the count.
pub open spec fn averaged(
    cells: SheetView,
    frame: Frame,
    s: Seq<char>,
    i: int,
    acc: CellValue,
    count: int,
) -> (Outcome, int)
    decreases s.len() - i, 12int,
{
    match argument(cells, frame, s, i) {
        (Err(e), k) => (Err(e), k),
        (Ok(b), k) => match folded(acc, b, b.values.len() as int) {
            Err(e) => (Err(e), k),
            Ok(t) => if i < k < s.len() && s[k] == ',' {
                averaged(cells, frame, s, k + 1, t, count + b.values.len())
            } else {
                (mean_of(t, count + b.values.len()), k + 1)
            },
        },
    }
}

/// The three arguments of `IF` from `i` on, and what it gives for them.
/// All three are evaluated.
pub open spec fn conditional(cells: SheetView, frame: Frame, s: Seq<char>, i: int) -> (
    Outcome,
    int,
)
    decreases s.len() - i, 13int,
{
    match argument(cells, frame, s, i) {
        (Err(e), k) => (Err(e), k),
        (Ok(c), k1) => if !(i < k1 < s.len() && s[k1] == ',') {
            (Err(FormulaError::Syntax), k1)
        } else {
            match argument(cells, frame, s, k1 + 1) {
                (Err(e), k) => (Err(e), k),
                (Ok(a), k2) => if !(k1 < k2 < s.len() && s[k2] == ',') {
                    (Err(FormulaError::Syntax), k2)
                } else {
                    match argument(cells, frame, s, k2 + 1) {
                        (Err(e), k) => (Err(e), k),
                        (Ok(b), k3) => if !(k2 < k3 < s.len() && s[k3] == ')') {
                            (Err(FormulaError::Syntax), k3)
                        } else {
                            (chosen(c, a, b), k3 + 1)
                        },
                    }
                },
            }
        },
    }
}

/// The value of the formula `s` on the sheet `cells`, as named in
/// `frame`: that of the form it starts with, if nothing but spaces
/// follows.
pub open spec fn formula_value(cells: SheetView, frame: Frame, s: Seq<char>) -> Outcome {
    let (v, j) = compared(cells, frame, s, 0);
    if v is Err {
        v
    } else if skip_spaces(s, j) >= s.len() {
        v
    } else {
        Err(FormulaError::Syntax)
    }
}

} // verus!
