//! Evaluating formulas.

use crate::formulas::grammar::{
    averaged, mean, mean_of, spells_average, argument, as_number, atom, block_of, chosen, combine, compared, compares, conditional,
    digits_end, folded, formula_value, is_space, joined, joined_rest, lemma_power_stays_err,
    lemma_power_unit, lemma_zipped_stays_err, named_block, negate, number, power, powered,
    product, product_rest, quote_end, same, scalar_op, scalar_text, signed, skip_spaces,
    spells_if, spells_sum, sum, sum_rest, total, truth, zipped, Block, FormulaError, Outcome,
    CELL_RANGE_LIMIT,
};
use crate::formulas::references::{
    end_of_letters, parse_reference, resolve_name, span_of, CellName, Frame,
};
use crate::grid::sheet::Sheet;
use crate::outside::make_string;
use crate::position::{Pos, Rect};
use crate::text::{
    digit_of, digit_value, fraction_to_string, fraction_to_text, integer_to_string, parse_decimal,
};
use crate::values::CellValue;
use vstd::prelude::*;
use vstd::string::StringExecFns;

verus! {

/// The value of a formula: a block of cell values, stored row by row.
#[derive(Debug, PartialEq, Eq)]
pub struct FormulaValue {
    pub width: u32,
    pub height: u32,
    pub values: Vec<CellValue>,
}

impl View for FormulaValue {
    type V = Block;

    open spec fn view(&self) -> Block {
        Block { width: self.width as int, height: self.height as int, values: self.values@ }
    }
}

/// What evaluating gives: a value or the reason why there is none.
pub type FormulaResult = Result<FormulaValue, FormulaError>;

/// The outcome that `r` stands for.
pub open spec fn outcome(r: FormulaResult) -> Outcome {
    match r {
        Ok(v) => Ok(v@),
        Err(e) => Err(e),
    }
}

/// Whether the value of `r`, if it has one, has a value for each of its cells.
pub open spec fn valid(r: FormulaResult) -> bool {
    match r {
        Ok(v) => v@.wf(),
        Err(_) => true,
    }
}

/// The block of the one value `v`.
fn single(v: CellValue) -> (r: FormulaValue)
    ensures
        r@ == Block::single(v),
        r@.wf(),
{
    let mut values = Vec::new();
    values.push(v);
    let r = FormulaValue { width: 1, height: 1, values };
    assert(r@.values =~= seq![v]);
    r
}

/// The number `n`, where it fits in 64 bits.
fn checked(n: i128) -> (r: Result<CellValue, FormulaError>)
    ensures
        r == number(n as int),
{
    if n >= i64::MIN as i128 && n <= i64::MAX as i128 {
        Ok(CellValue::Number(n as i64))
    } else {
        Err(FormulaError::Overflow)
    }
}

/// `base` to the power of `exponent`.
fn raise(base: i64, exponent: i64) -> (r: Result<CellValue, FormulaError>)
    requires
        exponent >= 0,
    ensures
        r == power(base as int, exponent as nat),
{
    if base >= -1 && base <= 1 {
        proof {
            lemma_power_unit(base as int, exponent as nat);
        }
        return Ok(
            CellValue::Number(
                if exponent == 0 {
                    1
                } else if base == 0 {
                    0
                } else if base == 1 || exponent % 2 == 0 {
                    1
                } else {
                    -1
                },
            ),
        );
    }
    let mut acc: i64 = 1;
    let mut k: i64 = 0;
    while k < exponent
        invariant
            0 <= k <= exponent,
            power(base as int, k as nat) == Ok::<CellValue, FormulaError>(CellValue::Number(acc)),
        decreases exponent - k,
    {
        assert(-0x8000_0000_0000_0000 * 0x8000_0000_0000_0000 <= acc as int * base as int
            <= 0x8000_0000_0000_0000 * 0x8000_0000_0000_0000) by (nonlinear_arith)
            requires
                -0x8000_0000_0000_0000 <= acc as int <= 0x8000_0000_0000_0000,
                -0x8000_0000_0000_0000 <= base as int <= 0x8000_0000_0000_0000,
        ;
        let p: i128 = acc as i128 * base as i128;
        assert(power(base as int, (k + 1) as nat) == number(p as int));
        if p < i64::MIN as i128 || p > i64::MAX as i128 {
            proof {
                lemma_power_stays_err(base as int, (k + 1) as nat, exponent as nat);
            }
            return Err(FormulaError::Overflow);
        }
        acc = p as i64;
        k += 1;
    }
    Ok(CellValue::Number(acc))
}

/// A cell value as text.
fn text_of(v: &CellValue) -> (r: String)
    ensures
        r@ == scalar_text(*v),
{
    match v {
        CellValue::Blank => String::new(),
        CellValue::Number(n) => integer_to_string(*n),
        CellValue::Text(t) => t.clone(),
        CellValue::Html(t) => t.clone(),
        CellValue::Code(c) => c.code.clone(),
        CellValue::Decimal { negative, whole, fraction } => fraction_to_text(
            *negative,
            *whole,
            fraction.as_str(),
        ),
    }
}

/// The number that a cell value counts as.
fn number_of(v: &CellValue) -> (r: Option<i64>)
    ensures
        match r {
            Some(n) => as_number(*v) == Some(n as int),
            None => as_number(*v) is None,
        },
{
    match v {
        CellValue::Blank => Some(0),
        CellValue::Number(n) => Some(*n),
        _ => None,
    }
}

/// 1 for what holds and 0 for what does not.
fn flag(b: bool) -> (r: CellValue)
    ensures
        r == truth(b),
{
    CellValue::Number(
        if b {
            1
        } else {
            0
        },
    )
}

/// Whether two cell values are the same.
fn is_same(x: &CellValue, y: &CellValue) -> (r: bool)
    ensures
        r == same(*x, *y),
{
    match (number_of(x), number_of(y)) {
        (Some(a), Some(b)) => a == b,
        (None, None) => {
            let left = text_of(x);
            let right = text_of(y);
            left == right
        },
        _ => false,
    }
}

/// The value of `x op y` for two cell values.
fn apply_scalar(op: char, x: &CellValue, y: &CellValue) -> (r: Result<CellValue, FormulaError>)
    ensures
        r == scalar_op(op, *x, *y),
{
    if op == '&' {
        let mut text = text_of(x);
        let other = text_of(y);
        text.append(other.as_str());
        return Ok(CellValue::Text(make_string(text.as_str())));
    }
    if op == '=' {
        return Ok(flag(is_same(x, y)));
    }
    match (number_of(x), number_of(y)) {
        (Some(a), Some(b)) => {
            if op == '+' {
                checked(a as i128 + b as i128)
            } else if op == '-' {
                checked(a as i128 - b as i128)
            } else if op == '*' {
                assert(-0x8000_0000_0000_0000 * 0x8000_0000_0000_0000 <= a as int * b as int
                    <= 0x8000_0000_0000_0000 * 0x8000_0000_0000_0000) by (nonlinear_arith)
                    requires
                        -0x8000_0000_0000_0000 <= a as int <= 0x8000_0000_0000_0000,
                        -0x8000_0000_0000_0000 <= b as int <= 0x8000_0000_0000_0000,
                ;
                checked(a as i128 * b as i128)
            } else if op == '<' {
                Ok(flag(a < b))
            } else if op == '>' {
                Ok(flag(a > b))
            } else if b < 0 {
                Err(FormulaError::NegativeExponent)
            } else {
                raise(a, b)
            }
        },
        _ => Err(FormulaError::ExpectedNumber),
    }
}

/// The value of `a op b`, cell by cell.
fn apply_combine(op: char, a: FormulaResult, b: FormulaResult) -> (r: FormulaResult)
    requires
        valid(a),
        valid(b),
    ensures
        outcome(r) == combine(op, outcome(a), outcome(b)),
        valid(r),
{
    let ghost left_outcome = outcome(a);
    let ghost right_outcome = outcome(b);
    let (x, y) = match (a, b) {
        (Err(e), _) => {
            return Err(e);
        },
        (_, Err(e)) => {
            return Err(e);
        },
        (Ok(x), Ok(y)) => (x, y),
    };
    let x_single = x.width == 1 && x.height == 1;
    let y_single = y.width == 1 && y.height == 1;
    if !x_single && !y_single && (x.width != y.width || x.height != y.height) {
        return Err(
            FormulaError::ArraySizeMismatch {
                expected_height: x.height,
                expected_width: x.width,
                got_height: y.height,
                got_width: y.width,
            },
        );
    }
    let (width, height) = if x_single {
        (y.width, y.height)
    } else {
        (x.width, x.height)
    };
    let n: usize = if x_single {
        y.values.len()
    } else {
        x.values.len()
    };
    let ghost shape = if x_single {
        y@
    } else {
        x@
    };
    assert(shape.wf());
    assert(shape.width == width && shape.height == height);
    assert(n == shape.width * shape.height);
    let mut values: Vec<CellValue> = Vec::new();
    let mut i: usize = 0;
    while i < n
        invariant
            i <= n,
            x@.wf(),
            y@.wf(),
            x_single == x@.is_single(),
            y_single == y@.is_single(),
            !x_single ==> n == x.values@.len(),
            !y_single ==> n == y.values@.len(),
            zipped(op, x@, y@, i as int) == Ok::<Seq<CellValue>, FormulaError>(values@),
            values@.len() == i,
            left_outcome == Ok::<Block, FormulaError>(x@),
            right_outcome == Ok::<Block, FormulaError>(y@),
            left_outcome == outcome(a),
            right_outcome == outcome(b),
            shape == if x_single {
                y@
            } else {
                x@
            },
            n == shape.width * shape.height,
            width == shape.width && height == shape.height,
            x_single || y_single || (x.width == y.width && x.height == y.height),
        decreases n - i,
    {
        let left = if x_single {
            &x.values[0]
        } else {
            &x.values[i]
        };
        let right = if y_single {
            &y.values[0]
        } else {
            &y.values[i]
        };
        assert(*left == x@.pick(i as int) && *right == y@.pick(i as int));
        match apply_scalar(op, left, right) {
            Ok(v) => {
                values.push(v);
            },
            Err(e) => {
                proof {
                    assert(zipped(op, x@, y@, i + 1) == Err::<Seq<CellValue>, FormulaError>(e));
                    lemma_zipped_stays_err(op, x@, y@, i + 1, n as int);
                    assert(combine(op, left_outcome, right_outcome) == Err::<Block, FormulaError>(
                        e,
                    ));
                }
                return Err(e);
            },
        }
        i += 1;
    }
    let r = FormulaValue { width, height, values };
    assert(r@.wf());
    Ok(r)
}

/// The value with its sign changed.
fn apply_negate(v: FormulaResult) -> (r: FormulaResult)
    requires
        valid(v),
    ensures
        outcome(r) == negate(outcome(v)),
        valid(r),
{
    apply_combine('-', Ok(single(CellValue::Number(0))), v)
}

/// What the cells of `rect` show on `sheet`, row by row.
fn read_block(sheet: &Sheet, rect: Rect) -> (r: FormulaResult)
    requires
        sheet.wf(),
    ensures
        outcome(r) == block_of(sheet@, rect),
        valid(r),
{
    let w: i128 = rect.max.x as i128 - rect.min.x as i128 + 1;
    let h: i128 = rect.max.y as i128 - rect.min.y as i128 + 1;
    if w <= 0 || h <= 0 || w > CELL_RANGE_LIMIT as i128 || h > CELL_RANGE_LIMIT as i128 {
        return Err(FormulaError::RangeTooLarge);
    }
    assert(0 < w * h <= 1_000_000 * 1_000_000) by (nonlinear_arith)
        requires
            0 < w <= 1_000_000,
            0 < h <= 1_000_000,
    ;
    let total: i128 = w * h;
    if total > CELL_RANGE_LIMIT as i128 {
        return Err(FormulaError::RangeTooLarge);
    }
    let mut values: Vec<CellValue> = Vec::new();
    let mut index: i128 = 0;
    while index < total
        invariant
            0 <= index <= total,
            total == w * h,
            0 < w <= 1_000_000,
            0 < h <= 1_000_000,
            w == rect.max.x - rect.min.x + 1,
            h == rect.max.y - rect.min.y + 1,
            sheet.wf(),
            values@.len() == index,
            forall|k: int|
                0 <= k < index ==> #[trigger] values@[k] == CellValue::or_blank(
                    sheet@.display(
                        Pos {
                            x: (rect.min.x + k % (w as int)) as i64,
                            y: (rect.min.y + k / (w as int)) as i64,
                        },
                    ),
                ),
        decreases total - index,
    {
        assert(0 <= index / w < h && 0 <= index % w < w) by (nonlinear_arith)
            requires
                0 <= index < w * h,
                0 < w,
        ;
        let x: i128 = rect.min.x as i128 + index % w;
        let y: i128 = rect.min.y as i128 + index / w;
        let pos = Pos { x: x as i64, y: y as i64 };
        let value = match sheet.get_cell_value(pos) {
            Some(v) => v,
            None => CellValue::Blank,
        };
        values.push(value);
        index += 1;
    }
    let r = FormulaValue { width: w as u32, height: h as u32, values };
    assert(r@.values =~= block_of(sheet@, rect)->Ok_0.values);
    Ok(r)
}

/// What the block between two named corners shows.
fn read_named(sheet: &Sheet, frame: Frame, p: CellName, q: CellName) -> (r: FormulaResult)
    requires
        sheet.wf(),
    ensures
        outcome(r) == named_block(sheet@, frame, p, q),
        valid(r),
{
    match (resolve_name(p, frame), resolve_name(q, frame)) {
        (Some(a), Some(b)) => {
            let rect = span_of(a, b);
            if frame.check_circular && rect.min.x <= frame.evaluated_at.x
                && frame.evaluated_at.x <= rect.max.x && rect.min.y <= frame.evaluated_at.y
                && frame.evaluated_at.y <= rect.max.y {
                Err(FormulaError::CircularReference)
            } else {
                read_block(sheet, rect)
            }
        },
        _ => Err(FormulaError::BadReference),
    }
}

/// `acc` and every value of the block, added up one after the other.
fn fold_block(acc: CellValue, b: &FormulaValue) -> (r: Result<CellValue, FormulaError>)
    ensures
        r == folded(acc, b@, b@.values.len() as int),
{
    let mut sum = acc;
    let mut i: usize = 0;
    while i < b.values.len()
        invariant
            i <= b.values.len(),
            folded(acc, b@, i as int) == Ok::<CellValue, FormulaError>(sum),
        decreases b.values.len() - i,
    {
        match apply_scalar('+', &sum, &b.values[i]) {
            Ok(t) => {
                sum = t;
            },
            Err(e) => {
                proof {
                    assert(folded(acc, b@, i + 1) == Err::<CellValue, FormulaError>(e));
                    lemma_folded_stays_err(acc, b@, i + 1, b@.values.len() as int);
                }
                return Err(e);
            },
        }
        i += 1;
    }
    Ok(sum)
}

/// Once a value cannot be added, there is no sum.
proof fn lemma_folded_stays_err(acc: CellValue, b: Block, k: int, n: int)
    requires
        folded(acc, b, k) is Err,
        k <= n,
    ensures
        folded(acc, b, n) == folded(acc, b, k),
    decreases n - k,
{
    if k < n {
        lemma_folded_stays_err(acc, b, k, n - 1);
    }
}

/// The sum `total` shared out among `count`.
fn mean_value(total: i64, count: u128) -> (r: CellValue)
    requires
        0 < count <= 0x1_0000_0000_0000_0000_0000_0000,
    ensures
        r == mean(total as int, count as int),
{
    let size: u128 = if total < 0 {
        (-(total as i128)) as u128
    } else {
        total as u128
    };
    proof {
        reveal(mean);
    }
    let ghost sz = size as int;
    let ghost ct = count as int;
    assert(0 <= sz / ct <= sz && 0 <= sz % ct < ct) by (nonlinear_arith)
        requires
            0 <= sz,
            0 < ct,
    ;
    let q: u128 = size / count;
    let r: u128 = size % count;
    if r == 0 {
        let whole: i128 = if total < 0 {
            -(q as i128)
        } else {
            q as i128
        };
        CellValue::Number(whole as i64)
    } else {
        let digits = fraction_to_string(r, count);
        CellValue::Decimal {
            negative: total < 0,
            whole: q as u64,
            fraction: make_string(digits.as_str()),
        }
    }
}

/// The number of values in a block.
fn count_of(b: &FormulaValue) -> (r: u128)
    requires
        b@.wf(),
    ensures
        r == b@.values.len(),
        0 < r <= 1_000_000,
{
    assert(b@.width * b@.height >= 1) by (nonlinear_arith)
        requires
            b@.width >= 1,
            b@.height >= 1,
    ;
    b.values.len() as u128
}

/// What `AVERAGE` gives for the sum `t` of `count` values.
fn mean_result(t: &CellValue, count: u128) -> (r: FormulaResult)
    requires
        0 < count <= 0x1_0000_0000_0000_0000_0000_0000,
    ensures
        outcome(r) == mean_of(*t, count as int),
        valid(r),
{
    match number_of(t) {
        Some(total) => Ok(single(mean_value(total, count))),
        None => Err(FormulaError::ExpectedNumber),
    }
}

/// What `IF` gives for a condition and two values.
fn choose_value(c: FormulaValue, a: FormulaValue, b: FormulaValue) -> (r: FormulaResult)
    requires
        valid(Ok(c)),
        valid(Ok(a)),
        valid(Ok(b)),
    ensures
        outcome(r) == chosen(c@, a@, b@),
        valid(r),
{
    if !(c.width == 1 && c.height == 1) {
        return Err(FormulaError::ExpectedNumber);
    }
    assert(c@.width * c@.height == 1) by (nonlinear_arith)
        requires
            c@.width == 1,
            c@.height == 1,
    ;
    match number_of(&c.values[0]) {
        Some(n) => if n != 0 {
            Ok(a)
        } else {
            Ok(b)
        },
        None => Err(FormulaError::ExpectedNumber),
    }
}

fn space(c: char) -> (r: bool)
    ensures
        r == is_space(c),
{
    c == ' ' || c == '\t' || c == '\n' || c == '\r'
}

/// The first place from `i` on that holds no space.
fn skip(s: &str, n: usize, i: usize) -> (k: usize)
    requires
        n == s@.len(),
        i <= n,
    ensures
        k == skip_spaces(s@, i as int),
        i <= k <= n,
{
    let mut k = i;
    while k < n && space(s.get_char(k))
        invariant
            i <= k <= n,
            n == s@.len(),
            skip_spaces(s@, k as int) == skip_spaces(s@, i as int),
        decreases n - k,
    {
        k += 1;
    }
    k
}

/// The first place from `i` on that holds no digit.
fn end_of_digits(s: &str, n: usize, i: usize) -> (k: usize)
    requires
        n == s@.len(),
        i <= n,
    ensures
        k == digits_end(s@, i as int),
        i <= k <= n,
{
    let mut k = i;
    while k < n && digit_of(s.get_char(k)).is_some()
        invariant
            i <= k <= n,
            n == s@.len(),
            digits_end(s@, k as int) == digits_end(s@, i as int),
        decreases n - k,
    {
        k += 1;
    }
    k
}

/// The first place from `i` on that holds `quote`, or the end.
fn end_of_quote(s: &str, n: usize, i: usize, quote: char) -> (k: usize)
    requires
        n == s@.len(),
        i <= n,
    ensures
        k == quote_end(s@, i as int, quote),
        i <= k <= n,
{
    let mut k = i;
    while k < n && s.get_char(k) != quote
        invariant
            i <= k <= n,
            n == s@.len(),
            quote_end(s@, k as int, quote) == quote_end(s@, i as int, quote),
        decreases n - k,
    {
        k += 1;
    }
    k
}

fn eval_atom(sheet: &Sheet, frame: Frame, s: &str, n: usize, i: usize) -> (r: (FormulaResult, usize))
    requires
        sheet.wf(),
        n == s@.len(),
        i <= n,
    ensures
        (outcome(r.0), r.1 as int) == atom(sheet@, frame, s@, i as int),
        valid(r.0),
        i <= r.1 <= n,
    decreases n - i, 1int,
{
    let k = skip(s, n, i);
    if k >= n {
        return (Err(FormulaError::Syntax), k);
    }
    let c = s.get_char(k);
    if digit_of(c).is_some() {
        let e = end_of_digits(s, n, k);
        match parse_decimal(s, k, e, 0x7fff_ffff_ffff_ffff) {
            Some(v) => (Ok(single(CellValue::Number(v as i64))), e),
            None => {
                proof {
                    lemma_digits(s@, k as int, e as int);
                }
                (Err(FormulaError::Overflow), e)
            },
        }
    } else if c == '\'' || c == '"' {
        let e = end_of_quote(s, n, k + 1, c);
        if e >= n {
            (Err(FormulaError::Syntax), e)
        } else {
            let text = make_string(s.substring_char(k + 1, e));
            (Ok(single(CellValue::Text(text))), e + 1)
        }
    } else if c == '(' {
        let (v, j) = eval_compared(sheet, frame, s, n, k + 1);
        let m = skip(s, n, j);
        if v.is_err() {
            (v, j)
        } else if m < n && s.get_char(m) == ')' {
            (v, m + 1)
        } else {
            (Err(FormulaError::Syntax), m)
        }
    } else if is_letter(c) || c == '$' {
        let a = end_of_letters(s, n, k);
        if k < a && a < n && s.get_char(a) == '(' {
            if a - k == 3 && s.get_char(k) == 'S' && s.get_char(k + 1) == 'U' && s.get_char(k + 2)
                == 'M' {
                eval_total(sheet, frame, s, n, a + 1)
            } else if a - k == 7 && s.get_char(k) == 'A' && s.get_char(k + 1) == 'V' && s.get_char(
                k + 2,
            ) == 'E' && s.get_char(k + 3) == 'R' && s.get_char(k + 4) == 'A' && s.get_char(k + 5)
                == 'G' && s.get_char(k + 6) == 'E' {
                eval_average(sheet, frame, s, n, a + 1, CellValue::Number(0), 0)
            } else if a - k == 2 && s.get_char(k) == 'I' && s.get_char(k + 1) == 'F' {
                eval_conditional(sheet, frame, s, n, a + 1)
            } else {
                (Err(FormulaError::Syntax), k)
            }
        } else {
            match parse_reference(s, n, k) {
                Some((p, q, e)) => (read_named(sheet, frame, p, q), e),
                None => (Err(FormulaError::Syntax), k),
            }
        }
    } else {
        (Err(FormulaError::Syntax), k)
    }
}

/// Whether the character is a capital letter.
fn is_letter(c: char) -> (r: bool)
    ensures
        r == (crate::formulas::references::letter_value(c) is Some),
{
    'A' <= c && c <= 'Z'
}

/// A run of digits spells a number.
proof fn lemma_digits(s: Seq<char>, k: int, e: int)
    requires
        0 <= k < s.len(),
        digit_value(s[k]) is Some,
        e == digits_end(s, k),
    ensures
        k < e <= s.len(),
        crate::text::decimal(s.subrange(k, e)) is Some,
{
    lemma_digits_run(s, k, e);
    lemma_all_digits(s.subrange(k, e));
}

/// Everything between a place and the end of its digits is a digit.
proof fn lemma_digits_run(s: Seq<char>, k: int, e: int)
    requires
        0 <= k <= s.len(),
        e == digits_end(s, k),
    ensures
        k <= e <= s.len(),
        forall|j: int| k <= j < e ==> digit_value(#[trigger] s[j]) is Some,
        k < s.len() && digit_value(s[k]) is Some ==> k < e,
    decreases s.len() - k,
{
    if k < s.len() && digit_value(s[k]) is Some {
        lemma_digits_run(s, k + 1, e);
    }
}

/// Digits, and at least one, spell a number.
proof fn lemma_all_digits(d: Seq<char>)
    requires
        d.len() > 0,
        forall|j: int| 0 <= j < d.len() ==> digit_value(#[trigger] d[j]) is Some,
    ensures
        crate::text::decimal(d) is Some,
    decreases d.len(),
{
    if d.len() > 1 {
        assert forall|j: int| 0 <= j < d.drop_last().len() implies digit_value(
            #[trigger] d.drop_last()[j],
        ) is Some by {
            assert(d.drop_last()[j] == d[j]);
        }
        lemma_all_digits(d.drop_last());
    }
}

fn eval_signed(sheet: &Sheet, frame: Frame, s: &str, n: usize, i: usize) -> (r: (FormulaResult, usize))
    requires
        sheet.wf(),
        n == s@.len(),
        i <= n,
    ensures
        (outcome(r.0), r.1 as int) == signed(sheet@, frame, s@, i as int),
        valid(r.0),
        i <= r.1 <= n,
    decreases n - i, 2int,
{
    let k = skip(s, n, i);
    if k < n && s.get_char(k) == '-' {
        let (v, j) = eval_signed(sheet, frame, s, n, k + 1);
        (apply_negate(v), j)
    } else {
        eval_atom(sheet, frame, s, n, k)
    }
}

fn eval_powered(sheet: &Sheet, frame: Frame, s: &str, n: usize, i: usize) -> (r: (FormulaResult, usize))
    requires
        sheet.wf(),
        n == s@.len(),
        i <= n,
    ensures
        (outcome(r.0), r.1 as int) == powered(sheet@, frame, s@, i as int),
        valid(r.0),
        i <= r.1 <= n,
    decreases n - i, 3int,
{
    let (b, j) = eval_signed(sheet, frame, s, n, i);
    let k = skip(s, n, j);
    if b.is_ok() && k < n && s.get_char(k) == '^' {
        let (e, m) = eval_powered(sheet, frame, s, n, k + 1);
        (apply_combine('^', b, e), m)
    } else {
        (b, j)
    }
}

fn eval_product(sheet: &Sheet, frame: Frame, s: &str, n: usize, i: usize) -> (r: (FormulaResult, usize))
    requires
        sheet.wf(),
        n == s@.len(),
        i <= n,
    ensures
        (outcome(r.0), r.1 as int) == product(sheet@, frame, s@, i as int),
        valid(r.0),
        i <= r.1 <= n,
    decreases n - i, 5int,
{
    let (l, j) = eval_powered(sheet, frame, s, n, i);
    let mut acc = l;
    let mut at = j;
    loop
        invariant
            sheet.wf(),
            n == s@.len(),
            i <= at <= n,
            valid(acc),
            product_rest(sheet@, frame, s@, at as int, outcome(acc)) == product(sheet@, frame, s@, i as int),
        ensures
            (outcome(acc), at as int) == product(sheet@, frame, s@, i as int),
            valid(acc),
            i <= at <= n,
        decreases n - at,
    {
        let k = skip(s, n, at);
        if acc.is_ok() && k < n && s.get_char(k) == '*' {
            let (r, m) = eval_powered(sheet, frame, s, n, k + 1);
            acc = apply_combine('*', acc, r);
            at = m;
        } else {
            break ;
        }
    }
    (acc, at)
}

fn eval_sum(sheet: &Sheet, frame: Frame, s: &str, n: usize, i: usize) -> (r: (FormulaResult, usize))
    requires
        sheet.wf(),
        n == s@.len(),
        i <= n,
    ensures
        (outcome(r.0), r.1 as int) == sum(sheet@, frame, s@, i as int),
        valid(r.0),
        i <= r.1 <= n,
    decreases n - i, 7int,
{
    let (l, j) = eval_product(sheet, frame, s, n, i);
    let mut acc = l;
    let mut at = j;
    loop
        invariant
            sheet.wf(),
            n == s@.len(),
            i <= at <= n,
            valid(acc),
            sum_rest(sheet@, frame, s@, at as int, outcome(acc)) == sum(sheet@, frame, s@, i as int),
        ensures
            (outcome(acc), at as int) == sum(sheet@, frame, s@, i as int),
            valid(acc),
            i <= at <= n,
        decreases n - at,
    {
        let k = skip(s, n, at);
        if acc.is_ok() && k < n && (s.get_char(k) == '+' || s.get_char(k) == '-') {
            let op = s.get_char(k);
            let (r, m) = eval_product(sheet, frame, s, n, k + 1);
            acc = apply_combine(op, acc, r);
            at = m;
        } else {
            break ;
        }
    }
    (acc, at)
}

fn eval_joined(sheet: &Sheet, frame: Frame, s: &str, n: usize, i: usize) -> (r: (FormulaResult, usize))
    requires
        sheet.wf(),
        n == s@.len(),
        i <= n,
    ensures
        (outcome(r.0), r.1 as int) == joined(sheet@, frame, s@, i as int),
        valid(r.0),
        i <= r.1 <= n,
    decreases n - i, 9int,
{
    let (l, j) = eval_sum(sheet, frame, s, n, i);
    let mut acc = l;
    let mut at = j;
    loop
        invariant
            sheet.wf(),
            n == s@.len(),
            i <= at <= n,
            valid(acc),
            joined_rest(sheet@, frame, s@, at as int, outcome(acc)) == joined(sheet@, frame, s@, i as int),
        ensures
            (outcome(acc), at as int) == joined(sheet@, frame, s@, i as int),
            valid(acc),
            i <= at <= n,
        decreases n - at,
    {
        let k = skip(s, n, at);
        if acc.is_ok() && k < n && s.get_char(k) == '&' {
            let (r, m) = eval_sum(sheet, frame, s, n, k + 1);
            acc = apply_combine('&', acc, r);
            at = m;
        } else {
            break ;
        }
    }
    (acc, at)
}

fn eval_compared(sheet: &Sheet, frame: Frame, s: &str, n: usize, i: usize) -> (r: (
    FormulaResult,
    usize,
))
    requires
        sheet.wf(),
        n == s@.len(),
        i <= n,
    ensures
        (outcome(r.0), r.1 as int) == compared(sheet@, frame, s@, i as int),
        valid(r.0),
        i <= r.1 <= n,
    decreases n - i, 10int,
{
    let (l, j) = eval_joined(sheet, frame, s, n, i);
    let k = skip(s, n, j);
    if l.is_ok() && k < n && (s.get_char(k) == '=' || s.get_char(k) == '<' || s.get_char(k)
        == '>') {
        let op = s.get_char(k);
        let (r, m) = eval_joined(sheet, frame, s, n, k + 1);
        (apply_combine(op, l, r), m)
    } else {
        (l, j)
    }
}

fn eval_argument(sheet: &Sheet, frame: Frame, s: &str, n: usize, i: usize) -> (r: (
    FormulaResult,
    usize,
))
    requires
        sheet.wf(),
        n == s@.len(),
        i <= n,
    ensures
        (outcome(r.0), r.1 as int) == argument(sheet@, frame, s@, i as int),
        valid(r.0),
        i <= r.1 <= n,
        r.0 is Ok ==> i < r.1 < n,
    decreases n - i, 11int,
{
    let (v, j) = eval_compared(sheet, frame, s, n, i);
    let k = skip(s, n, j);
    if v.is_err() {
        (v, j)
    } else if i < k && k < n && (s.get_char(k) == ',' || s.get_char(k) == ')') {
        (v, k)
    } else {
        (Err(FormulaError::Syntax), k)
    }
}

fn eval_total(sheet: &Sheet, frame: Frame, s: &str, n: usize, i: usize) -> (r: (
    FormulaResult,
    usize,
))
    requires
        sheet.wf(),
        n == s@.len(),
        i <= n,
    ensures
        (outcome(r.0), r.1 as int) == total(sheet@, frame, s@, i as int, CellValue::Number(0)),
        valid(r.0),
        i <= r.1 <= n,
    decreases n - i, 12int,
{
    let mut acc = CellValue::Number(0);
    let mut at = i;
    let mut result: (FormulaResult, usize) = (Err(FormulaError::Syntax), i);
    let mut going = true;
    while going
        invariant
            sheet.wf(),
            n == s@.len(),
            i <= at <= n,
            going ==> total(sheet@, frame, s@, at as int, acc) == total(
                sheet@,
                frame,
                s@,
                i as int,
                CellValue::Number(0),
            ),
            !going ==> (outcome(result.0), result.1 as int) == total(
                sheet@,
                frame,
                s@,
                i as int,
                CellValue::Number(0),
            ) && valid(result.0) && i <= result.1 <= n,
        decreases n - at, if going {
                1int
            } else {
                0int
            },
    {
        let (v, k) = eval_argument(sheet, frame, s, n, at);
        match v {
            Err(e) => {
                result = (Err(e), k);
                going = false;
            },
            Ok(b) => {
                match fold_block(acc, &b) {
                    Err(e) => {
                        result = (Err(e), k);
                        going = false;
                        acc = CellValue::Blank;
                    },
                    Ok(t) => {
                        if s.get_char(k) == ',' {
                            acc = t;
                            at = k + 1;
                        } else {
                            result = (Ok(single(t)), k + 1);
                            going = false;
                            acc = CellValue::Blank;
                        }
                    },
                }
            },
        }
    }
    result
}

fn eval_average(
    sheet: &Sheet,
    frame: Frame,
    s: &str,
    n: usize,
    i: usize,
    acc: CellValue,
    count: u128,
) -> (r: (FormulaResult, usize))
    requires
        sheet.wf(),
        n == s@.len(),
        i <= n,
        count <= i * 1_000_000,
    ensures
        (outcome(r.0), r.1 as int) == averaged(sheet@, frame, s@, i as int, acc, count as int),
        valid(r.0),
        i <= r.1 <= n,
    decreases n - i, 12int,
{
    let (v, k) = eval_argument(sheet, frame, s, n, i);
    match v {
        Err(e) => (Err(e), k),
        Ok(b) => {
            let more = count_of(&b);
            match fold_block(acc, &b) {
                Err(e) => (Err(e), k),
                Ok(t) => {
                    if s.get_char(k) == ',' {
                        eval_average(sheet, frame, s, n, k + 1, t, count + more)
                    } else {
                        (mean_result(&t, count + more), k + 1)
                    }
                },
            }
        },
    }
}

fn eval_conditional(sheet: &Sheet, frame: Frame, s: &str, n: usize, i: usize) -> (r: (
    FormulaResult,
    usize,
))
    requires
        sheet.wf(),
        n == s@.len(),
        i <= n,
    ensures
        (outcome(r.0), r.1 as int) == conditional(sheet@, frame, s@, i as int),
        valid(r.0),
        i <= r.1 <= n,
    decreases n - i, 13int,
{
    let (first, k1) = eval_argument(sheet, frame, s, n, i);
    let c = match first {
        Ok(c) => c,
        Err(e) => {
            return (Err(e), k1);
        },
    };
    if s.get_char(k1) != ',' {
        return (Err(FormulaError::Syntax), k1);
    }
    let (second, k2) = eval_argument(sheet, frame, s, n, k1 + 1);
    let a = match second {
        Ok(a) => a,
        Err(e) => {
            return (Err(e), k2);
        },
    };
    if s.get_char(k2) != ',' {
        return (Err(FormulaError::Syntax), k2);
    }
    let (third, k3) = eval_argument(sheet, frame, s, n, k2 + 1);
    let b = match third {
        Ok(b) => b,
        Err(e) => {
            return (Err(e), k3);
        },
    };
    if s.get_char(k3) != ')' {
        return (Err(FormulaError::Syntax), k3);
    }
    (choose_value(c, a, b), k3 + 1)
}

/// The value of the formula `s` on `sheet`, as named in `frame`.
pub fn evaluate(sheet: &Sheet, frame: Frame, s: &str) -> (r: FormulaResult)
    requires
        sheet.wf(),
    ensures
        outcome(r) == formula_value(sheet@, frame, s@),
        valid(r),
{
    let n = s.unicode_len();
    let (v, j) = eval_compared(sheet, frame, s, n, 0);
    if v.is_err() {
        v
    } else if skip(s, n, j) >= n {
        v
    } else {
        Err(FormulaError::Syntax)
    }
}

} // verus!
