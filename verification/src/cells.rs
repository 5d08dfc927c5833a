//! Typed cell values and the two independent inference passes: cell-level
//! coercion of a single string into a typed value, and column-level
//! classification of sampled strings into a type tag.

use vstd::prelude::*;
use crate::chars::{chars_of, lower_of, lowercase, str_eq, string_from_chars, trim_chars, trim_spec};
use crate::numbers::{
    dec_int, is_float_literal, is_float_literal_chars, json_number_text, json_number_text_of,
    parse_i64, parse_i64_spec,
};

verus! {

/// A typed cell: a 64-bit integer, a non-integral number kept as its
/// canonical text, a boolean, or a plain string.
#[derive(Clone, Debug, PartialEq)]
pub enum CellValue {
    Int(i64),
    Num(String),
    Bool(bool),
    Str(String),
}

/// The mathematical shape of a cell.
pub enum CellView {
    Int(int),
    Num(Seq<char>),
    Bool(bool),
    Str(Seq<char>),
}

impl View for CellValue {
    type V = CellView;

    open spec fn view(&self) -> CellView {
        match self {
            CellValue::Int(i) => CellView::Int(*i as int),
            CellValue::Num(t) => CellView::Num(t@),
            CellValue::Bool(b) => CellView::Bool(*b),
            CellValue::Str(s) => CellView::Str(s@),
        }
    }
}

/// The views of a row's cells.
pub open spec fn cell_views(row: Seq<CellValue>) -> Seq<CellView> {
    row.map(|j: int, c: CellValue| c@)
}

/// The views of every row.
pub open spec fn rows_views(rows: Seq<Vec<CellValue>>) -> Seq<Seq<CellView>> {
    rows.map(|i: int, r: Vec<CellValue>| cell_views(r@))
}

/// The views of a sequence of strings.
pub open spec fn string_views(v: Seq<String>) -> Seq<Seq<char>> {
    v.map(|i: int, s: String| s@)
}

/// Equality of cells: same variant, same contents.
pub open spec fn cell_eq_spec(a: CellView, b: CellView) -> bool {
    match (a, b) {
        (CellView::Int(x), CellView::Int(y)) => x == y,
        (CellView::Num(x), CellView::Num(y)) => x == y,
        (CellView::Bool(x), CellView::Bool(y)) => x == y,
        (CellView::Str(x), CellView::Str(y)) => x == y,
        _ => false,
    }
}

/// Decides `cell_eq_spec`.
pub fn cell_eq(a: &CellValue, b: &CellValue) -> (r: bool)
    ensures
        r == cell_eq_spec(a@, b@),
{
    match (a, b) {
        (CellValue::Int(x), CellValue::Int(y)) => *x == *y,
        (CellValue::Num(x), CellValue::Num(y)) => str_eq(x.as_str(), y.as_str()),
        (CellValue::Bool(x), CellValue::Bool(y)) => *x == *y,
        (CellValue::Str(x), CellValue::Str(y)) => str_eq(x.as_str(), y.as_str()),
        _ => false,
    }
}

/// The stringified form of a cell: decimal for an integer, the canonical
/// text for a number, `true`/`false` for a boolean, the string itself.
pub open spec fn cell_text_spec(c: CellView) -> Seq<char> {
    match c {
        CellView::Int(i) => dec_int(i),
        CellView::Num(t) => t,
        CellView::Bool(b) => if b { "true"@ } else { "false"@ },
        CellView::Str(s) => s,
    }
}

/// Renders a cell as its stringified form.
pub fn cell_text(c: &CellValue) -> (r: String)
    ensures
        r@ == cell_text_spec(c@),
{
    match c {
        CellValue::Int(i) => crate::numbers::i64_to_string(*i),
        CellValue::Num(t) => t.clone(),
        CellValue::Bool(b) => if *b { "true".to_owned() } else { "false".to_owned() },
        CellValue::Str(s) => s.clone(),
    }
}

/// The numeric text of a cell, when the cell is a number.
pub open spec fn cell_num_text(c: CellView) -> Option<Seq<char>> {
    match c {
        CellView::Int(i) => Some(dec_int(i)),
        CellView::Num(t) => Some(t),
        _ => None,
    }
}

/// The coercion of one raw string into a typed cell: a 64-bit integer
/// parse is tried first on the trimmed text, then a number read the
/// portable way, then a case-folded boolean literal; anything else stays
/// a string, untrimmed.
pub open spec fn infer_value_spec(s: Seq<char>) -> CellView {
    let t = trim_spec(s);
    if parse_i64_spec(t) is Some {
        CellView::Int(parse_i64_spec(t).unwrap() as int)
    } else if json_number_text_of(t) is Some {
        CellView::Num(json_number_text_of(t).unwrap())
    } else if lower_of(t) == "true"@ {
        CellView::Bool(true)
    } else if lower_of(t) == "false"@ {
        CellView::Bool(false)
    } else {
        CellView::Str(s)
    }
}

/// Coerces one raw string into a typed cell.
pub fn infer_value_type(value: &str) -> (r: CellValue)
    ensures
        r@ == infer_value_spec(value@),
{
    let cs = chars_of(value);
    let trimmed = trim_chars(&cs);
    if let Some(i) = parse_i64(&trimmed) {
        return CellValue::Int(i);
    }
    let tstr = string_from_chars(&trimmed);
    if let Some(num) = json_number_text(tstr.as_str()) {
        return CellValue::Num(num);
    }
    let low = lowercase(tstr.as_str());
    if str_eq(low.as_str(), "true") {
        return CellValue::Bool(true);
    }
    if str_eq(low.as_str(), "false") {
        return CellValue::Bool(false);
    }
    CellValue::Str(value.to_owned())
}

/// What one sampled value counts as during column classification; blanks
/// are skipped, and the first matching class in this order wins:
/// boolean literal, float literal, leading date pattern.
pub enum ValueClass {
    Blank,
    BoolLike,
    NumberLike,
    DateLike,
    Other,
}

/// Whether the text begins with a date shape: `dddd-dd-dd` or
/// `dd/dd/dddd`, with `d` a decimal digit.
pub open spec fn has_date_prefix(t: Seq<char>) -> bool {
    (t.len() >= 10 && crate::numbers::is_dec_digit(t[0]) && crate::numbers::is_dec_digit(t[1])
        && crate::numbers::is_dec_digit(t[2]) && crate::numbers::is_dec_digit(t[3])
        && t[4] == '-' && crate::numbers::is_dec_digit(t[5]) && crate::numbers::is_dec_digit(t[6])
        && t[7] == '-' && crate::numbers::is_dec_digit(t[8]) && crate::numbers::is_dec_digit(t[9]))
        || (t.len() >= 10 && crate::numbers::is_dec_digit(t[0]) && crate::numbers::is_dec_digit(t[1])
            && t[2] == '/' && crate::numbers::is_dec_digit(t[3]) && crate::numbers::is_dec_digit(t[4])
            && t[5] == '/' && crate::numbers::is_dec_digit(t[6]) && crate::numbers::is_dec_digit(t[7])
            && crate::numbers::is_dec_digit(t[8]) && crate::numbers::is_dec_digit(t[9]))
}

/// Classifies one sampled value.
pub open spec fn value_class(v: Seq<char>) -> ValueClass {
    let t = trim_spec(v);
    if t.len() == 0 {
        ValueClass::Blank
    } else if lower_of(t) == "true"@ || lower_of(t) == "false"@ {
        ValueClass::BoolLike
    } else if is_float_literal(t) {
        ValueClass::NumberLike
    } else if has_date_prefix(t) {
        ValueClass::DateLike
    } else {
        ValueClass::Other
    }
}

/// How many of the first `k` values fall in class `want`, matching by
/// shape of `value_class`.
pub open spec fn count_class(vals: Seq<Seq<char>>, want: ValueClass, k: int) -> nat
    decreases k,
{
    if k <= 0 {
        0
    } else {
        count_class(vals, want, k - 1)
            + if value_class_matches(vals[k - 1], want) { 1nat } else { 0nat }
    }
}

/// Whether a value falls in the given class.
pub open spec fn value_class_matches(v: Seq<char>, want: ValueClass) -> bool {
    match (value_class(v), want) {
        (ValueClass::Blank, ValueClass::Blank) => true,
        (ValueClass::BoolLike, ValueClass::BoolLike) => true,
        (ValueClass::NumberLike, ValueClass::NumberLike) => true,
        (ValueClass::DateLike, ValueClass::DateLike) => true,
        (ValueClass::Other, ValueClass::Other) => true,
        _ => false,
    }
}

/// The column classification: `unknown` for no samples; `number` when
/// the float-like values exceed three quarters of all samples, blanks
/// included in the denominator; else `boolean` past one half; else
/// `date` past one quarter; else `string`.
pub open spec fn infer_type_spec(vals: Seq<Seq<char>>) -> Seq<char> {
    let total = vals.len() as int;
    if total == 0 {
        "unknown"@
    } else if 4 * count_class(vals, ValueClass::NumberLike, total) > 3 * total {
        "number"@
    } else if 2 * count_class(vals, ValueClass::BoolLike, total) > total {
        "boolean"@
    } else if 4 * count_class(vals, ValueClass::DateLike, total) > total {
        "date"@
    } else {
        "string"@
    }
}

fn classify_value(v: &String) -> (r: ValueClass)
    ensures
        value_class_matches(v@, r),
        (r matches ValueClass::Blank) == (value_class(v@) matches ValueClass::Blank),
        (r matches ValueClass::BoolLike) == (value_class(v@) matches ValueClass::BoolLike),
        (r matches ValueClass::NumberLike) == (value_class(v@) matches ValueClass::NumberLike),
        (r matches ValueClass::DateLike) == (value_class(v@) matches ValueClass::DateLike),
{
    let cs = chars_of(v.as_str());
    let t = trim_chars(&cs);
    if t.len() == 0 {
        return ValueClass::Blank;
    }
    let tstr = string_from_chars(&t);
    let low = lowercase(tstr.as_str());
    if str_eq(low.as_str(), "true") || str_eq(low.as_str(), "false") {
        return ValueClass::BoolLike;
    }
    if is_float_literal_chars(&t) {
        return ValueClass::NumberLike;
    }
    let date = (t.len() >= 10 && crate::numbers::is_dec_digit_char(t[0])
        && crate::numbers::is_dec_digit_char(t[1]) && crate::numbers::is_dec_digit_char(t[2])
        && crate::numbers::is_dec_digit_char(t[3]) && t[4] == '-'
        && crate::numbers::is_dec_digit_char(t[5]) && crate::numbers::is_dec_digit_char(t[6])
        && t[7] == '-' && crate::numbers::is_dec_digit_char(t[8])
        && crate::numbers::is_dec_digit_char(t[9]))
        || (t.len() >= 10 && crate::numbers::is_dec_digit_char(t[0])
            && crate::numbers::is_dec_digit_char(t[1]) && t[2] == '/'
            && crate::numbers::is_dec_digit_char(t[3]) && crate::numbers::is_dec_digit_char(t[4])
            && t[5] == '/' && crate::numbers::is_dec_digit_char(t[6])
            && crate::numbers::is_dec_digit_char(t[7]) && crate::numbers::is_dec_digit_char(t[8])
            && crate::numbers::is_dec_digit_char(t[9]));
    if date {
        ValueClass::DateLike
    } else {
        ValueClass::Other
    }
}

/// Classifies a column from its sampled raw values.
pub fn infer_data_type(values: &[String]) -> (r: String)
    ensures
        r@ == infer_type_spec(values@.map(|i: int, s: String| s@)),
{
    let ghost vals = values@.map(|i: int, s: String| s@);
    let total = values.len();
    let mut numeric: usize = 0;
    let mut boolean: usize = 0;
    let mut date: usize = 0;
    let mut i: usize = 0;
    while i < total
        invariant
            i <= total,
            total == values@.len(),
            vals == values@.map(|k: int, s: String| s@),
            numeric == count_class(vals, ValueClass::NumberLike, i as int),
            boolean == count_class(vals, ValueClass::BoolLike, i as int),
            date == count_class(vals, ValueClass::DateLike, i as int),
            numeric <= i && boolean <= i && date <= i,
        decreases total - i,
    {
        let c = classify_value(&values[i]);
        proof {
            assert(vals[i as int] == values@[i as int]@);
        }
        match c {
            ValueClass::NumberLike => { numeric += 1; },
            ValueClass::BoolLike => { boolean += 1; },
            ValueClass::DateLike => { date += 1; },
            _ => {},
        }
        i += 1;
    }
    if total == 0 {
        return "unknown".to_owned();
    }
    if 4 * (numeric as u128) > 3 * (total as u128) {
        "number".to_owned()
    } else if 2 * (boolean as u128) > total as u128 {
        "boolean".to_owned()
    } else if 4 * (date as u128) > total as u128 {
        "date".to_owned()
    } else {
        "string".to_owned()
    }
}

/// The typed row a raw row yields: each cell coerced, one per header
/// position present in the row.
pub open spec fn typed_row_spec(row: Seq<Seq<char>>, ncols: int) -> Seq<CellView> {
    let keep = if row.len() <= ncols { row.len() as int } else { ncols };
    Seq::new(keep as nat, |j: int| infer_value_spec(row[j]))
}

/// Coerces every cell of every raw row, keeping one typed cell per
/// header position.
pub fn infer_data_types(raw_data: &Vec<Vec<String>>, headers: &Vec<String>) -> (r: Vec<
    Vec<CellValue>,
>)
    ensures
        r@.len() == raw_data@.len(),
        forall|i: int|
            0 <= i < r@.len() ==> (#[trigger] r@[i])@.map(|j: int, c: CellValue| c@)
                == typed_row_spec(
                raw_data@[i]@.map(|j: int, s: String| s@),
                headers@.len() as int,
            ),
{
    let ncols = headers.len();
    let mut r: Vec<Vec<CellValue>> = Vec::new();
    let mut i: usize = 0;
    while i < raw_data.len()
        invariant
            i <= raw_data@.len(),
            ncols == headers@.len(),
            r@.len() == i,
            forall|k: int|
                0 <= k < i ==> (#[trigger] r@[k])@.map(|j: int, c: CellValue| c@)
                    == typed_row_spec(
                    raw_data@[k]@.map(|j: int, s: String| s@),
                    headers@.len() as int,
                ),
        decreases raw_data@.len() - i,
    {
        let row = &raw_data[i];
        let keep = if row.len() <= ncols { row.len() } else { ncols };
        let mut typed: Vec<CellValue> = Vec::new();
        let mut j: usize = 0;
        while j < keep
            invariant
                j <= keep,
                keep <= row@.len(),
                typed@.len() == j,
                forall|m: int|
                    0 <= m < j ==> #[trigger] typed@[m]@ == infer_value_spec(row@[m]@),
            decreases keep - j,
        {
            typed.push(infer_value_type(row[j].as_str()));
            j += 1;
        }
        proof {
            let rowv = raw_data@[i as int]@.map(|j: int, s: String| s@);
            assert(typed@.map(|j: int, c: CellValue| c@)
                =~= typed_row_spec(rowv, headers@.len() as int));
        }
        r.push(typed);
        i += 1;
    }
    r
}

} // verus!
