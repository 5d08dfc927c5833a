//! The query engine: filter evaluation over typed rows, the total
//! comparator over typed values, and a stable sort of row indices.

use vstd::prelude::*;
use crate::cells::{
    cell_eq, cell_eq_spec, cell_num_text, cell_text, cell_text_spec, cell_views, rows_views,
    string_views, CellValue, CellView,
};
use crate::chars::{chars_of, contains_chars, contains_seq, lex_cmp, lex_cmp_spec, lower_of,
    lowercase, str_eq};
use crate::numbers::{float_cmp_of, float_order, i64_to_string};
use crate::types::{FilterSpec, SortSpec};
use crate::Order;

verus! {

/// The position a column name resolves to: the rightmost header with
/// that name, as a mapping keyed by name and filled left to right would
/// resolve it.
pub open spec fn col_index_spec(headers: Seq<Seq<char>>, name: Seq<char>) -> Option<int>
    decreases headers.len(),
{
    if headers.len() == 0 {
        None
    } else if headers[headers.len() - 1] == name {
        Some(headers.len() - 1)
    } else {
        col_index_spec(headers.drop_last(), name)
    }
}

/// Resolves a column name against the headers.
pub fn col_index(headers: &Vec<String>, name: &str) -> (r: Option<usize>)
    ensures
        match r {
            Some(i) => col_index_spec(string_views(headers@), name@) == Some(i as int) && i
                < headers@.len(),
            None => col_index_spec(string_views(headers@), name@) is None,
        },
{
    let mut i: usize = headers.len();
    proof {
        assert(string_views(headers@).subrange(0, headers@.len() as int)
            =~= string_views(headers@));
    }
    while i > 0
        invariant
            i <= headers@.len(),
            col_index_spec(string_views(headers@), name@)
                == col_index_spec(string_views(headers@).subrange(0, i as int), name@),
        decreases i,
    {
        proof {
            assert(string_views(headers@).subrange(0, i as int).drop_last()
                =~= string_views(headers@).subrange(0, i as int - 1));
            assert(string_views(headers@).subrange(0, i as int).last() == headers@[i - 1]@);
        }
        if str_eq(headers[i - 1].as_str(), name) {
            return Some(i - 1);
        }
        i -= 1;
    }
    proof {
        assert(string_views(headers@).subrange(0, 0) =~= Seq::<Seq<char>>::empty());
    }
    None
}

/// The cell a row holds for a column name, if the column exists and the
/// row reaches it.
pub open spec fn row_cell(row: Seq<CellView>, headers: Seq<Seq<char>>, name: Seq<char>) -> Option<
    CellView,
> {
    match col_index_spec(headers, name) {
        Some(i) => if i < row.len() {
            Some(row[i])
        } else {
            None
        },
        None => None,
    }
}

/// Whether one operator comparison holds between a cell and a filter
/// value. `equals` compares values exactly, or their case-folded
/// stringified forms; `contains` is a substring test on stringified
/// forms; the four numeric operators compare by float value and are
/// false unless both sides are numbers; an unknown operator is false.
pub open spec fn match_filter_spec(value: CellView, op: Seq<char>, fval: CellView, cs: bool)
    -> bool {
    if op == "equals"@ {
        if cs {
            cell_eq_spec(value, fval)
        } else {
            lower_of(cell_text_spec(value)) == lower_of(cell_text_spec(fval))
        }
    } else if op == "contains"@ {
        if cs {
            contains_seq(cell_text_spec(value), cell_text_spec(fval))
        } else {
            contains_seq(lower_of(cell_text_spec(value)), lower_of(cell_text_spec(fval)))
        }
    } else if op == "greater_than"@ || op == "less_than"@ || op == "greater_than_or_equal"@
        || op == "less_than_or_equal"@ {
        match (cell_num_text(value), cell_num_text(fval)) {
            (Some(a), Some(b)) => {
                if op == "greater_than"@ {
                    float_cmp_of(a, b) > 0
                } else if op == "less_than"@ {
                    float_cmp_of(a, b) < 0
                } else if op == "greater_than_or_equal"@ {
                    float_cmp_of(a, b) >= 0
                } else {
                    float_cmp_of(a, b) <= 0
                }
            },
            _ => false,
        }
    } else {
        false
    }
}

/// The numeric text of a cell, when it is a number.
fn cell_num_text_exec(c: &CellValue) -> (r: Option<String>)
    ensures
        r matches Some(t) ==> cell_num_text(c@) == Some(t@),
        r is None ==> cell_num_text(c@) is None,
{
    match c {
        CellValue::Int(i) => Some(i64_to_string(*i)),
        CellValue::Num(t) => Some(t.clone()),
        _ => None,
    }
}

/// Decides one operator comparison between a cell and a filter value.
pub fn match_filter_value(value: &CellValue, operator: &str, filter_value: &CellValue,
    case_sensitive: bool) -> (r: bool)
    ensures
        r == match_filter_spec(value@, operator@, filter_value@, case_sensitive),
{
    if str_eq(operator, "equals") {
        if case_sensitive {
            cell_eq(value, filter_value)
        } else {
            let a = cell_text(value);
            let b = cell_text(filter_value);
            let la = lowercase(a.as_str());
            let lb = lowercase(b.as_str());
            str_eq(la.as_str(), lb.as_str())
        }
    } else if str_eq(operator, "contains") {
        let a = cell_text(value);
        let b = cell_text(filter_value);
        if case_sensitive {
            let av = chars_of(a.as_str());
            let bv = chars_of(b.as_str());
            contains_chars(&av, &bv)
        } else {
            let la = lowercase(a.as_str());
            let lb = lowercase(b.as_str());
            let av = chars_of(la.as_str());
            let bv = chars_of(lb.as_str());
            contains_chars(&av, &bv)
        }
    } else if str_eq(operator, "greater_than") || str_eq(operator, "less_than")
        || str_eq(operator, "greater_than_or_equal") || str_eq(operator, "less_than_or_equal") {
        let ta = cell_num_text_exec(value);
        let tb = cell_num_text_exec(filter_value);
        match (ta, tb) {
            (Some(a), Some(b)) => {
                let ord = crate::numbers::cmp_float_texts(a.as_str(), b.as_str());
                if str_eq(operator, "greater_than") {
                    matches!(ord, Order::Greater)
                } else if str_eq(operator, "less_than") {
                    matches!(ord, Order::Less)
                } else if str_eq(operator, "greater_than_or_equal") {
                    !matches!(ord, Order::Less)
                } else {
                    !matches!(ord, Order::Greater)
                }
            },
            _ => false,
        }
    } else {
        false
    }
}

/// Whether a row matches one filter: the named column resolves to a
/// cell of the row and the operator comparison holds for it.
pub open spec fn row_matches_filter_spec(row: Seq<CellView>, headers: Seq<Seq<char>>,
    f: FilterSpec) -> bool {
    match row_cell(row, headers, f.column@) {
        Some(v) => match_filter_spec(v, f.operator@, f.value@, f.case_sensitive),
        None => false,
    }
}

/// Whether a row matches every filter of a set.
pub open spec fn row_matches_all_spec(row: Seq<CellView>, headers: Seq<Seq<char>>,
    filters: Seq<FilterSpec>) -> bool {
    forall|k: int| 0 <= k < filters.len() ==> row_matches_filter_spec(row, headers, #[trigger] filters[k])
}

/// Decides whether a row matches every filter.
pub fn row_matches_all(row: &Vec<CellValue>, headers: &Vec<String>, filters: &Vec<FilterSpec>)
    -> (r: bool)
    ensures
        r == row_matches_all_spec(cell_views(row@), string_views(headers@), filters@),
{
    let mut k: usize = 0;
    while k < filters.len()
        invariant
            k <= filters@.len(),
            forall|m: int|
                0 <= m < k ==> row_matches_filter_spec(
                    cell_views(row@),
                    string_views(headers@),
                    #[trigger] filters@[m],
                ),
        decreases filters@.len() - k,
    {
        let f = &filters[k];
        let matched = match col_index(headers, f.column.as_str()) {
            Some(ci) => {
                if ci < row.len() {
                    proof {
                        assert(cell_views(row@)[ci as int] == row@[ci as int]@);
                    }
                    match_filter_value(&row[ci], f.operator.as_str(), &f.value, f.case_sensitive)
                } else {
                    false
                }
            },
            None => false,
        };
        if !matched {
            proof {
                assert(!row_matches_filter_spec(
                    cell_views(row@),
                    string_views(headers@),
                    filters@[k as int],
                ));
            }
            return false;
        }
        k += 1;
    }
    true
}

/// The indices, in ascending order, of the rows among the first `k`
/// that match every filter.
pub open spec fn filter_indices_spec(data: Seq<Seq<CellView>>, headers: Seq<Seq<char>>,
    filters: Seq<FilterSpec>, k: int) -> Seq<usize>
    decreases k,
{
    if k <= 0 {
        Seq::empty()
    } else {
        let rest = filter_indices_spec(data, headers, filters, k - 1);
        if row_matches_all_spec(data[k - 1], headers, filters) {
            rest.push((k - 1) as usize)
        } else {
            rest
        }
    }
}

pub proof fn lemma_filter_indices_bounds(data: Seq<Seq<CellView>>, headers: Seq<Seq<char>>,
    filters: Seq<FilterSpec>, k: int)
    requires
        k <= data.len(),
        k <= usize::MAX,
    ensures
        forall|m: int|
            0 <= m < filter_indices_spec(data, headers, filters, k).len()
                ==> (#[trigger] filter_indices_spec(data, headers, filters, k)[m]) < k,
        forall|m: int, p: int|
            0 <= m < p < filter_indices_spec(data, headers, filters, k).len()
                ==> (#[trigger] filter_indices_spec(data, headers, filters, k)[m])
                < (#[trigger] filter_indices_spec(data, headers, filters, k)[p]),
    decreases k,
{
    if k > 0 {
        lemma_filter_indices_bounds(data, headers, filters, k - 1);
        let rest = filter_indices_spec(data, headers, filters, k - 1);
        let cur = filter_indices_spec(data, headers, filters, k);
        assert forall|m: int| 0 <= m < cur.len() implies (cur[m]) < k by {
            if m < rest.len() {
                assert(cur[m] == rest[m]);
            }
        }
        assert forall|m: int, p: int| 0 <= m < p < cur.len() implies (cur[m]) < (cur[p]) by {
            if p < rest.len() {
                assert(cur[m] == rest[m] && cur[p] == rest[p]);
            } else {
                assert(cur[m] == rest[m]);
                assert(cur[p] == (k - 1) as usize);
            }
        }
    }
}

/// The rows that pass every filter: their indices, ascending. A row
/// matches a filter set exactly when it matches each filter alone; an
/// empty set keeps every row.
pub fn apply_filters(data: &Vec<Vec<CellValue>>, headers: &Vec<String>,
    filters: &Vec<FilterSpec>) -> (r: Vec<usize>)
    ensures
        r@ == filter_indices_spec(
            rows_views(data@),
            string_views(headers@),
            filters@,
            data@.len() as int,
        ),
        forall|m: int| 0 <= m < r@.len() ==> (#[trigger] r@[m]) < data@.len(),
{
    let mut r: Vec<usize> = Vec::new();
    let mut i: usize = 0;
    while i < data.len()
        invariant
            i <= data@.len(),
            r@ == filter_indices_spec(
                rows_views(data@),
                string_views(headers@),
                filters@,
                i as int,
            ),
            forall|m: int| 0 <= m < r@.len() ==> (#[trigger] r@[m]) < i,
        decreases data@.len() - i,
    {
        proof {
            assert(rows_views(data@)[i as int] == cell_views(data@[i as int]@));
        }
        if row_matches_all(&data[i], headers, filters) {
            r.push(i);
        }
        i += 1;
    }
    r
}

/// The ascending comparison of two typed values: numbers by float
/// value; strings lexicographically, case-folded when requested;
/// booleans with false before true; mixed kinds by their stringified
/// forms, case-folded when requested.
pub open spec fn compare_cells_spec(a: CellView, b: CellView, cs: bool) -> Order {
    match (cell_num_text(a), cell_num_text(b)) {
        (Some(ta), Some(tb)) => float_order(ta, tb),
        _ => match (a, b) {
            (CellView::Str(s1), CellView::Str(s2)) => if cs {
                lex_cmp_spec(s1, s2)
            } else {
                lex_cmp_spec(lower_of(s1), lower_of(s2))
            },
            (CellView::Bool(b1), CellView::Bool(b2)) => if b1 == b2 {
                Order::Equal
            } else if !b1 {
                Order::Less
            } else {
                Order::Greater
            },
            _ => if cs {
                lex_cmp_spec(cell_text_spec(a), cell_text_spec(b))
            } else {
                lex_cmp_spec(lower_of(cell_text_spec(a)), lower_of(cell_text_spec(b)))
            },
        },
    }
}

/// The comparison of two typed values under a direction: `desc`
/// reverses the ascending comparison; any other direction is ascending.
pub open spec fn compare_values_spec(a: CellView, b: CellView, direction: Seq<char>, cs: bool)
    -> Order {
    if direction == "desc"@ {
        compare_cells_spec(a, b, cs).spec_reverse()
    } else {
        compare_cells_spec(a, b, cs)
    }
}

/// Compares two typed values under a direction and case flag.
pub fn compare_values(a: &CellValue, b: &CellValue, direction: &str, case_sensitive: bool) -> (r:
    Order)
    ensures
        r == compare_values_spec(a@, b@, direction@, case_sensitive),
{
    let ta = cell_num_text_exec(a);
    let tb = cell_num_text_exec(b);
    let asc: Order = match (ta, tb) {
        (Some(x), Some(y)) => crate::numbers::cmp_float_texts(x.as_str(), y.as_str()),
        _ => match (a, b) {
            (CellValue::Str(s1), CellValue::Str(s2)) => {
                if case_sensitive {
                    lex_cmp(s1.as_str(), s2.as_str())
                } else {
                    let l1 = lowercase(s1.as_str());
                    let l2 = lowercase(s2.as_str());
                    lex_cmp(l1.as_str(), l2.as_str())
                }
            },
            (CellValue::Bool(b1), CellValue::Bool(b2)) => {
                if *b1 == *b2 {
                    Order::Equal
                } else if !*b1 {
                    Order::Less
                } else {
                    Order::Greater
                }
            },
            _ => {
                let x = cell_text(a);
                let y = cell_text(b);
                if case_sensitive {
                    lex_cmp(x.as_str(), y.as_str())
                } else {
                    let lx = lowercase(x.as_str());
                    let ly = lowercase(y.as_str());
                    lex_cmp(lx.as_str(), ly.as_str())
                }
            },
        },
    };
    if str_eq(direction, "desc") {
        asc.reverse()
    } else {
        asc
    }
}

/// The comparison of two rows under a sort: by the sort column's cells;
/// a row without the column ranks after one with it, whatever the
/// direction, and two rows without it tie.
pub open spec fn compare_rows_spec(ra: Seq<CellView>, rb: Seq<CellView>,
    headers: Seq<Seq<char>>, sort: SortSpec) -> Order {
    match (row_cell(ra, headers, sort.column@), row_cell(rb, headers, sort.column@)) {
        (Some(a), Some(b)) => compare_values_spec(a, b, sort.direction@, sort.case_sensitive),
        (Some(_), None) => Order::Less,
        (None, Some(_)) => Order::Greater,
        (None, None) => Order::Equal,
    }
}

/// The comparison of the rows at two indices.
pub open spec fn cmp_idx(data: Seq<Seq<CellView>>, headers: Seq<Seq<char>>, sort: SortSpec,
    a: usize, b: usize) -> Order {
    compare_rows_spec(data[a as int], data[b as int], headers, sort)
}

fn compare_rows(data: &Vec<Vec<CellValue>>, headers: &Vec<String>, sort: &SortSpec, a: usize,
    b: usize) -> (r: Order)
    requires
        a < data@.len(),
        b < data@.len(),
    ensures
        r == cmp_idx(rows_views(data@), string_views(headers@), *sort, a, b),
{
    proof {
        assert(rows_views(data@)[a as int] == cell_views(data@[a as int]@));
        assert(rows_views(data@)[b as int] == cell_views(data@[b as int]@));
    }
    match col_index(headers, sort.column.as_str()) {
        Some(ci) => {
            let ra = &data[a];
            let rb = &data[b];
            let ha = ci < ra.len();
            let hb = ci < rb.len();
            if ha && hb {
                proof {
                    assert(cell_views(data@[a as int]@)[ci as int] == data@[a as int]@[ci as int]@);
                    assert(cell_views(data@[b as int]@)[ci as int] == data@[b as int]@[ci as int]@);
                }
                compare_values(&ra[ci], &rb[ci], sort.direction.as_str(), sort.case_sensitive)
            } else if ha {
                Order::Less
            } else if hb {
                Order::Greater
            } else {
                Order::Equal
            }
        },
        None => Order::Equal,
    }
}

/// Where `x` lands when inserted into `s` from the right: after every
/// element not comparing greater than it.
pub open spec fn insert_sorted(data: Seq<Seq<CellView>>, headers: Seq<Seq<char>>,
    sort: SortSpec, x: usize, s: Seq<usize>) -> Seq<usize>
    decreases s.len(),
{
    if s.len() == 0 {
        seq![x]
    } else if cmp_idx(data, headers, sort, s.last(), x) == Order::Greater {
        insert_sorted(data, headers, sort, x, s.drop_last()).push(s.last())
    } else {
        s.push(x)
    }
}

/// The stable insertion sort of `s` under the row comparison: elements
/// are inserted left to right, each after every element it does not
/// strictly precede.
pub open spec fn sort_indices_spec(data: Seq<Seq<CellView>>, headers: Seq<Seq<char>>,
    sort: SortSpec, s: Seq<usize>) -> Seq<usize>
    decreases s.len(),
{
    if s.len() == 0 {
        Seq::empty()
    } else {
        insert_sorted(data, headers, sort, s.last(),
            sort_indices_spec(data, headers, sort, s.drop_last()))
    }
}

proof fn lemma_insert_sorted_at(data: Seq<Seq<CellView>>, headers: Seq<Seq<char>>,
    sort: SortSpec, x: usize, s: Seq<usize>, j: int)
    requires
        0 <= j <= s.len(),
        forall|k: int| j <= k < s.len() ==> cmp_idx(data, headers, sort, #[trigger] s[k], x)
            == Order::Greater,
        j > 0 ==> cmp_idx(data, headers, sort, s[j - 1], x) != Order::Greater,
    ensures
        insert_sorted(data, headers, sort, x, s)
            =~= s.subrange(0, j).push(x) + s.subrange(j, s.len() as int),
    decreases s.len(),
{
    if j == s.len() {
        if s.len() > 0 {
            assert(cmp_idx(data, headers, sort, s.last(), x) != Order::Greater);
            assert(s.subrange(0, j) =~= s);
        }
    } else {
        assert(cmp_idx(data, headers, sort, s[s.len() - 1], x) == Order::Greater);
        lemma_insert_sorted_at(data, headers, sort, x, s.drop_last(), j);
        assert(s.drop_last().subrange(0, j) =~= s.subrange(0, j));
        assert(s.drop_last().subrange(j, s.len() - 1) =~= s.subrange(j, s.len() - 1));
    }
}

/// Sorts the given row indices stably under the sort specification,
/// leaving ties and rows without the sort column in their given order.
pub fn apply_sorting(indices: &Vec<usize>, data: &Vec<Vec<CellValue>>, headers: &Vec<String>,
    sort_spec: &SortSpec) -> (r: Vec<usize>)
    requires
        forall|k: int| 0 <= k < indices@.len() ==> (#[trigger] indices@[k]) < data@.len(),
    ensures
        r@ == sort_indices_spec(
            rows_views(data@),
            string_views(headers@),
            *sort_spec,
            indices@,
        ),
        forall|k: int| 0 <= k < r@.len() ==> (#[trigger] r@[k]) < data@.len(),
{
    let ghost dv = rows_views(data@);
    let ghost hv = string_views(headers@);
    let mut out: Vec<usize> = Vec::new();
    let mut i: usize = 0;
    proof {
        assert(indices@.subrange(0, 0) =~= Seq::<usize>::empty());
    }
    while i < indices.len()
        invariant
            i <= indices@.len(),
            dv == rows_views(data@),
            hv == string_views(headers@),
            forall|k: int| 0 <= k < indices@.len() ==> (#[trigger] indices@[k]) < data@.len(),
            out@ == sort_indices_spec(dv, hv, *sort_spec, indices@.subrange(0, i as int)),
            forall|k: int| 0 <= k < out@.len() ==> (#[trigger] out@[k]) < data@.len(),
        decreases indices@.len() - i,
    {
        let x = indices[i];
        let mut j: usize = out.len();
        let mut stop = false;
        while j > 0 && !stop
            invariant
                j <= out@.len(),
                x < data@.len(),
                dv == rows_views(data@),
                hv == string_views(headers@),
                forall|k: int| 0 <= k < out@.len() ==> (#[trigger] out@[k]) < data@.len(),
                forall|k: int|
                    j <= k < out@.len() ==> cmp_idx(dv, hv, *sort_spec, #[trigger] out@[k], x)
                        == Order::Greater,
                stop ==> j > 0 && cmp_idx(dv, hv, *sort_spec, out@[j - 1], x) != Order::Greater,
            decreases j, (if stop { 0int } else { 1int }),
        {
            let c = compare_rows(data, headers, sort_spec, out[j - 1], x);
            if matches!(c, Order::Greater) {
                j -= 1;
            } else {
                stop = true;
            }
        }
        proof {
            lemma_insert_sorted_at(dv, hv, *sort_spec, x, out@, j as int);
            assert(indices@.subrange(0, i as int + 1).drop_last()
                =~= indices@.subrange(0, i as int));
            assert(indices@.subrange(0, i as int + 1).last() == indices@[i as int]);
            assert(out@.insert(j as int, x)
                =~= out@.subrange(0, j as int).push(x) + out@.subrange(j as int, out@.len() as int));
        }
        out.insert(j, x);
        i += 1;
    }
    proof {
        assert(indices@.subrange(0, indices@.len() as int) =~= indices@);
    }
    out
}

} // verus!
