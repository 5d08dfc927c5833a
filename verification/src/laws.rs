//! Laws of the query engine, stated and proved over the same
//! specifications the executable functions are verified against.

use vstd::prelude::*;
use crate::cells::CellView;
use crate::query::{
    cmp_idx, filter_indices_spec, insert_sorted, row_matches_all_spec, row_matches_filter_spec,
    sort_indices_spec,
};
use crate::store::{loaded_headers, loaded_typed_rows, page_spec, query_indices};
use crate::types::{DataQuery, FilterSpec, SortSpec};
use crate::Order;

verus! {

/// Filter composition: a row matches the filter set of `f1` and `f2`
/// exactly when it matches each of the two alone.
pub proof fn lemma_filter_composition(row: Seq<CellView>, headers: Seq<Seq<char>>,
    f1: FilterSpec, f2: FilterSpec)
    ensures
        row_matches_all_spec(row, headers, seq![f1, f2]) <==> (row_matches_filter_spec(
            row,
            headers,
            f1,
        ) && row_matches_filter_spec(row, headers, f2)),
{
    let fs = seq![f1, f2];
    if row_matches_all_spec(row, headers, fs) {
        assert(row_matches_filter_spec(row, headers, fs[0]));
        assert(row_matches_filter_spec(row, headers, fs[1]));
    }
    if row_matches_filter_spec(row, headers, f1) && row_matches_filter_spec(row, headers, f2) {
        assert forall|k: int| 0 <= k < fs.len() implies row_matches_filter_spec(
            row,
            headers,
            #[trigger] fs[k],
        ) by {
            if k == 0 {
                assert(fs[0] == f1);
            } else {
                assert(fs[1] == f2);
            }
        }
    }
}

/// Query idempotence: the served page is a function of the table's
/// typed rows and headers and of the query alone, and a query changes
/// neither the rows nor the headers of a table — it retains only the
/// filter and sort state and the access time. Two queries with the same
/// specification against an unchanged table therefore yield identical
/// pages.
pub proof fn lemma_query_idempotent(rows1: Seq<Seq<CellView>>, headers1: Seq<Seq<char>>,
    rows2: Seq<Seq<CellView>>, headers2: Seq<Seq<char>>, q: DataQuery)
    requires
        rows2 == rows1,
        headers2 == headers1,
    ensures
        page_spec(rows2, headers2, q) == page_spec(rows1, headers1, q),
{
}

/// The page count is the ceiling of the filtered rows over the page
/// size: all filtered rows fit in that many pages, and one page fewer
/// would lose some.
pub proof fn lemma_total_pages_is_ceiling(filtered: int, page_size: int)
    requires
        filtered >= 0,
        page_size >= 1,
    ensures
        crate::store::total_pages_spec(filtered, page_size) * page_size >= filtered,
        filtered > 0 ==> (crate::store::total_pages_spec(filtered, page_size) - 1) * page_size
            < filtered,
        filtered == 0 ==> crate::store::total_pages_spec(filtered, page_size) == 0,
{
    let tp = crate::store::total_pages_spec(filtered, page_size);
    assert(tp * page_size >= filtered && (filtered > 0 ==> (tp - 1) * page_size < filtered) && (
    filtered == 0 ==> tp == 0)) by (nonlinear_arith)
        requires
            filtered >= 0,
            page_size >= 1,
            tp == (filtered + page_size - 1) / page_size,
    ;
}

proof fn lemma_filter_indices_all(data: Seq<Seq<CellView>>, headers: Seq<Seq<char>>,
    filters: Seq<FilterSpec>, k: int)
    requires
        filters.len() == 0,
        0 <= k <= data.len(),
        k <= usize::MAX,
    ensures
        filter_indices_spec(data, headers, filters, k) =~= Seq::new(
            k as nat,
            |i: int| i as usize,
        ),
    decreases k,
{
    if k > 0 {
        lemma_filter_indices_all(data, headers, filters, k - 1);
        assert(row_matches_all_spec(data[k - 1], headers, filters));
    }
}

/// A full first page after a load: loading keeps exactly the rows whose
/// field count equals the header count, in file order, and a query with
/// no filters, no sort, the first page and a page size of at least the
/// row count serves exactly those rows, in that order.
pub proof fn lemma_load_then_full_query(content: Seq<char>, q: DataQuery)
    requires
        q.filters@.len() == 0,
        q.sort is None,
        q.pagination.page == 1,
        q.pagination.page_size >= loaded_typed_rows(content).len(),
        q.pagination.page_size >= 1,
    ensures
        page_spec(loaded_typed_rows(content), loaded_headers(content), q).data
            == loaded_typed_rows(content),
        page_spec(loaded_typed_rows(content), loaded_headers(content), q).total_rows
            == loaded_typed_rows(content).len(),
        page_spec(loaded_typed_rows(content), loaded_headers(content), q).filtered_rows
            == loaded_typed_rows(content).len(),
{
    let rows = loaded_typed_rows(content);
    let headers = loaded_headers(content);
    let n = rows.len() as int;
    assert(n <= usize::MAX) by {
        assert(q.pagination.page_size as int <= usize::MAX);
    }
    lemma_filter_indices_all(rows, headers, q.filters@, n);
    let idx = query_indices(rows, headers, q);
    assert(idx =~= Seq::new(n as nat, |i: int| i as usize));
    assert(page_spec(rows, headers, q).data =~= rows);
}

proof fn lemma_insert_len(data: Seq<Seq<CellView>>, headers: Seq<Seq<char>>, sort: SortSpec,
    x: usize, s: Seq<usize>)
    ensures
        insert_sorted(data, headers, sort, x, s).len() == s.len() + 1,
    decreases s.len(),
{
    if s.len() > 0 && cmp_idx(data, headers, sort, s.last(), x) == Order::Greater {
        lemma_insert_len(data, headers, sort, x, s.drop_last());
    }
}

/// Where an insertion lands: after every element of `s` that compares
/// greater than `x`, counted from the right.
spec fn insert_pos(data: Seq<Seq<CellView>>, headers: Seq<Seq<char>>, sort: SortSpec, x: usize,
    s: Seq<usize>) -> int
    decreases s.len(),
{
    if s.len() == 0 {
        0
    } else if cmp_idx(data, headers, sort, s.last(), x) == Order::Greater {
        insert_pos(data, headers, sort, x, s.drop_last())
    } else {
        s.len() as int
    }
}

proof fn lemma_insert_shape(data: Seq<Seq<CellView>>, headers: Seq<Seq<char>>, sort: SortSpec,
    x: usize, s: Seq<usize>)
    ensures
        0 <= insert_pos(data, headers, sort, x, s) <= s.len(),
        insert_sorted(data, headers, sort, x, s) =~= s.subrange(
            0,
            insert_pos(data, headers, sort, x, s),
        ).push(x) + s.subrange(insert_pos(data, headers, sort, x, s), s.len() as int),
        forall|k: int|
            insert_pos(data, headers, sort, x, s) <= k < s.len()
                ==> cmp_idx(data, headers, sort, #[trigger] s[k], x) == Order::Greater,
    decreases s.len(),
{
    if s.len() > 0 {
        if cmp_idx(data, headers, sort, s.last(), x) == Order::Greater {
            lemma_insert_shape(data, headers, sort, x, s.drop_last());
            let j = insert_pos(data, headers, sort, x, s.drop_last());
            assert(s.drop_last().subrange(0, j) =~= s.subrange(0, j));
            assert(s.drop_last().subrange(j, s.len() - 1) =~= s.subrange(j, s.len() - 1));
            assert forall|k: int| j <= k < s.len() implies cmp_idx(
                data,
                headers,
                sort,
                #[trigger] s[k],
                x,
            ) == Order::Greater by {
                if k < s.len() - 1 {
                    assert(s.drop_last()[k] == s[k]);
                }
            }
        } else {
            assert(s.subrange(0, s.len() as int) =~= s);
        }
    }
}

proof fn lemma_sort_len(data: Seq<Seq<CellView>>, headers: Seq<Seq<char>>, sort: SortSpec,
    s: Seq<usize>)
    ensures
        sort_indices_spec(data, headers, sort, s).len() == s.len(),
    decreases s.len(),
{
    if s.len() > 0 {
        lemma_sort_len(data, headers, sort, s.drop_last());
        lemma_insert_len(data, headers, sort, s.last(),
            sort_indices_spec(data, headers, sort, s.drop_last()));
    }
}

/// Sort stability: when two rows of the pre-sort order tie under the
/// sort comparison, the stable sort keeps the earlier one before the
/// later one. Tied rows therefore stay in their filtered order.
pub proof fn lemma_sort_stable(data: Seq<Seq<CellView>>, headers: Seq<Seq<char>>,
    sort: SortSpec, s: Seq<usize>, a: int, b: int)
    requires
        0 <= a < b < s.len(),
        forall|i: int, j: int| 0 <= i < j < s.len() ==> s[i] != s[j],
        cmp_idx(data, headers, sort, s[a], s[b]) == Order::Equal,
    ensures
        exists|pa: int, pb: int|
            0 <= pa < pb < sort_indices_spec(data, headers, sort, s).len()
                && (#[trigger] sort_indices_spec(data, headers, sort, s)[pa]) == s[a]
                && (#[trigger] sort_indices_spec(data, headers, sort, s)[pb]) == s[b],
    decreases s.len(),
{
    let out = sort_indices_spec(data, headers, sort, s);
    let front = s.drop_last();
    let fsorted = sort_indices_spec(data, headers, sort, front);
    let x = s.last();
    lemma_sort_len(data, headers, sort, front);
    lemma_insert_shape(data, headers, sort, x, fsorted);
    let j = insert_pos(data, headers, sort, x, fsorted);
    if b == s.len() - 1 {
        // the later row is the element being inserted
        lemma_sort_contains(data, headers, sort, front, a);
        let pa = choose|pa: int|
            0 <= pa < fsorted.len() && (#[trigger] fsorted[pa]) == front[a];
        assert(fsorted[pa] == s[a]);
        // the earlier row cannot sit at or past the insertion point,
        // since everything there compares greater than the new element
        assert(pa < j) by {
            if pa >= j {
                assert(cmp_idx(data, headers, sort, fsorted[pa], x) == Order::Greater);
            }
        }
        assert(out[pa] == fsorted[pa]);
        assert(out[j] == x);
        assert(0 <= pa < j < out.len());
    } else {
        lemma_sort_stable(data, headers, sort, front, a, b);
        let (pa, pb) = choose|pa: int, pb: int|
            0 <= pa < pb < fsorted.len() && (#[trigger] fsorted[pa]) == front[a]
                && (#[trigger] fsorted[pb]) == front[b];
        let pa2 = if pa < j {
            pa
        } else {
            pa + 1
        };
        let pb2 = if pb < j {
            pb
        } else {
            pb + 1
        };
        assert(out[pa2] == fsorted[pa]);
        assert(out[pb2] == fsorted[pb]);
        assert(0 <= pa2 < pb2 < out.len());
    }
}

proof fn lemma_sort_contains(data: Seq<Seq<CellView>>, headers: Seq<Seq<char>>, sort: SortSpec,
    s: Seq<usize>, i: int)
    requires
        0 <= i < s.len(),
    ensures
        exists|p: int|
            0 <= p < sort_indices_spec(data, headers, sort, s).len()
                && (#[trigger] sort_indices_spec(data, headers, sort, s)[p]) == s[i],
    decreases s.len(),
{
    let out = sort_indices_spec(data, headers, sort, s);
    let front = s.drop_last();
    let fsorted = sort_indices_spec(data, headers, sort, front);
    let x = s.last();
    lemma_sort_len(data, headers, sort, front);
    lemma_insert_shape(data, headers, sort, x, fsorted);
    let j = insert_pos(data, headers, sort, x, fsorted);
    if i == s.len() - 1 {
        assert(out[j] == s[i]);
    } else {
        lemma_sort_contains(data, headers, sort, front, i);
        let p = choose|p: int| 0 <= p < fsorted.len() && (#[trigger] fsorted[p]) == front[i];
        let p2 = if p < j {
            p
        } else {
            p + 1
        };
        assert(out[p2] == fsorted[p]);
        assert(out[p2] == s[i]);
    }
}

} // verus!
