//! The table store: a registry of loaded tables keyed by opaque string
//! handles, with loading, querying, header reads and unloading.

use vstd::prelude::*;
use vstd::string::StringExecFns;
use crate::cells::{rows_views, string_views, CellValue, CellView};
use crate::chars::str_eq;
use crate::numbers::{dec_digits, digit_char, digits_val, digit_val, u64_to_string};
use crate::types::{
    filter_views, sort_view, CsvError, DataMetadata, FilterSpec, FilterView, MetaView, SortSpec,
    SortView,
};

verus! {

/// One loaded table: its handle, source path, headers, raw and typed
/// rows, metadata, the filter and sort state of the last query, and its
/// bookkeeping timestamps.
#[derive(Clone, Debug)]
pub struct CSVDataStore {
    pub file_id: String,
    pub file_path: String,
    pub headers: Vec<String>,
    pub raw_data: Vec<Vec<String>>,
    pub processed_data: Vec<Vec<CellValue>>,
    pub metadata: DataMetadata,
    pub filters: Vec<FilterSpec>,
    pub sort_config: Option<SortSpec>,
    pub created_at: String,
    pub last_accessed: String,
}

/// The mathematical shape of a loaded table.
pub struct TableView {
    pub file_id: Seq<char>,
    pub file_path: Seq<char>,
    pub headers: Seq<Seq<char>>,
    pub raw_data: Seq<Seq<Seq<char>>>,
    pub rows: Seq<Seq<CellView>>,
    pub metadata: MetaView,
    pub filters: Seq<FilterView>,
    pub sort_config: Option<SortView>,
    pub created_at: Seq<char>,
    pub last_accessed: Seq<char>,
}

impl View for CSVDataStore {
    type V = TableView;

    open spec fn view(&self) -> TableView {
        TableView {
            file_id: self.file_id@,
            file_path: self.file_path@,
            headers: string_views(self.headers@),
            raw_data: self.raw_data@.map(|i: int, r: Vec<String>| string_views(r@)),
            rows: rows_views(self.processed_data@),
            metadata: self.metadata@,
            filters: filter_views(self.filters@),
            sort_config: sort_view(self.sort_config),
            created_at: self.created_at@,
            last_accessed: self.last_accessed@,
        }
    }
}

/// A table is well formed when its typed rows parallel its raw rows,
/// every stored row spans exactly the headers, and the metadata counts
/// agree with the data.
pub open spec fn table_wf(t: TableView) -> bool {
    &&& t.rows.len() == t.raw_data.len()
    &&& forall|i: int| 0 <= i < t.raw_data.len() ==> (#[trigger] t.raw_data[i]).len()
        == t.headers.len()
    &&& forall|i: int| 0 <= i < t.rows.len() ==> (#[trigger] t.rows[i]).len() == t.headers.len()
    &&& t.metadata.row_count == t.raw_data.len()
    &&& t.metadata.column_count == t.headers.len()
}

/// The handle text a numeric identifier renders to.
pub open spec fn handle_text(n: u64) -> Seq<char> {
    "csv_"@ + dec_digits(n as nat)
}

proof fn lemma_digit_roundtrip(d: nat)
    requires
        d < 10,
    ensures
        digit_val(digit_char(d)) == d,
{
}

proof fn lemma_digits_val_roundtrip(n: nat)
    ensures
        digits_val(dec_digits(n)) == n,
    decreases n,
{
    reveal_with_fuel(digits_val, 3);
    if n < 10 {
        lemma_digit_roundtrip(n);
        assert(dec_digits(n) == seq![digit_char(n)]);
        assert(dec_digits(n).drop_last() =~= Seq::<char>::empty());
    } else {
        lemma_digits_val_roundtrip(n / 10);
        lemma_digit_roundtrip(n % 10);
        assert(dec_digits(n) == dec_digits(n / 10).push(digit_char(n % 10)));
        assert(dec_digits(n).drop_last() =~= dec_digits(n / 10));
        assert(dec_digits(n).last() == digit_char(n % 10));
        assert(digits_val(dec_digits(n))
            == digits_val(dec_digits(n / 10)) * 10 + digit_val(digit_char(n % 10)));
    }
}

pub proof fn lemma_handle_text_injective(a: u64, b: u64)
    requires
        handle_text(a) == handle_text(b),
    ensures
        a == b,
{
    let xa = dec_digits(a as nat);
    let xb = dec_digits(b as nat);
    assert(("csv_"@ + xa).len() == ("csv_"@ + xb).len());
    assert(xa.len() == xb.len());
    assert forall|i: int| 0 <= i < xa.len() implies xa[i] == xb[i] by {
        assert(("csv_"@ + xa)[("csv_"@).len() + i] == xa[i]);
        assert(("csv_"@ + xb)[("csv_"@).len() + i] == xb[i]);
    }
    assert(xa =~= xb);
    lemma_digits_val_roundtrip(a as nat);
    lemma_digits_val_roundtrip(b as nat);
}

/// The index of the table carrying the handle, or `-1`: the last
/// matching entry wins, though a well-formed store has at most one.
pub open spec fn table_index(tables: Seq<(u64, CSVDataStore)>, fid: Seq<char>) -> int
    decreases tables.len(),
{
    if tables.len() == 0 {
        -1
    } else if tables.last().1.file_id@ == fid {
        tables.len() - 1
    } else {
        table_index(tables.drop_last(), fid)
    }
}

pub proof fn lemma_table_index_props(tables: Seq<(u64, CSVDataStore)>, fid: Seq<char>)
    ensures
        -1 <= table_index(tables, fid) < tables.len(),
        table_index(tables, fid) >= 0 ==> tables[table_index(tables, fid)].1.file_id@ == fid,
        forall|k: int|
            0 <= k < tables.len() && (#[trigger] tables[k]).1.file_id@ == fid
                ==> table_index(tables, fid) >= 0,
    decreases tables.len(),
{
    if tables.len() > 0 {
        lemma_table_index_props(tables.drop_last(), fid);
        assert forall|k: int|
            0 <= k < tables.len() && (#[trigger] tables[k]).1.file_id@ == fid implies
            table_index(tables, fid) >= 0 by {
            if k < tables.len() - 1 {
                assert(tables.drop_last()[k] == tables[k]);
            }
        }
    }
}

pub proof fn lemma_table_index_is(tables: Seq<(u64, CSVDataStore)>, fid: Seq<char>, k: int)
    requires
        0 <= k < tables.len(),
        tables[k].1.file_id@ == fid,
        forall|k1: int, k2: int|
            0 <= k1 < tables.len() && 0 <= k2 < tables.len() && k1 != k2
                ==> (#[trigger] tables[k1]).1.file_id@ != (#[trigger] tables[k2]).1.file_id@,
    ensures
        table_index(tables, fid) == k,
    decreases tables.len(),
{
    if tables.last().1.file_id@ == fid {
        if k != tables.len() - 1 {
            assert(tables[k].1.file_id@ != tables[tables.len() - 1].1.file_id@);
        }
    } else {
        assert(k != tables.len() - 1);
        assert(tables.drop_last()[k] == tables[k]);
        lemma_table_index_is(tables.drop_last(), fid, k);
    }
}

/// The row indices a query serves, before pagination: the rows that
/// pass every filter, in file order, then stably sorted when a sort is
/// given.
pub open spec fn query_indices(dv: Seq<Seq<CellView>>, hv: Seq<Seq<char>>,
    q: crate::types::DataQuery) -> Seq<usize> {
    let f = crate::query::filter_indices_spec(dv, hv, q.filters@, dv.len() as int);
    match q.sort {
        Some(sp) => crate::query::sort_indices_spec(dv, hv, sp, f),
        None => f,
    }
}

/// How many pages the filtered rows fill: their count divided by the
/// page size, rounded up.
pub open spec fn total_pages_spec(filtered: int, page_size: int) -> int {
    (filtered + page_size - 1) / page_size
}

/// The first row position a page shows.
pub open spec fn page_start_spec(page: int, page_size: int) -> int {
    (page - 1) * page_size
}

/// How many rows a page shows: the page size, cut down at the end of
/// the filtered rows, and none past them.
pub open spec fn page_len_spec(filtered: int, page: int, page_size: int) -> int {
    let start = page_start_spec(page, page_size);
    if start >= filtered {
        0
    } else if start + page_size <= filtered {
        page_size
    } else {
        filtered - start
    }
}

/// The headers a load derives: the trimmed fields of the first line
/// when it looks like a header row, else synthesized names `Column 1`,
/// `Column 2`, and so on, one per field of the first line.
pub open spec fn loaded_headers(content: Seq<char>) -> Seq<Seq<char>> {
    let d = crate::sniff::detect_delimiter_spec(content);
    let lines = crate::tokenize::lines_spec(content);
    if crate::sniff::is_header_row_spec(lines[0], d) {
        crate::tokenize::fields_spec(lines[0], d)
    } else {
        Seq::new(
            crate::tokenize::field_count(lines[0], d),
            |i: int| "Column "@ + dec_digits((i + 1) as nat),
        )
    }
}

/// The tokenized rows among lines `from` to `k` whose field count
/// equals the header count; others are dropped.
pub open spec fn kept_rows_upto(lines: Seq<Seq<char>>, d: char, ncols: int, from: int, k: int)
    -> Seq<Seq<Seq<char>>>
    decreases k - from,
{
    if k <= from {
        Seq::empty()
    } else {
        let rest = kept_rows_upto(lines, d, ncols, from, k - 1);
        let f = crate::tokenize::fields_spec(lines[k - 1], d);
        if f.len() == ncols {
            rest.push(f)
        } else {
            rest
        }
    }
}

/// The raw rows a load stores: every line after the header row (or
/// every line, when no header was detected) whose field count equals
/// the header count, in file order, fields trimmed.
pub open spec fn loaded_rows(content: Seq<char>) -> Seq<Seq<Seq<char>>> {
    let d = crate::sniff::detect_delimiter_spec(content);
    let lines = crate::tokenize::lines_spec(content);
    let from: int = if crate::sniff::is_header_row_spec(lines[0], d) {
        1
    } else {
        0
    };
    kept_rows_upto(lines, d, loaded_headers(content).len() as int, from, lines.len() as int)
}

/// The typed rows a load stores: every kept raw row, each cell coerced.
pub open spec fn loaded_typed_rows(content: Seq<char>) -> Seq<Seq<CellView>> {
    loaded_rows(content).map(
        |i: int, row: Seq<Seq<char>>|
            row.map(|j: int, f: Seq<char>| crate::cells::infer_value_spec(f)),
    )
}

/// The mathematical shape of a served page.
pub struct PageView {
    pub data: Seq<Seq<CellView>>,
    pub total_rows: int,
    pub filtered_rows: int,
    pub current_page: int,
    pub total_pages: int,
    pub page_size: int,
    pub has_next: bool,
    pub has_prev: bool,
}

impl View for crate::types::DataPage {
    type V = PageView;

    open spec fn view(&self) -> PageView {
        PageView {
            data: rows_views(self.data@),
            total_rows: self.total_rows as int,
            filtered_rows: self.filtered_rows as int,
            current_page: self.current_page as int,
            total_pages: self.total_pages as int,
            page_size: self.page_size as int,
            has_next: self.has_next,
            has_prev: self.has_prev,
        }
    }
}

/// The page a query yields, as a function of the table's typed rows and
/// headers and of the query alone: queries do not depend on, nor
/// change, anything else of a table.
pub open spec fn page_spec(rows: Seq<Seq<CellView>>, headers: Seq<Seq<char>>,
    q: crate::types::DataQuery) -> PageView {
    let idx = query_indices(rows, headers, q);
    let page = q.pagination.page as int;
    let size = q.pagination.page_size as int;
    let start = page_start_spec(page, size);
    let len = page_len_spec(idx.len() as int, page, size);
    PageView {
        data: Seq::new(len as nat, |m: int| rows[idx[start + m] as int]),
        total_rows: rows.len() as int,
        filtered_rows: idx.len() as int,
        current_page: page,
        total_pages: total_pages_spec(idx.len() as int, size),
        page_size: size,
        has_next: page < total_pages_spec(idx.len() as int, size),
        has_prev: page > 1,
    }
}

/// The store: the loaded tables, each beside its numeric identifier,
/// and the identifier the next load will take.
#[derive(Debug)]
pub struct CsvStore {
    pub tables: Vec<(u64, CSVDataStore)>,
    pub next_id: u64,
}

impl CsvStore {
    /// The store is well formed when every table is, identifiers are
    /// distinct and below the next one, and every handle is its
    /// identifier's rendering.
    pub open spec fn wf(&self) -> bool {
        &&& forall|k: int| 0 <= k < self.tables@.len() ==> table_wf((#[trigger] self.tables@[k]).1@)
        &&& forall|k: int| 0 <= k < self.tables@.len() ==> (#[trigger] self.tables@[k]).0
            < self.next_id
        &&& forall|k1: int, k2: int|
            0 <= k1 < self.tables@.len() && 0 <= k2 < self.tables@.len() && k1 != k2
                ==> (#[trigger] self.tables@[k1]).0 != (#[trigger] self.tables@[k2]).0
        &&& forall|k: int|
            0 <= k < self.tables@.len() ==> (#[trigger] self.tables@[k]).1.file_id@
                == handle_text(self.tables@[k].0)
    }

    /// Whether some loaded table carries the handle.
    pub open spec fn contains_handle(&self, fid: Seq<char>) -> bool {
        table_index(self.tables@, fid) >= 0
    }

    /// The view of the table carrying the handle.
    pub open spec fn table_at(&self, fid: Seq<char>) -> TableView {
        self.tables@[table_index(self.tables@, fid)].1@
    }

    /// In a well-formed store, any index whose table carries the handle
    /// is the one `table_at` describes.
    pub proof fn lemma_table_at(&self, fid: Seq<char>, k: int)
        requires
            self.wf(),
            0 <= k < self.tables@.len(),
            self.tables@[k].1.file_id@ == fid,
        ensures
            self.table_at(fid) == self.tables@[k].1@,
            self.contains_handle(fid),
            table_index(self.tables@, fid) == k,
    {
        assert forall|k1: int, k2: int|
            0 <= k1 < self.tables@.len() && 0 <= k2 < self.tables@.len() && k1 != k2 implies
            (#[trigger] self.tables@[k1]).1.file_id@ != (#[trigger] self.tables@[k2]).1.file_id@
        by {
            if self.tables@[k1].1.file_id@ == self.tables@[k2].1.file_id@ {
                lemma_handle_text_injective(self.tables@[k1].0, self.tables@[k2].0);
            }
        }
        lemma_table_index_is(self.tables@, fid, k);
    }

    /// An empty store.
    pub fn new() -> (r: CsvStore)
        ensures
            r.wf(),
            r.tables@.len() == 0,
            forall|fid: Seq<char>| !r.contains_handle(fid),
    {
        CsvStore { tables: Vec::new(), next_id: 0 }
    }

    /// The index of the table carrying the handle, if any.
    fn find_table(&self, file_id: &str) -> (r: Option<usize>)
        ensures
            match r {
                Some(k) => k < self.tables@.len() && self.tables@[k as int].1.file_id@
                    == file_id@,
                None => !self.contains_handle(file_id@),
            },
    {
        let mut k: usize = 0;
        while k < self.tables.len()
            invariant
                k <= self.tables@.len(),
                forall|m: int| 0 <= m < k ==> (#[trigger] self.tables@[m]).1.file_id@ != file_id@,
            decreases self.tables@.len() - k,
        {
            if str_eq(self.tables[k].1.file_id.as_str(), file_id) {
                return Some(k);
            }
            k += 1;
        }
        proof {
            lemma_table_index_props(self.tables@, file_id@);
        }
        None
    }

    /// The headers of the table carrying the handle, or a not-found
    /// error naming the handle, exactly when no table carries it.
    pub fn get_csv_headers(&self, file_id: &str) -> (r: Result<Vec<String>, CsvError>)
        requires
            self.wf(),
        ensures
            (r is Ok) <==> self.contains_handle(file_id@),
            r matches Ok(h) ==> string_views(h@) == self.table_at(file_id@).headers,
            r matches Err(e) ==> e matches CsvError::TableNotFound(id) && id@ == file_id@,
    {
        match self.find_table(file_id) {
            Some(k) => {
                proof {
                    self.lemma_table_at(file_id@, k as int);
                }
                Ok(clone_strings(&self.tables[k].1.headers))
            },
            None => Err(CsvError::TableNotFound(String::from_str(file_id))),
        }
    }

    /// Drops the table carrying the handle, if any. Never fails: an
    /// unknown handle leaves the store unchanged. Afterwards no table
    /// carries the handle, and every other handle still maps to the
    /// same table.
    pub fn unload_csv_data(&mut self, file_id: &str) -> (r: Result<(), CsvError>)
        requires
            old(self).wf(),
        ensures
            r is Ok,
            final(self).wf(),
            final(self).next_id == old(self).next_id,
            !final(self).contains_handle(file_id@),
            forall|fid: Seq<char>|
                fid != file_id@ ==> (#[trigger] final(self).contains_handle(fid)
                    == old(self).contains_handle(fid)),
            forall|fid: Seq<char>|
                fid != file_id@ && old(self).contains_handle(fid)
                    ==> #[trigger] final(self).table_at(fid) == old(self).table_at(fid),
    {
        let found = self.find_table(file_id);
        match found {
            Some(k) => {
                let ghost oldtabs = self.tables@;
                let _ = self.tables.remove(k);
                proof {
                    let newtabs = self.tables@;
                    assert(forall|m: int|
                        0 <= m < newtabs.len() ==> #[trigger] newtabs[m]
                            == (if m < k as int { oldtabs[m] } else { oldtabs[m + 1] }));
                    assert(final(self).wf());
                    lemma_table_index_props(newtabs, file_id@);
                    if table_index(newtabs, file_id@) >= 0 {
                        let ni = table_index(newtabs, file_id@);
                        let mo = if ni < k as int { ni } else { ni + 1 };
                        assert(oldtabs[mo].1.file_id@ == file_id@);
                        assert(mo != k as int);
                        lemma_handle_text_injective(oldtabs[mo].0, oldtabs[k as int].0);
                        assert(false);
                    }
                    assert forall|fid: Seq<char>|
                        fid != file_id@ implies (#[trigger] final(self).contains_handle(fid)
                            == old(self).contains_handle(fid)) by {
                        lemma_table_index_props(newtabs, fid);
                        lemma_table_index_props(oldtabs, fid);
                        if table_index(newtabs, fid) >= 0 {
                            let ni = table_index(newtabs, fid);
                            let mo = if ni < k as int { ni } else { ni + 1 };
                            assert(oldtabs[mo].1.file_id@ == fid);
                        }
                        if table_index(oldtabs, fid) >= 0 {
                            let oi = table_index(oldtabs, fid);
                            assert(oi != k as int);
                            let ni = if oi < k as int { oi } else { oi - 1 };
                            assert(newtabs[ni].1.file_id@ == fid);
                        }
                    }
                    assert forall|fid: Seq<char>|
                        fid != file_id@ && old(self).contains_handle(fid) implies
                        #[trigger] final(self).table_at(fid) == old(self).table_at(fid) by {
                        lemma_table_index_props(oldtabs, fid);
                        let oi = table_index(oldtabs, fid);
                        assert(oi != k as int);
                        let ni = if oi < k as int { oi } else { oi - 1 };
                        assert(newtabs[ni].1.file_id@ == fid);
                        assert(newtabs[ni] == oldtabs[oi]);
                        final(self).lemma_table_at(fid, ni);
                        old(self).lemma_table_at(fid, oi);
                    }
                }
                Ok(())
            },
            None => Ok(()),
        }
    }

    /// Serves one page of a query: looks the handle up, applies the
    /// query's filters and optional sort, slices the requested page,
    /// and retains the query's filter and sort state and the access
    /// time on the table. Fails, naming the handle, exactly when no
    /// table carries it; the stored rows themselves never change.
    pub fn query_csv_data(&mut self, query: &crate::types::DataQuery, now: &str) -> (r: Result<
        crate::types::DataPage,
        CsvError,
    >)
        requires
            old(self).wf(),
            query.pagination.page >= 1,
            query.pagination.page_size >= 1,
        ensures
            final(self).wf(),
            final(self).next_id == old(self).next_id,
            (r is Ok) <==> old(self).contains_handle(query.file_id@),
            r matches Err(e) ==> e matches CsvError::TableNotFound(id) && id@ == query.file_id@,
            r is Err ==> *final(self) == *old(self),
            forall|fid: Seq<char>|
                (#[trigger] final(self).contains_handle(fid))
                    == old(self).contains_handle(fid),
            r is Ok ==> final(self).table_at(query.file_id@) == (TableView {
                filters: filter_views(query.filters@),
                sort_config: sort_view(query.sort),
                last_accessed: now@,
                ..old(self).table_at(query.file_id@)
            }),
            forall|fid: Seq<char>|
                fid != query.file_id@ && old(self).contains_handle(fid)
                    ==> #[trigger] final(self).table_at(fid) == old(self).table_at(fid),
            r matches Ok(p) ==> p@ == page_spec(
                old(self).table_at(query.file_id@).rows,
                old(self).table_at(query.file_id@).headers,
                *query,
            ),
            r matches Ok(p) ==> {
                let t = old(self).table_at(query.file_id@);
                let idx = query_indices(t.rows, t.headers, *query);
                let start = page_start_spec(
                    query.pagination.page as int,
                    query.pagination.page_size as int,
                );
                &&& p.total_rows == t.rows.len()
                &&& p.filtered_rows == idx.len()
                &&& p.current_page == query.pagination.page
                &&& p.page_size == query.pagination.page_size
                &&& p.total_pages == total_pages_spec(
                    idx.len() as int,
                    query.pagination.page_size as int,
                )
                &&& p.has_next == (p.current_page < p.total_pages)
                &&& p.has_prev == (p.current_page > 1)
                &&& p.data@.len() == page_len_spec(
                    idx.len() as int,
                    query.pagination.page as int,
                    query.pagination.page_size as int,
                )
                &&& forall|m: int|
                    0 <= m < p.data@.len() ==> crate::cells::cell_views(
                        (#[trigger] p.data@[m])@,
                    ) == t.rows[idx[start + m] as int]
            },
    {
        let found = self.find_table(query.file_id.as_str());
        let k = match found {
            Some(k) => k,
            None => {
                return Err(CsvError::TableNotFound(String::from_str(query.file_id.as_str())));
            },
        };
        proof {
            old(self).lemma_table_at(query.file_id@, k as int);
        }
        let ghost oldtabs = self.tables@;
        let mut entry = self.tables.remove(k);
        let ghost t = entry.1@;
        let filtered = crate::query::apply_filters(
            &entry.1.processed_data,
            &entry.1.headers,
            &query.filters,
        );
        let sorted = match &query.sort {
            Some(sp) => crate::query::apply_sorting(
                &filtered,
                &entry.1.processed_data,
                &entry.1.headers,
                sp,
            ),
            None => filtered,
        };
        proof {
            assert(sorted@ == query_indices(t.rows, t.headers, *query));
        }
        let total_filtered = sorted.len();
        let page = query.pagination.page;
        let size = query.pagination.page_size;
        proof {
            assert((page as u128 - 1) * (size as u128)
                <= 0xffff_ffff_ffff_fffeu128 * 0xffff_ffff_ffff_ffffu128) by (nonlinear_arith)
                requires
                    1 <= page as u128,
                    page as u128 <= 0xffff_ffff_ffff_ffffu128,
                    size as u128 <= 0xffff_ffff_ffff_ffffu128,
            ;
        }
        let start128 = (page as u128 - 1) * (size as u128);
        let mut data: Vec<Vec<CellValue>> = Vec::new();
        if start128 < total_filtered as u128 {
            let start = start128 as usize;
            let remaining = total_filtered - start;
            let take = if size <= remaining { size } else { remaining };
            let mut m: usize = 0;
            while m < take
                invariant
                    m <= take,
                    start + take <= total_filtered,
                    total_filtered == sorted@.len(),
                    sorted@ == query_indices(t.rows, t.headers, *query),
                    forall|w: int|
                        0 <= w < sorted@.len() ==> (#[trigger] sorted@[w])
                            < entry.1.processed_data@.len(),
                    t.rows == rows_views(entry.1.processed_data@),
                    data@.len() == m,
                    forall|w: int|
                        0 <= w < m ==> crate::cells::cell_views((#[trigger] data@[w])@)
                            == t.rows[sorted@[start + w] as int],
                decreases take - m,
            {
                let idxval = sorted[start + m];
                let row = clone_row(&entry.1.processed_data[idxval]);
                proof {
                    assert(rows_views(entry.1.processed_data@)[idxval as int]
                        == crate::cells::cell_views(entry.1.processed_data@[idxval as int]@));
                }
                data.push(row);
                m += 1;
            }
        }
        let n128 = total_filtered as u128;
        let s128 = size as u128;
        let tp128 = (n128 + s128 - 1) / s128;
        proof {
            assert(tp128 <= n128) by (nonlinear_arith)
                requires
                    s128 >= 1,
                    tp128 == ((n128 + s128 - 1) as int) / (s128 as int),
            ;
        }
        let total_pages = tp128 as usize;
        let p = crate::types::DataPage {
            data,
            total_rows: entry.1.processed_data.len(),
            filtered_rows: total_filtered,
            current_page: page,
            total_pages,
            page_size: size,
            has_next: page < total_pages,
            has_prev: page > 1,
        };
        entry.1.filters = clone_filters(&query.filters);
        entry.1.sort_config = clone_sort(&query.sort);
        entry.1.last_accessed = now.to_owned();
        let ghost newentry = entry;
        self.tables.insert(k, entry);
        proof {
            assert(self.tables@ =~= oldtabs.update(k as int, newentry));
            let newtabs = self.tables@;
            assert(final(self).wf());
            assert forall|fid: Seq<char>|
                (#[trigger] final(self).contains_handle(fid))
                    == old(self).contains_handle(fid) by {
                lemma_table_index_props(newtabs, fid);
                lemma_table_index_props(oldtabs, fid);
                if table_index(newtabs, fid) >= 0 {
                    let ni = table_index(newtabs, fid);
                    assert(oldtabs[ni].1.file_id@ == fid);
                }
                if table_index(oldtabs, fid) >= 0 {
                    let oi = table_index(oldtabs, fid);
                    assert(newtabs[oi].1.file_id@ == fid);
                }
            }
            final(self).lemma_table_at(query.file_id@, k as int);
            assert forall|fid: Seq<char>|
                fid != query.file_id@ && old(self).contains_handle(fid) implies
                #[trigger] final(self).table_at(fid) == old(self).table_at(fid) by {
                lemma_table_index_props(oldtabs, fid);
                let oi = table_index(oldtabs, fid);
                assert(oi != k as int);
                assert(newtabs[oi] == oldtabs[oi]);
                final(self).lemma_table_at(fid, oi);
                old(self).lemma_table_at(fid, oi);
            }
        }
        proof {
            assert(p@.data =~= page_spec(t.rows, t.headers, *query).data);
        }
        Ok(p)
    }

    /// Loads delimited text into the store: validates it, derives the
    /// headers, keeps exactly the rows whose field count matches them,
    /// coerces every kept cell, and registers the table under a fresh
    /// handle. Fails exactly when the text holds no lines at all, and
    /// then leaves the store unchanged; no other table is touched.
    pub fn load_csv_into_store(&mut self, content: &str, encoding: &str, file_path: &str,
        file_size: u64, now: &str) -> (r: Result<crate::types::CSVLoadResult, CsvError>)
        requires
            old(self).wf(),
            old(self).next_id < u64::MAX,
            content@.len() < usize::MAX,
        ensures
            final(self).wf(),
            (r is Ok) <==> crate::tokenize::lines_spec(content@).len() > 0,
            r matches Err(e) ==> e == CsvError::EmptyFile && *final(self) == *old(self),
            r matches Ok(res) ==> {
                let lines = crate::tokenize::lines_spec(content@);
                let d = crate::sniff::detect_delimiter_spec(content@);
                &&& res.success == true
                &&& res.error_message is None
                &&& res.file_id@ == handle_text(old(self).next_id)
                &&& final(self).next_id == old(self).next_id + 1
                &&& !old(self).contains_handle(res.file_id@)
                &&& final(self).contains_handle(res.file_id@)
                &&& string_views(res.headers@) == loaded_headers(content@)
                &&& res.metadata.row_count == loaded_rows(content@).len()
                &&& res.metadata.column_count == loaded_headers(content@).len()
                &&& res.metadata.file_size == file_size
                &&& res.metadata.encoding@ == encoding@
                &&& res.metadata.delimiter@ == seq![d]
                &&& res.metadata.has_headers == crate::sniff::is_header_row_spec(lines[0], d)
                &&& res.metadata.estimated_memory_usage == memory_usage_spec(
                    loaded_rows(content@).len() as int,
                )
                &&& final(self).table_at(res.file_id@) == (TableView {
                    file_id: handle_text(old(self).next_id),
                    file_path: file_path@,
                    headers: loaded_headers(content@),
                    raw_data: loaded_rows(content@),
                    rows: loaded_typed_rows(content@),
                    metadata: res.metadata@,
                    filters: Seq::empty(),
                    sort_config: None,
                    created_at: now@,
                    last_accessed: now@,
                })
                &&& forall|fid: Seq<char>|
                    fid != res.file_id@ ==> (#[trigger] final(self).contains_handle(fid)
                        == old(self).contains_handle(fid))
                &&& forall|fid: Seq<char>|
                    fid != res.file_id@ && old(self).contains_handle(fid)
                        ==> #[trigger] final(self).table_at(fid) == old(self).table_at(fid)
            },
    {
        let validation = match crate::sniff::validate_csv_content(content, encoding) {
            Ok(v) => v,
            Err(_) => {
                return Err(CsvError::EmptyFile);
            },
        };
        let cs = crate::chars::chars_of(content);
        let d = crate::sniff::detect_delim_chars(&cs);
        let lines = crate::tokenize::lines_of(&cs);
        let ghost linesv = crate::tokenize::lines_spec(content@);
        proof {
            assert(lines@.len() == linesv.len());
            assert(forall|i: int| 0 <= i < lines@.len() ==> (#[trigger] lines@[i])@ == linesv[i]);
        }
        if !validation.is_valid {
            // validation never reports an invalid text without failing
            // outright, so this failure result is unreachable; it stands
            // for the contract that an invalid file inserts nothing
            return Ok(crate::types::CSVLoadResult {
                file_id: String::new(),
                success: false,
                metadata: DataMetadata {
                    row_count: 0,
                    column_count: 0,
                    file_size,
                    encoding: validation.encoding,
                    delimiter: validation.delimiter,
                    has_headers: validation.has_headers,
                    estimated_memory_usage: 0,
                },
                headers: Vec::new(),
                error_message: Some("CSV file validation failed".to_owned()),
            });
        }
        let first_fields = crate::tokenize::fields_of(&lines[0], d);
        let ncols = first_fields.len();
        proof {
            assert(lines@[0]@ == linesv[0]);
            crate::tokenize::lemma_split_char_len(linesv[0], d);
            assert(first_fields@.len() == crate::tokenize::fields_spec(linesv[0], d).len());
            assert(crate::tokenize::fields_spec(linesv[0], d).len()
                == crate::tokenize::split_char(linesv[0], d).len());
            assert(ncols == crate::tokenize::field_count(linesv[0], d));
        }
        let headers: Vec<String> = if validation.has_headers {
            let h = strings_of_fields(&first_fields);
            proof {
                assert(string_views(h@) =~= loaded_headers(content@));
            }
            h
        } else {
            let h = synth_headers(ncols);
            proof {
                assert(string_views(h@) =~= loaded_headers(content@));
            }
            h
        };
        let ghost hv = loaded_headers(content@);
        let from: usize = if validation.has_headers {
            1
        } else {
            0
        };
        let nlines = lines.len();
        let mut raw: Vec<Vec<String>> = Vec::new();
        let mut k: usize = from;
        while k < nlines
            invariant
                from <= k <= nlines,
                nlines == lines@.len(),
                nlines == linesv.len(),
                ncols == headers@.len(),
                forall|i: int| 0 <= i < lines@.len() ==> (#[trigger] lines@[i])@ == linesv[i],
                raw@.map(|i: int, r: Vec<String>| string_views(r@))
                    == kept_rows_upto(linesv, d, ncols as int, from as int, k as int),
                forall|i: int| 0 <= i < raw@.len() ==> (#[trigger] raw@[i])@.len() == ncols,
            decreases nlines - k,
        {
            let fields = crate::tokenize::fields_of(&lines[k], d);
            if fields.len() == ncols {
                let row = strings_of_fields(&fields);
                proof {
                    assert(string_views(row@) =~= crate::tokenize::fields_spec(linesv[k as int], d));
                }
                raw.push(row);
            }
            proof {
                assert(raw@.map(|i: int, r: Vec<String>| string_views(r@))
                    =~= kept_rows_upto(linesv, d, ncols as int, from as int, k as int + 1));
            }
            k += 1;
        }
        let ghost rawv = loaded_rows(content@);
        proof {
            assert(raw@.map(|i: int, r: Vec<String>| string_views(r@)) == rawv);
        }
        let typed = crate::cells::infer_data_types(&raw, &headers);
        proof {
            assert forall|i: int| 0 <= i < typed@.len() implies
                rows_views(typed@)[i] == loaded_typed_rows(content@)[i] by {
                let rowv = raw@[i]@.map(|j: int, t: String| t@);
                assert(rowv == rawv[i]);
                assert((typed@[i])@.map(|j: int, c: CellValue| c@)
                    == crate::cells::typed_row_spec(rowv, headers@.len() as int));
                assert(crate::cells::typed_row_spec(rowv, headers@.len() as int)
                    =~= rawv[i].map(|j: int, f: Seq<char>| crate::cells::infer_value_spec(f)));
            }
            assert(rows_views(typed@) =~= loaded_typed_rows(content@));
        }
        let estimated_memory = calculate_memory_usage(&typed);
        let metadata = DataMetadata {
            row_count: raw.len(),
            column_count: headers.len(),
            file_size,
            encoding: encoding.to_owned(),
            delimiter: validation.delimiter,
            has_headers: validation.has_headers,
            estimated_memory_usage: estimated_memory,
        };
        let fid_num = self.next_id;
        let mut fid = "csv_".to_owned();
        let digits = u64_to_string(fid_num);
        fid.append(digits.as_str());
        proof {
            assert(fid@ == handle_text(fid_num));
            lemma_table_index_props(self.tables@, fid@);
            if table_index(self.tables@, fid@) >= 0 {
                let oi = table_index(self.tables@, fid@);
                lemma_handle_text_injective(self.tables@[oi].0, fid_num);
                assert(false);
            }
        }
        let table = CSVDataStore {
            file_id: fid.clone(),
            file_path: file_path.to_owned(),
            headers: clone_strings(&headers),
            raw_data: raw,
            processed_data: typed,
            metadata: clone_metadata(&metadata),
            filters: Vec::new(),
            sort_config: None,
            created_at: now.to_owned(),
            last_accessed: now.to_owned(),
        };
        let ghost oldtabs = self.tables@;
        let ghost newtable = table;
        self.next_id = fid_num + 1;
        self.tables.push((fid_num, table));
        proof {
            let newtabs = self.tables@;
            assert(newtabs.last() == (fid_num, newtable));
            assert(newtabs.drop_last() =~= oldtabs);
            assert(table_wf(newtable@)) by {
                assert(newtable@.headers =~= hv);
                assert(newtable@.raw_data =~= rawv);
            }
            assert(final(self).wf()) by {
                assert(forall|m: int| 0 <= m < oldtabs.len() ==> newtabs[m] == oldtabs[m]);
            }
            assert(table_index(newtabs, fid@) == newtabs.len() - 1);
            final(self).lemma_table_at(fid@, newtabs.len() - 1);
            assert(final(self).table_at(fid@) == newtable@);
            assert(newtable@.headers == hv);
            assert(newtable@.raw_data == rawv);
            assert(newtable@.rows == loaded_typed_rows(content@));
            assert(newtable@.filters =~= Seq::<FilterView>::empty());
            assert forall|fid2: Seq<char>|
                fid2 != fid@ implies (#[trigger] final(self).contains_handle(fid2)
                    == old(self).contains_handle(fid2)) by {
                assert(table_index(newtabs, fid2) == table_index(oldtabs, fid2));
            }
            assert forall|fid2: Seq<char>|
                fid2 != fid@ && old(self).contains_handle(fid2) implies
                #[trigger] final(self).table_at(fid2) == old(self).table_at(fid2) by {
                lemma_table_index_props(oldtabs, fid2);
                let oi = table_index(oldtabs, fid2);
                assert(table_index(newtabs, fid2) == oi);
                assert(newtabs[oi] == oldtabs[oi]);
            }
        }
        Ok(crate::types::CSVLoadResult {
            file_id: fid,
            success: true,
            metadata,
            headers,
            error_message: None,
        })
    }
}

/// Turns tokenized fields into strings.
pub(crate) fn strings_of_fields(fields: &Vec<Vec<char>>) -> (r: Vec<String>)
    ensures
        r@.len() == fields@.len(),
        forall|i: int| 0 <= i < r@.len() ==> (#[trigger] r@[i])@ == fields@[i]@,
{
    let mut r: Vec<String> = Vec::new();
    let mut i: usize = 0;
    while i < fields.len()
        invariant
            i <= fields@.len(),
            r@.len() == i,
            forall|m: int| 0 <= m < i ==> (#[trigger] r@[m])@ == fields@[m]@,
        decreases fields@.len() - i,
    {
        r.push(crate::chars::string_from_chars(&fields[i]));
        i += 1;
    }
    r
}

/// Synthesizes `n` positional column names, numbered from one.
fn synth_headers(n: usize) -> (r: Vec<String>)
    ensures
        r@.len() == n,
        forall|i: int|
            0 <= i < r@.len() ==> (#[trigger] r@[i])@ == "Column "@ + dec_digits((i + 1) as nat),
{
    let mut r: Vec<String> = Vec::new();
    let mut i: usize = 0;
    while i < n
        invariant
            i <= n,
            r@.len() == i,
            forall|m: int|
                0 <= m < i ==> (#[trigger] r@[m])@ == "Column "@ + dec_digits((m + 1) as nat),
        decreases n - i,
    {
        let mut name = "Column ".to_owned();
        let digits = u64_to_string((i + 1) as u64);
        name.append(digits.as_str());
        r.push(name);
        i += 1;
    }
    r
}

/// Copies a table's metadata.
fn clone_metadata(m: &DataMetadata) -> (r: DataMetadata)
    ensures
        r@ == m@,
{
    DataMetadata {
        row_count: m.row_count,
        column_count: m.column_count,
        file_size: m.file_size,
        encoding: m.encoding.clone(),
        delimiter: m.delimiter.clone(),
        has_headers: m.has_headers,
        estimated_memory_usage: m.estimated_memory_usage,
    }
}

/// Copies one typed cell.
fn clone_cell(c: &CellValue) -> (r: CellValue)
    ensures
        r@ == c@,
{
    match c {
        CellValue::Int(i) => CellValue::Int(*i),
        CellValue::Num(t) => CellValue::Num(t.clone()),
        CellValue::Bool(b) => CellValue::Bool(*b),
        CellValue::Str(t) => CellValue::Str(t.clone()),
    }
}

/// Copies one typed row.
fn clone_row(v: &Vec<CellValue>) -> (r: Vec<CellValue>)
    ensures
        crate::cells::cell_views(r@) == crate::cells::cell_views(v@),
        r@.len() == v@.len(),
{
    let mut r: Vec<CellValue> = Vec::new();
    let mut i: usize = 0;
    while i < v.len()
        invariant
            i <= v@.len(),
            r@.len() == i,
            forall|m: int| 0 <= m < i ==> (#[trigger] r@[m])@ == v@[m]@,
        decreases v@.len() - i,
    {
        r.push(clone_cell(&v[i]));
        i += 1;
    }
    proof {
        assert(crate::cells::cell_views(r@) =~= crate::cells::cell_views(v@));
    }
    r
}

/// Copies a filter set.
fn clone_filters(v: &Vec<FilterSpec>) -> (r: Vec<FilterSpec>)
    ensures
        filter_views(r@) == filter_views(v@),
{
    let mut r: Vec<FilterSpec> = Vec::new();
    let mut i: usize = 0;
    while i < v.len()
        invariant
            i <= v@.len(),
            r@.len() == i,
            forall|m: int| 0 <= m < i ==> (#[trigger] r@[m])@ == v@[m]@,
        decreases v@.len() - i,
    {
        let f = &v[i];
        r.push(FilterSpec {
            column: f.column.clone(),
            operator: f.operator.clone(),
            value: clone_cell(&f.value),
            case_sensitive: f.case_sensitive,
        });
        i += 1;
    }
    proof {
        assert(filter_views(r@) =~= filter_views(v@));
    }
    r
}

/// Copies an optional sort specification.
fn clone_sort(v: &Option<SortSpec>) -> (r: Option<SortSpec>)
    ensures
        sort_view(r) == sort_view(*v),
{
    match v {
        Some(sp) => Some(SortSpec {
            column: sp.column.clone(),
            direction: sp.direction.clone(),
            case_sensitive: sp.case_sensitive,
        }),
        None => None,
    }
}

/// Copies a vector of strings.
pub fn clone_strings(v: &Vec<String>) -> (r: Vec<String>)
    ensures
        string_views(r@) == string_views(v@),
        r@.len() == v@.len(),
{
    let mut r: Vec<String> = Vec::new();
    let mut i: usize = 0;
    while i < v.len()
        invariant
            i <= v@.len(),
            r@.len() == i,
            forall|m: int| 0 <= m < i ==> (#[trigger] r@[m])@ == v@[m]@,
        decreases v@.len() - i,
    {
        r.push(v[i].clone());
        i += 1;
    }
    proof {
        assert(string_views(r@) =~= string_views(v@));
    }
    r
}

/// The estimated memory a table of `n` typed rows occupies: a fixed
/// per-row bookkeeping cost, saturating at the address-space bound.
pub open spec fn memory_usage_spec(n: int) -> int {
    if n <= usize::MAX as int / 48 {
        48 * n
    } else {
        usize::MAX as int
    }
}

/// Estimates the memory held by typed row data.
pub fn calculate_memory_usage(data: &Vec<Vec<CellValue>>) -> (r: usize)
    ensures
        r == memory_usage_spec(data@.len() as int),
{
    if data.len() <= usize::MAX / 48 {
        data.len() * 48
    } else {
        usize::MAX
    }
}

} // verus!
