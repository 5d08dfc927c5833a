//! The column profiler and the data-quality reporter: per-column
//! aggregates over a file's text, and file-level duplicate and
//! completeness heuristics. Percentages are held exactly, in hundredths
//! of a percent.

use vstd::prelude::*;
use vstd::string::StringExecFns;
use crate::cells::string_views;
use crate::chars::{chars_of, lemma_count_char_le_len, str_eq};
use crate::numbers::{dec_digits, digit_char, u64_to_string};
use crate::sniff::{detect_delim_chars, detect_delimiter_spec, lemma_line_len};
use crate::store::kept_rows_upto;
use crate::tokenize::{fields_of, fields_spec, lines_of, lines_spec, lemma_split_char_len};
use crate::types::{ColumnAnalysis, CsvError, DataQualityReport};

verus! {

/// The headers the profiler works against: the trimmed fields of the
/// first line, whether or not they look like a header row.
pub open spec fn analysis_headers(content: Seq<char>) -> Seq<Seq<char>> {
    fields_spec(lines_spec(content)[0], detect_delimiter_spec(content))
}

/// The rows the profiler aggregates: every line after the first whose
/// field count equals the first line's, fields trimmed.
pub open spec fn analysis_rows(content: Seq<char>) -> Seq<Seq<Seq<char>>> {
    let lines = lines_spec(content);
    kept_rows_upto(
        lines,
        detect_delimiter_spec(content),
        analysis_headers(content).len() as int,
        1,
        lines.len() as int,
    )
}

/// The values one column holds across the kept rows.
pub open spec fn column_of(rows: Seq<Seq<Seq<char>>>, i: int) -> Seq<Seq<char>> {
    rows.map(|k: int, row: Seq<Seq<char>>| row[i])
}

/// How many of the first `k` values are empty.
pub open spec fn count_empty(col: Seq<Seq<char>>, k: int) -> nat
    decreases k,
{
    if k <= 0 {
        0
    } else {
        count_empty(col, k - 1) + if col[k - 1].len() == 0 { 1nat } else { 0nat }
    }
}

/// Whether the value at `i` already occurs earlier in the column.
pub open spec fn appears_before(col: Seq<Seq<char>>, from: int, i: int) -> bool {
    exists|j: int| from <= j < i && col[j] == col[i]
}

/// How many of the values at positions `from` to `k` are first
/// occurrences: the number of distinct values among them.
pub open spec fn distinct_count(col: Seq<Seq<char>>, from: int, k: int) -> nat
    decreases k - from,
{
    if k <= from {
        0
    } else {
        distinct_count(col, from, k - 1)
            + if appears_before(col, from, k - 1) { 0nat } else { 1nat }
    }
}

/// The null percentage of a column, in hundredths of a percent, zero
/// when no rows exist.
pub open spec fn null_percentage_spec(nulls: int, total: int) -> int {
    if total > 0 {
        nulls * 10000 / total
    } else {
        0
    }
}

/// The first values of a column, up to five, kept as samples.
pub open spec fn samples_spec(col: Seq<Seq<char>>) -> Seq<Seq<char>> {
    if col.len() <= 5 {
        col
    } else {
        col.subrange(0, 5)
    }
}

fn column_strings(rows: &Vec<Vec<String>>, i: usize) -> (r: Vec<String>)
    requires
        forall|k: int| 0 <= k < rows@.len() ==> i < (#[trigger] rows@[k])@.len(),
    ensures
        r@.len() == rows@.len(),
        forall|k: int| 0 <= k < r@.len() ==> (#[trigger] r@[k])@ == rows@[k]@[i as int]@,
{
    let mut r: Vec<String> = Vec::new();
    let mut k: usize = 0;
    while k < rows.len()
        invariant
            k <= rows@.len(),
            forall|m: int| 0 <= m < rows@.len() ==> i < (#[trigger] rows@[m])@.len(),
            r@.len() == k,
            forall|m: int| 0 <= m < k ==> (#[trigger] r@[m])@ == rows@[m]@[i as int]@,
        decreases rows@.len() - k,
    {
        r.push(rows[k][i].clone());
        k += 1;
    }
    r
}

fn count_empty_exec(col: &Vec<String>) -> (r: usize)
    ensures
        r == count_empty(string_views(col@), col@.len() as int),
        r <= col@.len(),
{
    let ghost cv = string_views(col@);
    let mut r: usize = 0;
    let mut k: usize = 0;
    while k < col.len()
        invariant
            k <= col@.len(),
            cv == string_views(col@),
            r == count_empty(cv, k as int),
            r <= k,
        decreases col@.len() - k,
    {
        if col[k].as_str().is_empty() {
            r += 1;
        }
        k += 1;
    }
    r
}

fn distinct_count_exec(col: &Vec<String>) -> (r: usize)
    ensures
        r == distinct_count(string_views(col@), 0, col@.len() as int),
        r <= col@.len(),
{
    let ghost cv = string_views(col@);
    let mut r: usize = 0;
    let mut k: usize = 0;
    while k < col.len()
        invariant
            k <= col@.len(),
            cv == string_views(col@),
            r == distinct_count(cv, 0, k as int),
            r <= k,
        decreases col@.len() - k,
    {
        let mut j: usize = 0;
        let mut seen = false;
        while j < k
            invariant
                j <= k,
                k < col@.len(),
                cv == string_views(col@),
                seen ==> appears_before(cv, 0, k as int),
                !seen ==> forall|m: int| 0 <= m < j ==> cv[m] != cv[k as int],
            decreases k - j,
        {
            if str_eq(col[j].as_str(), col[k].as_str()) {
                seen = true;
                proof {
                    assert(cv[j as int] == cv[k as int]);
                }
            }
            j += 1;
        }
        if !seen {
            r += 1;
        }
        k += 1;
    }
    r
}

fn take_samples(col: &Vec<String>) -> (r: Vec<String>)
    ensures
        string_views(r@) == samples_spec(string_views(col@)),
{
    let n = if col.len() <= 5 { col.len() } else { 5 };
    let mut r: Vec<String> = Vec::new();
    let mut k: usize = 0;
    while k < n
        invariant
            k <= n,
            n <= col@.len(),
            r@.len() == k,
            forall|m: int| 0 <= m < k ==> (#[trigger] r@[m])@ == col@[m]@,
        decreases n - k,
    {
        r.push(col[k].clone());
        k += 1;
    }
    proof {
        assert(string_views(r@) =~= samples_spec(string_views(col@)));
    }
    r
}

/// Profiles every column of a file's text: the inferred type, a
/// nullable flag, the distinct-value count, the exact null percentage
/// in hundredths of a percent, and up to five sample values. Rows whose
/// field count differs from the first line's are excluded. Fails
/// exactly when the text holds no lines at all.
pub fn analyze_csv_columns(content: &str) -> (r: Result<Vec<ColumnAnalysis>, CsvError>)
    ensures
        (r is Err) <==> lines_spec(content@).len() == 0,
        r is Err ==> r.unwrap_err() == CsvError::EmptyFile,
        r matches Ok(v) ==> {
            let headers = analysis_headers(content@);
            let rows = analysis_rows(content@);
            &&& v@.len() == headers.len()
            &&& forall|i: int| 0 <= i < v@.len() ==> {
                let col = column_of(rows, i);
                let nulls = count_empty(col, col.len() as int);
                &&& (#[trigger] v@[i]).name@ == headers[i]
                &&& v@[i].data_type@ == crate::cells::infer_type_spec(col)
                &&& v@[i].nullable == (nulls > 0)
                &&& v@[i].unique_count == distinct_count(col, 0, col.len() as int)
                &&& v@[i].null_percentage_hundredths == null_percentage_spec(
                    nulls as int,
                    col.len() as int,
                )
                &&& string_views(v@[i].sample_values@) == samples_spec(col)
            }
        },
{
    let cs = chars_of(content);
    let d = detect_delim_chars(&cs);
    let lines = lines_of(&cs);
    let ghost linesv = lines_spec(content@);
    proof {
        assert(lines@.len() == linesv.len());
        assert(forall|i: int| 0 <= i < lines@.len() ==> (#[trigger] lines@[i])@ == linesv[i]);
    }
    if lines.len() == 0 {
        return Err(CsvError::EmptyFile);
    }
    let header_fields = fields_of(&lines[0], d);
    let ncols = header_fields.len();
    proof {
        assert(lines@[0]@ == linesv[0]);
        assert(ncols == analysis_headers(content@).len());
    }
    let nlines = lines.len();
    let mut rows: Vec<Vec<String>> = Vec::new();
    let mut k: usize = 1;
    while k < nlines
        invariant
            1 <= k <= nlines,
            nlines == lines@.len(),
            nlines == linesv.len(),
            linesv == lines_spec(content@),
            d == detect_delimiter_spec(content@),
            ncols == analysis_headers(content@).len(),
            forall|i: int| 0 <= i < lines@.len() ==> (#[trigger] lines@[i])@ == linesv[i],
            rows@.map(|i: int, r: Vec<String>| string_views(r@))
                == kept_rows_upto(linesv, detect_delimiter_spec(content@), ncols as int, 1, k as int),
            forall|i: int| 0 <= i < rows@.len() ==> (#[trigger] rows@[i])@.len() == ncols,
        decreases nlines - k,
    {
        proof {
            assert(lines@[k as int]@ == linesv[k as int]);
        }
        let fields = fields_of(&lines[k], d);
        if fields.len() == ncols {
            let row = crate::store::strings_of_fields(&fields);
            proof {
                assert(string_views(row@)
                    =~= fields_spec(linesv[k as int], detect_delimiter_spec(content@)));
            }
            rows.push(row);
        }
        proof {
            assert(rows@.map(|i: int, r: Vec<String>| string_views(r@))
                =~= kept_rows_upto(
                linesv,
                detect_delimiter_spec(content@),
                ncols as int,
                1,
                k as int + 1,
            ));
        }
        k += 1;
    }
    let ghost rowsv = analysis_rows(content@);
    proof {
        assert(rows@.map(|i: int, r: Vec<String>| string_views(r@)) == rowsv);
    }
    let total_rows = rows.len();
    let mut analyses: Vec<ColumnAnalysis> = Vec::new();
    let mut i: usize = 0;
    while i < ncols
        invariant
            i <= ncols,
            ncols == analysis_headers(content@).len(),
            ncols == header_fields@.len(),
            forall|m: int|
                0 <= m < ncols ==> (#[trigger] header_fields@[m])@
                    == analysis_headers(content@)[m],
            total_rows == rows@.len(),
            rowsv == analysis_rows(content@),
            rows@.map(|m: int, r: Vec<String>| string_views(r@)) == rowsv,
            forall|m: int| 0 <= m < rows@.len() ==> (#[trigger] rows@[m])@.len() == ncols,
            analyses@.len() == i,
            forall|m: int| 0 <= m < i ==> {
                let col = column_of(rowsv, m);
                let nulls = count_empty(col, col.len() as int);
                &&& (#[trigger] analyses@[m]).name@ == analysis_headers(content@)[m]
                &&& analyses@[m].data_type@ == crate::cells::infer_type_spec(col)
                &&& analyses@[m].nullable == (nulls > 0)
                &&& analyses@[m].unique_count == distinct_count(col, 0, col.len() as int)
                &&& analyses@[m].null_percentage_hundredths == null_percentage_spec(
                    nulls as int,
                    col.len() as int,
                )
                &&& string_views(analyses@[m].sample_values@) == samples_spec(col)
            },
        decreases ncols - i,
    {
        let col = column_strings(&rows, i);
        let ghost colv = column_of(rowsv, i as int);
        proof {
            assert(string_views(col@) =~= colv);
        }
        let nulls = count_empty_exec(&col);
        let uniq = distinct_count_exec(&col);
        let data_type = crate::cells::infer_data_type(col.as_slice());
        proof {
            assert(col@.map(|m: int, s: String| s@) == string_views(col@));
        }
        let pct: u64 = if total_rows > 0 {
            ((nulls as u128) * 10000 / (total_rows as u128)) as u64
        } else {
            0
        };
        proof {
            if total_rows > 0 {
                assert(((nulls as int) * 10000) / (total_rows as int) <= 10000) by (nonlinear_arith)
                    requires
                        0 <= nulls as int <= total_rows as int,
                        total_rows as int > 0,
                ;
            }
        }
        let samples = take_samples(&col);
        analyses.push(ColumnAnalysis {
            name: header_fields_string(&header_fields, i),
            data_type,
            nullable: nulls > 0,
            unique_count: uniq,
            null_percentage_hundredths: pct,
            sample_values: samples,
        });
        i += 1;
    }
    Ok(analyses)
}

fn header_fields_string(fields: &Vec<Vec<char>>, i: usize) -> (r: String)
    requires
        i < fields@.len(),
    ensures
        r@ == fields@[i as int]@,
{
    crate::chars::string_from_chars(&fields[i])
}

/// How many of the lines at positions `1` to `k` repeat an earlier
/// non-header line, text for text.
pub open spec fn duplicate_count_spec(lines: Seq<Seq<char>>, k: int) -> nat
    decreases k,
{
    if k <= 1 {
        0
    } else {
        duplicate_count_spec(lines, k - 1)
            + if appears_before(lines, 1, k - 1) { 1nat } else { 0nat }
    }
}

/// How many fields of a line are empty after trimming.
pub open spec fn empty_fields_in_line(line: Seq<char>, d: char) -> nat {
    count_empty(fields_spec(line, d), fields_spec(line, d).len() as int)
}

/// The empty fields across the lines at positions `1` to `k`.
pub open spec fn empty_cells_spec(lines: Seq<Seq<char>>, d: char, k: int) -> nat
    decreases k,
{
    if k <= 1 {
        0
    } else {
        empty_cells_spec(lines, d, k - 1) + empty_fields_in_line(lines[k - 1], d)
    }
}

/// The completeness score in hundredths of a percent: the filled share
/// of the expected cells, full marks when no cells are expected, and
/// floored at zero when empty cells outnumber the expected ones.
pub open spec fn completeness_spec(total_cells: int, empty_cells: int) -> int {
    if total_cells <= 0 {
        10000
    } else if empty_cells >= total_cells {
        0
    } else {
        (total_cells - empty_cells) * 10000 / total_cells
    }
}

/// The overall quality score in hundredths of a percent: the mean of
/// the completeness score and a duplicate score of full marks without
/// duplicates and half marks with them.
pub open spec fn overall_score_spec(completeness: int, duplicates: int) -> int {
    (completeness + if duplicates == 0 { 10000int } else { 5000int }) / 2
}

/// The duplicate-rows issue message.
pub open spec fn duplicate_issue_msg(dup: int) -> Seq<char> {
    "Found "@ + dec_digits(dup as nat) + " duplicate rows"@
}

/// The low-completeness issue message, the score printed with one
/// decimal place, truncated.
pub open spec fn completeness_issue_msg(comp: int) -> Seq<char> {
    "Data completeness is only "@ + dec_digits((comp / 100) as nat) + "."@
        + seq![digit_char(((comp / 10) % 10) as nat)] + "%"@
}

/// The issues a quality report raises, in order: duplicates found, a
/// completeness score under eighty percent, a single column.
pub open spec fn quality_issues_spec(dup: int, comp: int, ncols: int) -> Seq<Seq<char>> {
    (if dup > 0 {
        seq![duplicate_issue_msg(dup)]
    } else {
        Seq::empty()
    }) + (if comp < 8000 {
        seq!["Data completeness is only "@ + dec_digits((comp / 100) as nat) + "."@
            + seq![digit_char(((comp / 10) % 10) as nat)] + "%"@]
    } else {
        Seq::empty()
    }) + (if ncols < 2 {
        seq!["File appears to have only one column"@]
    } else {
        Seq::empty()
    })
}

/// The recommendations beside the issues, in the same order.
pub open spec fn quality_recommendations_spec(dup: int, comp: int, ncols: int) -> Seq<Seq<char>> {
    (if dup > 0 {
        seq!["Consider removing duplicate rows to improve data quality"@]
    } else {
        Seq::empty()
    }) + (if comp < 8000 {
        seq!["Review and fill missing values to improve completeness"@]
    } else {
        Seq::empty()
    }) + (if ncols < 2 {
        seq!["Verify that the correct delimiter is being used"@]
    } else {
        Seq::empty()
    })
}

pub proof fn lemma_lines_count(s: Seq<char>)
    ensures
        lines_spec(s).len() <= s.len() + 1,
{
    lemma_split_char_len(s, '\n');
    lemma_count_char_le_len(s, '\n');
}

/// Reports a file's data quality: an exact duplicate-line count, a
/// completeness score over the expected cells, an overall score, and
/// the issues and recommendations those findings raise. Fails exactly
/// when the text holds no lines at all.
pub fn validate_data_quality(content: &str) -> (r: Result<DataQualityReport, CsvError>)
    requires
        content@.len() < 0x8000_0000,
    ensures
        (r is Err) <==> lines_spec(content@).len() == 0,
        r is Err ==> r.unwrap_err() == CsvError::EmptyFile,
        r matches Ok(q) ==> {
            let lines = lines_spec(content@);
            let d = detect_delimiter_spec(content@);
            let ncols = crate::tokenize::field_count(lines[0], d) as int;
            let dup = duplicate_count_spec(lines, lines.len() as int) as int;
            let tc = (lines.len() - 1) * ncols;
            let ec = empty_cells_spec(lines, d, lines.len() as int) as int;
            let comp = completeness_spec(tc, ec);
            &&& q.duplicate_count == dup
            &&& q.completeness_score_hundredths == comp
            &&& q.overall_score_hundredths == overall_score_spec(comp, dup)
            &&& string_views(q.issues@) == quality_issues_spec(dup, comp, ncols)
            &&& string_views(q.recommendations@) == quality_recommendations_spec(dup, comp, ncols)
        },
{
    let cs = chars_of(content);
    let d = detect_delim_chars(&cs);
    let lines = lines_of(&cs);
    let ghost linesv = lines_spec(content@);
    proof {
        assert(lines@.len() == linesv.len());
        assert(forall|i: int| 0 <= i < lines@.len() ==> (#[trigger] lines@[i])@ == linesv[i]);
        lemma_lines_count(content@);
        lemma_line_len(content@);
    }
    if lines.len() == 0 {
        return Err(CsvError::EmptyFile);
    }
    let n = lines.len();
    let mut dup: usize = 0;
    let mut k: usize = 1;
    while k < n
        invariant
            1 <= k <= n,
            n == lines@.len(),
            n == linesv.len(),
            forall|i: int| 0 <= i < lines@.len() ==> (#[trigger] lines@[i])@ == linesv[i],
            dup == duplicate_count_spec(linesv, k as int),
            dup <= k,
        decreases n - k,
    {
        let mut j: usize = 1;
        let mut seen = false;
        while j < k
            invariant
                1 <= j <= k,
                k < n,
                n == lines@.len(),
                n == linesv.len(),
                forall|i: int| 0 <= i < lines@.len() ==> (#[trigger] lines@[i])@ == linesv[i],
                seen ==> appears_before(linesv, 1, k as int),
                !seen ==> forall|m: int| 1 <= m < j ==> linesv[m] != linesv[k as int],
            decreases k - j,
        {
            if crate::chars::chars_eq(&lines[j], &lines[k]) {
                seen = true;
                proof {
                    assert(linesv[j as int] == linesv[k as int]);
                }
            }
            j += 1;
        }
        if seen {
            dup += 1;
        }
        k += 1;
    }
    let ncols_m1 = crate::chars::count_char_occurrences(&lines[0], d);
    proof {
        assert(lines@[0]@ == linesv[0]);
        lemma_count_char_le_len(linesv[0], d);
        assert(linesv[0].len() <= content@.len());
    }
    let ncols = ncols_m1 + 1;
    let mut empty_cells: u128 = 0;
    let mut k2: usize = 1;
    while k2 < n
        invariant
            1 <= k2 <= n,
            n == lines@.len(),
            n == linesv.len(),
            linesv == lines_spec(content@),
            d == detect_delimiter_spec(content@),
            content@.len() < 0x8000_0000,
            n <= content@.len() + 1,
            forall|i: int| 0 <= i < lines@.len() ==> (#[trigger] lines@[i])@ == linesv[i],
            forall|i: int| 0 <= i < linesv.len() ==> (#[trigger] linesv[i]).len() <= content@.len(),
            empty_cells == empty_cells_spec(linesv, d, k2 as int),
            empty_cells <= (k2 as int - 1) * 0x8000_0001,
        decreases n - k2,
    {
        proof {
            assert(lines@[k2 as int]@ == linesv[k2 as int]);
        }
        let fields = fields_of(&lines[k2], d);
        let mut cnt: usize = 0;
        let mut m: usize = 0;
        while m < fields.len()
            invariant
                m <= fields@.len(),
                fields@.len() == fields_spec(linesv[k2 as int], d).len(),
                1 <= k2 < n,
                n == linesv.len(),
                forall|i: int|
                    0 <= i < fields@.len() ==> (#[trigger] fields@[i])@
                        == fields_spec(linesv[k2 as int], d)[i],
                cnt == count_empty(fields_spec(linesv[k2 as int], d), m as int),
                cnt <= m,
            decreases fields@.len() - m,
        {
            if fields[m].len() == 0 {
                cnt += 1;
            }
            m += 1;
        }
        proof {
            crate::tokenize::lemma_split_char_len(linesv[k2 as int], d);
            lemma_count_char_le_len(linesv[k2 as int], d);
            assert(cnt <= linesv[k2 as int].len() + 1);
            assert(cnt as int <= 0x8000_0001);
            assert((k2 as int - 1) * 0x8000_0001 + 0x8000_0001 == (k2 as int) * 0x8000_0001);
            assert((k2 as int) * 0x8000_0001 <= 0x8000_0000 * 0x8000_0001int) by (nonlinear_arith)
                requires
                    k2 as int <= 0x8000_0000,
            ;
        }
        empty_cells = empty_cells + cnt as u128;
        k2 += 1;
    }
    proof {
        assert((n as int - 1) * 0x8000_0001 <= 0x8000_0000 * 0x8000_0001int) by (nonlinear_arith)
            requires
                n as int - 1 <= 0x8000_0000,
        ;
    }
    proof {
        assert((n as int - 1) * (ncols as int) <= 0x8000_0000 * 0x8000_0001int)
            by (nonlinear_arith)
            requires
                0 <= n as int - 1 <= 0x8000_0000,
                0 <= ncols as int <= 0x8000_0001,
        ;
    }
    let total_cells: u128 = (n as u128 - 1) * (ncols as u128);
    let completeness: u64 = if total_cells == 0 {
        10000
    } else if empty_cells >= total_cells {
        0
    } else {
        proof {
            assert(((total_cells - empty_cells) as int) * 10000 / (total_cells as int) <= 10000)
                by (nonlinear_arith)
                requires
                    0 < total_cells as int,
                    0 <= (total_cells - empty_cells) as int <= total_cells as int,
            ;
        }
        (((total_cells - empty_cells) * 10000) / total_cells) as u64
    };
    let dscore: u64 = if dup == 0 {
        10000
    } else {
        5000
    };
    let overall: u64 = (completeness + dscore) / 2;
    let mut issues: Vec<String> = Vec::new();
    let mut recommendations: Vec<String> = Vec::new();
    if dup > 0 {
        let mut msg = "Found ".to_owned();
        let digits = u64_to_string(dup as u64);
        msg.append(digits.as_str());
        msg.append(" duplicate rows");
        issues.push(msg);
        recommendations.push("Consider removing duplicate rows to improve data quality".to_owned());
    }
    if completeness < 8000 {
        let mut msg = "Data completeness is only ".to_owned();
        let whole = u64_to_string(completeness / 100);
        msg.append(whole.as_str());
        msg.append(".");
        let tenth = crate::numbers::u64_to_string((completeness / 10) % 10);
        msg.append(tenth.as_str());
        msg.append("%");
        proof {
            assert(dec_digits((((completeness / 10) % 10) as nat))
                =~= seq![digit_char(((completeness as int / 10) % 10) as nat)]);
        }
        issues.push(msg);
        recommendations.push("Review and fill missing values to improve completeness".to_owned());
    }
    if ncols < 2 {
        issues.push("File appears to have only one column".to_owned());
        recommendations.push("Verify that the correct delimiter is being used".to_owned());
    }
    let ghost dupi = duplicate_count_spec(linesv, linesv.len() as int) as int;
    let ghost compi = completeness_spec(
        (linesv.len() - 1) * (crate::tokenize::field_count(linesv[0], d) as int),
        empty_cells_spec(linesv, d, linesv.len() as int) as int,
    );
    let ghost ncolsi = crate::tokenize::field_count(linesv[0], d) as int;
    proof {
        assert(completeness == compi);
        assert(string_views(issues@) =~= quality_issues_spec(dupi, compi, ncolsi));
        assert(string_views(recommendations@)
            =~= quality_recommendations_spec(dupi, compi, ncolsi));
    }
    Ok(DataQualityReport {
        overall_score_hundredths: overall,
        issues,
        recommendations,
        duplicate_count: dup,
        completeness_score_hundredths: completeness,
    })
}

} // verus!
