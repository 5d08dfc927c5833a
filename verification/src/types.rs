//! The shared data model: file and validation metadata, column profiles,
//! quality reports, query specifications, result pages, and the typed
//! errors of the crate.

use vstd::prelude::*;
use vstd::string::StringExecFns;
use crate::cells::CellValue;

verus! {

/// A file's content together with what was sniffed about it.
#[derive(Clone, Debug, PartialEq)]
pub struct CSVContent {
    pub content: String,
    pub metadata: FileMetadata,
    pub encoding: String,
    pub estimated_rows: usize,
    pub can_process: bool,
    pub file_size: usize,
    pub delimiter: Option<String>,
}

/// Plain file-system metadata, carried through as text.
#[derive(Clone, Debug, PartialEq)]
pub struct FileMetadata {
    pub size: u64,
    pub created: String,
    pub modified: String,
    pub permissions: String,
    pub extension: String,
    pub mime_type: String,
}

/// What sniffing a file's text yields.
#[derive(Clone, Debug, PartialEq)]
pub struct CsvValidationResult {
    pub is_valid: bool,
    pub delimiter: String,
    pub estimated_rows: u64,
    pub encoding: String,
    pub has_headers: bool,
    pub column_count: usize,
}

/// One file found while scanning a directory.
#[derive(Clone, Debug, PartialEq)]
pub struct CsvFileInfo {
    pub path: String,
    pub name: String,
    pub size: u64,
    pub modified: String,
    pub validation_result: CsvValidationResult,
}

/// The profile of one column: its inferred type and aggregates over the
/// sampled values. The null percentage is held exactly, in hundredths of
/// a percent.
#[derive(Clone, Debug, PartialEq)]
pub struct ColumnAnalysis {
    pub name: String,
    pub data_type: String,
    pub nullable: bool,
    pub unique_count: usize,
    pub null_percentage_hundredths: u64,
    pub sample_values: Vec<String>,
}

/// A file's data-quality report. Scores are held exactly, in hundredths
/// of a percent.
#[derive(Clone, Debug, PartialEq)]
pub struct DataQualityReport {
    pub overall_score_hundredths: u64,
    pub issues: Vec<String>,
    pub recommendations: Vec<String>,
    pub duplicate_count: usize,
    pub completeness_score_hundredths: u64,
}

/// Options for rendering a table back to delimited text.
#[derive(Clone, Debug, PartialEq)]
pub struct ExportOptions {
    pub delimiter: String,
    pub include_headers: bool,
    pub encoding: String,
    pub quote_fields: String,
}

/// The metadata of a loaded table.
#[derive(Clone, Debug, PartialEq)]
pub struct DataMetadata {
    pub row_count: usize,
    pub column_count: usize,
    pub file_size: u64,
    pub encoding: String,
    pub delimiter: String,
    pub has_headers: bool,
    pub estimated_memory_usage: usize,
}

/// One filter: a column, an operator tag, a comparison value and a
/// case-sensitivity flag.
#[derive(Clone, Debug, PartialEq)]
pub struct FilterSpec {
    pub column: String,
    pub operator: String,
    pub value: CellValue,
    pub case_sensitive: bool,
}

/// How to order the filtered rows.
#[derive(Clone, Debug, PartialEq)]
pub struct SortSpec {
    pub column: String,
    pub direction: String,
    pub case_sensitive: bool,
}

/// Which page of the filtered rows to serve; pages are numbered from one.
#[derive(Clone, Debug, PartialEq)]
pub struct PaginationSpec {
    pub page: usize,
    pub page_size: usize,
}

/// A query against one loaded table.
#[derive(Clone, Debug, PartialEq)]
pub struct DataQuery {
    pub file_id: String,
    pub filters: Vec<FilterSpec>,
    pub sort: Option<SortSpec>,
    pub pagination: PaginationSpec,
}

/// One served page: the rows, parallel to the table's headers, and the
/// counts and navigation flags around them.
#[derive(Clone, Debug, PartialEq)]
pub struct DataPage {
    pub data: Vec<Vec<CellValue>>,
    pub total_rows: usize,
    pub filtered_rows: usize,
    pub current_page: usize,
    pub total_pages: usize,
    pub page_size: usize,
    pub has_next: bool,
    pub has_prev: bool,
}

/// What loading a file into the store yields.
#[derive(Clone, Debug, PartialEq)]
pub struct CSVLoadResult {
    pub file_id: String,
    pub success: bool,
    pub metadata: DataMetadata,
    pub headers: Vec<String>,
    pub error_message: Option<String>,
}

/// The mathematical shape of a filter.
pub struct FilterView {
    pub column: Seq<char>,
    pub operator: Seq<char>,
    pub value: crate::cells::CellView,
    pub case_sensitive: bool,
}

impl View for FilterSpec {
    type V = FilterView;

    open spec fn view(&self) -> FilterView {
        FilterView {
            column: self.column@,
            operator: self.operator@,
            value: self.value@,
            case_sensitive: self.case_sensitive,
        }
    }
}

/// The views of a sequence of filters.
pub open spec fn filter_views(fs: Seq<FilterSpec>) -> Seq<FilterView> {
    fs.map(|i: int, f: FilterSpec| f@)
}

/// The mathematical shape of a sort specification.
pub struct SortView {
    pub column: Seq<char>,
    pub direction: Seq<char>,
    pub case_sensitive: bool,
}

impl View for SortSpec {
    type V = SortView;

    open spec fn view(&self) -> SortView {
        SortView {
            column: self.column@,
            direction: self.direction@,
            case_sensitive: self.case_sensitive,
        }
    }
}

/// The view of an optional sort specification.
pub open spec fn sort_view(s: Option<SortSpec>) -> Option<SortView> {
    match s {
        Some(sp) => Some(sp@),
        None => None,
    }
}

/// The mathematical shape of a table's metadata.
pub struct MetaView {
    pub row_count: int,
    pub column_count: int,
    pub file_size: int,
    pub encoding: Seq<char>,
    pub delimiter: Seq<char>,
    pub has_headers: bool,
    pub estimated_memory_usage: int,
}

impl View for DataMetadata {
    type V = MetaView;

    open spec fn view(&self) -> MetaView {
        MetaView {
            row_count: self.row_count as int,
            column_count: self.column_count as int,
            file_size: self.file_size as int,
            encoding: self.encoding@,
            delimiter: self.delimiter@,
            has_headers: self.has_headers,
            estimated_memory_usage: self.estimated_memory_usage as int,
        }
    }
}

/// The errors of the crate.
#[derive(Clone, Debug, PartialEq)]
pub enum CsvError {
    /// The text holds no lines at all.
    EmptyFile,
    /// No loaded table carries the named handle.
    TableNotFound(String),
}

impl CsvError {
    /// The human-readable description of the error.
    pub fn message(&self) -> (r: String)
        ensures
            self is EmptyFile ==> r@ == "File is empty"@,
            self matches CsvError::TableNotFound(id)
                ==> r@ == "CSV file with ID '"@ + id@ + "' not found"@,
    {
        match self {
            CsvError::EmptyFile => "File is empty".to_owned(),
            CsvError::TableNotFound(id) => {
                let mut m = "CSV file with ID '".to_owned();
                m.append(id.as_str());
                m.append("' not found");
                m
            },
        }
    }
}

} // verus!
