//! Format sniffing: guessing the field delimiter from a sample of the
//! text, deciding whether the first row looks like a header, guessing
//! the character encoding of raw bytes, and validating a file's text.

use vstd::prelude::*;
use crate::candidate_delimiters;
use crate::chars::{
    alphabetic, char_is_alphabetic, chars_of, count_char, count_char_occurrences, str_eq,
    string_from_chars,
};
use crate::tokenize::{field_count, field_count_of, fields_of, fields_spec, lines_of, lines_spec,
    lemma_split_char_len, split_char, strip_cr};
use crate::types::{CsvError, CsvValidationResult};

verus! {

/// The text a delimiter is sniffed from: the first ten thousand
/// characters.
pub open spec fn sample_of(content: Seq<char>) -> Seq<char> {
    if content.len() <= 10000 {
        content
    } else {
        content.subrange(0, 10000)
    }
}

/// The lines the sniffer scores against: the first ten lines of the
/// sample.
pub open spec fn sniff_lines(content: Seq<char>) -> Seq<Seq<char>> {
    let ls = lines_spec(sample_of(content));
    if ls.len() <= 10 {
        ls
    } else {
        ls.subrange(0, 10)
    }
}

/// How many of the first `k` lines have as many fields under `d` as the
/// first line has.
pub open spec fn delim_score(lines: Seq<Seq<char>>, d: char, k: int) -> nat
    decreases k,
{
    if k <= 0 {
        0
    } else {
        delim_score(lines, d, k - 1)
            + if field_count(lines[k - 1], d) == field_count(lines[0], d) { 1nat } else { 0nat }
    }
}

/// The fold of the sniffer over the candidate delimiters, in order: a
/// candidate replaces the best so far only when at least two sample
/// lines exist and its score strictly exceeds the best score so far.
pub open spec fn pick_delim(lines: Seq<Seq<char>>, cands: Seq<char>, best: char, bestscore: nat)
    -> char
    decreases cands.len(),
{
    if cands.len() == 0 {
        best
    } else {
        let sc = delim_score(lines, cands[0], lines.len() as int);
        if lines.len() >= 2 && sc > bestscore {
            pick_delim(lines, cands.drop_first(), cands[0], sc)
        } else {
            pick_delim(lines, cands.drop_first(), best, bestscore)
        }
    }
}

/// The delimiter sniffed from a text: the candidate with the highest
/// score, ties and too-short samples falling back to the earliest
/// candidate, the comma.
pub open spec fn detect_delimiter_spec(content: Seq<char>) -> char {
    pick_delim(sniff_lines(content), candidate_delimiters(), ',', 0)
}

proof fn lemma_pick_from(lines: Seq<Seq<char>>, cands: Seq<char>, best: char, bestscore: nat)
    requires
        candidate_delimiters().contains(best),
        forall|i: int| 0 <= i < cands.len() ==> candidate_delimiters().contains(#[trigger] cands[i]),
    ensures
        candidate_delimiters().contains(pick_delim(lines, cands, best, bestscore)),
    decreases cands.len(),
{
    if cands.len() > 0 {
        let sc = delim_score(lines, cands[0], lines.len() as int);
        assert(forall|i: int|
            0 <= i < cands.drop_first().len() ==> candidate_delimiters().contains(
                #[trigger] cands.drop_first()[i],
            ));
        if lines.len() >= 2 && sc > bestscore {
            lemma_pick_from(lines, cands.drop_first(), cands[0], sc);
        } else {
            lemma_pick_from(lines, cands.drop_first(), best, bestscore);
        }
    }
}

/// Sniffing never invents a delimiter: the result is always one of the
/// fixed candidates.
pub proof fn lemma_detected_delimiter_is_a_candidate(content: Seq<char>)
    ensures
        candidate_delimiters().contains(detect_delimiter_spec(content)),
{
    assert(candidate_delimiters().contains(',')) by {
        assert(candidate_delimiters()[0] == ',');
    }
    lemma_pick_from(sniff_lines(content), candidate_delimiters(), ',', 0);
}

proof fn lemma_pick_short(lines: Seq<Seq<char>>, cands: Seq<char>, best: char, bestscore: nat)
    requires
        lines.len() < 2,
    ensures
        pick_delim(lines, cands, best, bestscore) == best,
    decreases cands.len(),
{
    if cands.len() > 0 {
        lemma_pick_short(lines, cands.drop_first(), best, bestscore);
    }
}

/// Sniffs the delimiter from a character vector.
pub fn detect_delim_chars(cs: &Vec<char>) -> (r: char)
    ensures
        r == detect_delimiter_spec(cs@),
{
    let m: usize = if cs.len() <= 10000 { cs.len() } else { 10000 };
    let mut sample: Vec<char> = Vec::new();
    let mut t: usize = 0;
    while t < m
        invariant
            t <= m,
            m <= cs@.len(),
            sample@ =~= cs@.subrange(0, t as int),
        decreases m - t,
    {
        sample.push(cs[t]);
        t += 1;
    }
    proof {
        assert(sample@ =~= sample_of(cs@));
    }
    let mut lines = lines_of(&sample);
    if lines.len() > 10 {
        lines.truncate(10);
    }
    let ghost linesv = sniff_lines(cs@);
    proof {
        assert(lines@.len() == linesv.len());
        assert(forall|i: int| 0 <= i < lines@.len() ==> (#[trigger] lines@[i])@ == linesv[i]);
    }
    let n = lines.len();
    if n < 2 {
        proof {
            lemma_pick_short(linesv, candidate_delimiters(), ',', 0);
        }
        return ',';
    }
    let cands: Vec<char> = vec![',', ';', '\t', '|'];
    proof {
        assert(cands@ =~= candidate_delimiters());
    }
    let mut best: char = ',';
    let mut bestsc: usize = 0;
    let mut i: usize = 0;
    proof {
        assert(candidate_delimiters().skip(0) =~= candidate_delimiters());
    }
    while i < cands.len()
        invariant
            i <= cands@.len(),
            cands@ == candidate_delimiters(),
            n == lines@.len(),
            n == linesv.len(),
            2 <= n,
            forall|k: int| 0 <= k < n ==> (#[trigger] lines@[k])@ == linesv[k],
            pick_delim(linesv, candidate_delimiters().skip(i as int), best, bestsc as nat)
                == detect_delimiter_spec(cs@),
        decreases cands@.len() - i,
    {
        let d = cands[i];
        let fc0 = count_char_occurrences(&lines[0], d);
        let mut sc: usize = 0;
        let mut j: usize = 0;
        while j < n
            invariant
                j <= n,
                n == lines@.len(),
                n == linesv.len(),
                forall|k: int| 0 <= k < n ==> (#[trigger] lines@[k])@ == linesv[k],
                fc0 == count_char(linesv[0], d),
                sc == delim_score(linesv, d, j as int),
                sc <= j,
            decreases n - j,
        {
            let c = count_char_occurrences(&lines[j], d);
            if c == fc0 {
                sc += 1;
            }
            j += 1;
        }
        proof {
            assert(candidate_delimiters().skip(i as int)[0] == candidate_delimiters()[i as int]);
            assert(candidate_delimiters().skip(i as int).drop_first()
                =~= candidate_delimiters().skip(i as int + 1));
        }
        if sc > bestsc {
            best = d;
            bestsc = sc;
        }
        i += 1;
    }
    proof {
        assert(candidate_delimiters().skip(cands@.len() as int) =~= Seq::<char>::empty());
    }
    best
}

/// Sniffs the delimiter of a text. Never fails: a text too short to
/// score falls back to the comma.
pub fn detect_delimiter(content: &str) -> (r: Result<String, String>)
    ensures
        r is Ok,
        r.unwrap()@ =~= seq![detect_delimiter_spec(content@)],
        candidate_delimiters().contains(detect_delimiter_spec(content@)),
{
    proof {
        lemma_detected_delimiter_is_a_candidate(content@);
    }
    let cs = chars_of(content);
    let d = detect_delim_chars(&cs);
    let mut v: Vec<char> = Vec::new();
    v.push(d);
    Ok(string_from_chars(&v))
}

/// Whether a trimmed field looks like a header cell: non-empty, shorter
/// than fifty characters, holding at least one alphabetic character.
pub open spec fn header_field_ok(f: Seq<char>) -> bool {
    f.len() > 0 && f.len() < 50 && exists|i: int| 0 <= i < f.len() && alphabetic(#[trigger] f[i])
}

/// How many of the first `k` fields look like header cells.
pub open spec fn count_header_like(fields: Seq<Seq<char>>, k: int) -> nat
    decreases k,
{
    if k <= 0 {
        0
    } else {
        count_header_like(fields, k - 1) + if header_field_ok(fields[k - 1]) { 1nat } else { 0nat }
    }
}

/// Whether a row is likely a header: at least two fields, and at least
/// half of them, rounded up, look like header cells.
pub open spec fn is_header_row_spec(row: Seq<char>, d: char) -> bool {
    let fields = fields_spec(row, d);
    fields.len() >= 2
        && count_header_like(fields, fields.len() as int) >= (fields.len() + 1) / 2
}

fn header_field_ok_exec(f: &Vec<char>) -> (r: bool)
    ensures
        r == header_field_ok(f@),
{
    if f.len() == 0 || f.len() >= 50 {
        return false;
    }
    let mut i: usize = 0;
    while i < f.len()
        invariant
            0 < f@.len() < 50,
            i <= f@.len(),
            forall|k: int| 0 <= k < i ==> !alphabetic(#[trigger] f@[k]),
        decreases f@.len() - i,
    {
        if char_is_alphabetic(f[i]) {
            proof {
                assert(0 <= i < f@.len() && alphabetic(f@[i as int]));
            }
            return true;
        }
        i += 1;
    }
    false
}

/// Decides `is_header_row_spec` on a character vector.
pub fn is_header_row_chars(row: &Vec<char>, d: char) -> (r: bool)
    ensures
        r == is_header_row_spec(row@, d),
{
    let fields = fields_of(row, d);
    let n = fields.len();
    if n < 2 {
        return false;
    }
    let mut cnt: usize = 0;
    let mut i: usize = 0;
    while i < n
        invariant
            i <= n,
            n == fields@.len(),
            n == fields_spec(row@, d).len(),
            forall|k: int| 0 <= k < n ==> (#[trigger] fields@[k])@ == fields_spec(row@, d)[k],
            cnt == count_header_like(fields_spec(row@, d), i as int),
            cnt <= i,
        decreases n - i,
    {
        if header_field_ok_exec(&fields[i]) {
            cnt += 1;
        }
        i += 1;
    }
    let threshold = n / 2 + n % 2;
    proof {
        assert(threshold == (fields_spec(row@, d).len() + 1) / 2);
    }
    cnt >= threshold
}

/// Whether a row is likely a header row under the given one-character
/// delimiter.
pub fn is_likely_header_row(row: &str, delimiter: &str) -> (r: bool)
    requires
        delimiter@.len() == 1,
    ensures
        r == is_header_row_spec(row@, delimiter@[0]),
{
    let cs = chars_of(row);
    let ds = chars_of(delimiter);
    is_header_row_chars(&cs, ds[0])
}

/// The name chardetng guesses for the encoding of a byte sequence; a
/// function of the bytes alone.
pub uninterp spec fn encoding_guess_of(bytes: Seq<u8>) -> Seq<char>;

/// Relies on `chardetng::EncodingDetector` (`new`, `feed`, `guess` with
/// no top-level-domain hint and UTF-8 allowed) and `Encoding::name`: the
/// guessed encoding's name, a deterministic function of the bytes alone.
#[verifier::external_body]
fn chardet_guess(bytes: &[u8]) -> (r: String)
    ensures
        r@ == encoding_guess_of(bytes@),
{
    let mut det = chardetng::EncodingDetector::new();
    det.feed(bytes, true);
    det.guess(None, true).name().to_string()
}

/// The encodings the system special-cases; any other guess falls back
/// to UTF-8.
pub open spec fn normalize_encoding_spec(g: Seq<char>) -> Seq<char> {
    if g == "UTF-8"@ {
        "UTF-8"@
    } else if g == "UTF-16LE"@ {
        "UTF-16LE"@
    } else if g == "UTF-16BE"@ {
        "UTF-16BE"@
    } else if g == "windows-1252"@ {
        "Windows-1252"@
    } else if g == "ISO-8859-1"@ {
        "ISO-8859-1"@
    } else {
        "UTF-8"@
    }
}

/// Guesses the character encoding of raw bytes, defaulting to UTF-8
/// for anything the system does not special-case.
pub fn detect_encoding(bytes: &[u8]) -> (r: String)
    ensures
        r@ == normalize_encoding_spec(encoding_guess_of(bytes@)),
{
    let g = chardet_guess(bytes);
    if str_eq(g.as_str(), "UTF-8") {
        "UTF-8".to_owned()
    } else if str_eq(g.as_str(), "UTF-16LE") {
        "UTF-16LE".to_owned()
    } else if str_eq(g.as_str(), "UTF-16BE") {
        "UTF-16BE".to_owned()
    } else if str_eq(g.as_str(), "windows-1252") {
        "Windows-1252".to_owned()
    } else if str_eq(g.as_str(), "ISO-8859-1") {
        "ISO-8859-1".to_owned()
    } else {
        "UTF-8".to_owned()
    }
}

pub proof fn lemma_split_char_elem_len(s: Seq<char>, d: char)
    ensures
        forall|i: int|
            0 <= i < split_char(s, d).len() ==> (#[trigger] split_char(s, d)[i]).len() <= s.len(),
    decreases s.len(),
{
    if s.len() > 0 {
        lemma_split_char_elem_len(s.drop_last(), d);
        lemma_split_char_len(s.drop_last(), d);
        let front = split_char(s.drop_last(), d);
        assert forall|i: int|
            0 <= i < split_char(s, d).len() implies (#[trigger] split_char(s, d)[i]).len()
            <= s.len() by {
            if s[s.len() - 1] == d {
                if i < front.len() {
                    assert(split_char(s, d)[i] == front[i]);
                }
            } else {
                if i < front.len() - 1 {
                    assert(split_char(s, d)[i] == front[i]);
                } else {
                    assert(split_char(s, d)[i] == front[front.len() - 1].push(s[s.len() - 1]));
                }
            }
        }
    }
}

pub proof fn lemma_line_len(s: Seq<char>)
    ensures
        forall|i: int|
            0 <= i < lines_spec(s).len() ==> (#[trigger] lines_spec(s)[i]).len() <= s.len(),
{
    lemma_split_char_elem_len(s, '\n');
    lemma_split_char_len(s, '\n');
    let segs = split_char(s, '\n');
    let kept = if segs.last().len() == 0 {
        segs.drop_last()
    } else {
        segs
    };
    assert forall|i: int|
        0 <= i < lines_spec(s).len() implies (#[trigger] lines_spec(s)[i]).len() <= s.len() by {
        assert(lines_spec(s)[i] == strip_cr(kept[i]));
        assert(kept[i] == segs[i]);
    }
}

/// The estimated row count of a validated text: the line count, less
/// one when a header row was detected and more than one line exists.
pub open spec fn estimated_rows_spec(content: Seq<char>) -> int {
    let lines = lines_spec(content);
    let d = detect_delimiter_spec(content);
    if is_header_row_spec(lines[0], d) && lines.len() > 1 {
        lines.len() - 1
    } else {
        lines.len() as int
    }
}

/// Validates a text: sniffs its delimiter, detects a header row, counts
/// columns from the first line and estimates the row count. Fails
/// exactly when the text holds no lines at all.
pub fn validate_csv_content(content: &str, encoding: &str) -> (r: Result<
    CsvValidationResult,
    CsvError,
>)
    requires
        content@.len() < usize::MAX,
    ensures
        (r is Err) <==> lines_spec(content@).len() == 0,
        r is Err ==> r.unwrap_err() == CsvError::EmptyFile,
        r matches Ok(v) ==> {
            &&& v.is_valid == true
            &&& v.delimiter@ =~= seq![detect_delimiter_spec(content@)]
            &&& v.estimated_rows == estimated_rows_spec(content@)
            &&& v.encoding@ == encoding@
            &&& v.has_headers == is_header_row_spec(
                lines_spec(content@)[0],
                detect_delimiter_spec(content@),
            )
            &&& v.column_count == field_count(
                lines_spec(content@)[0],
                detect_delimiter_spec(content@),
            )
        },
{
    let cs = chars_of(content);
    let d = detect_delim_chars(&cs);
    let lines = lines_of(&cs);
    if lines.len() == 0 {
        return Err(CsvError::EmptyFile);
    }
    proof {
        lemma_line_len(cs@);
    }
    let first = &lines[0];
    let column_count = field_count_of(first, d);
    let has_headers = is_header_row_chars(first, d);
    let estimated_rows: u64 = if has_headers && lines.len() > 1 {
        (lines.len() - 1) as u64
    } else {
        lines.len() as u64
    };
    let mut dv: Vec<char> = Vec::new();
    dv.push(d);
    Ok(CsvValidationResult {
        is_valid: true,
        delimiter: string_from_chars(&dv),
        estimated_rows,
        encoding: encoding.to_owned(),
        has_headers,
        column_count,
    })
}

} // verus!
