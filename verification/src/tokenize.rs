//! The row tokenizer: splits text into logical lines as `str::lines`
//! does, and lines into fields at a delimiter character, trimming the
//! surrounding whitespace of each field.

use vstd::prelude::*;
use crate::chars::{is_space_char, trim_chars, trim_spec};

verus! {

/// The position of the first occurrence of `d` in `s`, or `-1`.
pub open spec fn find_char(s: Seq<char>, d: char) -> int
    decreases s.len(),
{
    if s.len() == 0 {
        -1
    } else if s[0] == d {
        0
    } else {
        let r = find_char(s.drop_first(), d);
        if r < 0 {
            -1
        } else {
            r + 1
        }
    }
}

/// The segments of `s` between occurrences of `d`: one segment more than
/// there are occurrences, in order, with the occurrences removed.
pub open spec fn split_char(s: Seq<char>, d: char) -> Seq<Seq<char>>
    decreases s.len(),
{
    if s.len() == 0 {
        seq![Seq::<char>::empty()]
    } else if s[s.len() - 1] == d {
        split_char(s.drop_last(), d).push(Seq::<char>::empty())
    } else {
        let r = split_char(s.drop_last(), d);
        r.update(r.len() - 1, r[r.len() - 1].push(s[s.len() - 1]))
    }
}

pub proof fn lemma_split_char_len(s: Seq<char>, d: char)
    ensures
        split_char(s, d).len() == crate::chars::count_char(s, d) + 1,
    decreases s.len(),
{
    if s.len() > 0 {
        lemma_split_char_len(s.drop_last(), d);
    }
}

/// Splits `v` at every occurrence of `d`.
pub fn split_char_exec(v: &Vec<char>, d: char) -> (r: Vec<Vec<char>>)
    ensures
        r@.len() == split_char(v@, d).len(),
        forall|i: int| 0 <= i < r@.len() ==> #[trigger] r@[i]@ == split_char(v@, d)[i],
{
    let mut fields: Vec<Vec<char>> = Vec::new();
    let mut cur: Vec<char> = Vec::new();
    let mut i: usize = 0;
    proof {
        assert(v@.subrange(0, 0) =~= Seq::<char>::empty());
    }
    while i < v.len()
        invariant
            i <= v@.len(),
            fields@.len() + 1 == split_char(v@.subrange(0, i as int), d).len(),
            forall|k: int|
                0 <= k < fields@.len()
                    ==> #[trigger] fields@[k]@ == split_char(v@.subrange(0, i as int), d)[k],
            cur@ == split_char(v@.subrange(0, i as int), d).last(),
        decreases v@.len() - i,
    {
        let c = v[i];
        proof {
            assert(v@.subrange(0, i as int + 1).drop_last() =~= v@.subrange(0, i as int));
            assert(v@.subrange(0, i as int + 1).last() == v@[i as int]);
        }
        if c == d {
            fields.push(cur);
            cur = Vec::new();
        } else {
            cur.push(c);
        }
        i += 1;
    }
    proof {
        assert(v@.subrange(0, v@.len() as int) =~= v@);
    }
    fields.push(cur);
    fields
}

/// `seg` with one trailing carriage return removed, as `str::lines`
/// treats the line endings `\r\n` and `\n` alike.
pub open spec fn strip_cr(seg: Seq<char>) -> Seq<char> {
    if seg.len() > 0 && seg[seg.len() - 1] == '\r' {
        seg.drop_last()
    } else {
        seg
    }
}

/// The logical lines of `s`, as `str::lines` yields them: segments
/// between newlines, a final empty segment after a trailing newline
/// omitted, and one carriage return stripped from each segment's end.
pub open spec fn lines_spec(s: Seq<char>) -> Seq<Seq<char>> {
    let segs = split_char(s, '\n');
    let kept = if segs.last().len() == 0 {
        segs.drop_last()
    } else {
        segs
    };
    kept.map(|i: int, seg: Seq<char>| strip_cr(seg))
}

/// Splits `v` into logical lines.
pub fn lines_of(v: &Vec<char>) -> (r: Vec<Vec<char>>)
    ensures
        r@.len() == lines_spec(v@).len(),
        forall|i: int| 0 <= i < r@.len() ==> #[trigger] r@[i]@ == lines_spec(v@)[i],
{
    let mut segs = split_char_exec(v, '\n');
    proof {
        lemma_split_char_len(v@, '\n');
    }
    let keep_all = segs[segs.len() - 1].len() > 0;
    if !keep_all {
        let _ = segs.pop();
    }
    let n = segs.len();
    let mut r: Vec<Vec<char>> = Vec::new();
    let ghost kept = if split_char(v@, '\n').last().len() == 0 {
        split_char(v@, '\n').drop_last()
    } else {
        split_char(v@, '\n')
    };
    proof {
        assert(segs@.len() == kept.len());
        assert(forall|i: int| 0 <= i < segs@.len() ==> #[trigger] segs@[i]@ == kept[i]);
    }
    let mut i: usize = 0;
    while i < n
        invariant
            i <= n,
            n == segs@.len(),
            n == kept.len(),
            forall|k: int| 0 <= k < n ==> #[trigger] segs@[k]@ == kept[k],
            r@.len() == i,
            forall|k: int| 0 <= k < i ==> #[trigger] r@[k]@ == strip_cr(kept[k]),
        decreases n - i,
    {
        let seg = &segs[i];
        let m = seg.len();
        if m > 0 && seg[m - 1] == '\r' {
            let mut line: Vec<char> = Vec::new();
            let mut j: usize = 0;
            while j < m - 1
                invariant
                    m >= 1,
                    m == seg@.len(),
                    j <= m - 1,
                    line@ =~= seg@.subrange(0, j as int),
                decreases m - j,
            {
                line.push(seg[j]);
                j += 1;
            }
            proof {
                assert(line@ =~= seg@.drop_last());
            }
            r.push(line);
        } else {
            let line = seg.clone();
            proof {
                assert(line@ == seg@);
            }
            r.push(line);
        }
        i += 1;
    }
    proof {
        assert(lines_spec(v@) =~= kept.map(|i: int, seg: Seq<char>| strip_cr(seg)));
        assert(forall|k: int|
            0 <= k < n ==> #[trigger] lines_spec(v@)[k] == strip_cr(kept[k]));
    }
    r
}

/// The fields of a line under delimiter `d`: the segments between
/// occurrences of `d`, each trimmed of surrounding whitespace.
pub open spec fn fields_spec(line: Seq<char>, d: char) -> Seq<Seq<char>> {
    split_char(line, d).map(|i: int, f: Seq<char>| trim_spec(f))
}

/// Splits a line into trimmed fields.
pub fn fields_of(line: &Vec<char>, d: char) -> (r: Vec<Vec<char>>)
    ensures
        r@.len() == fields_spec(line@, d).len(),
        forall|i: int| 0 <= i < r@.len() ==> #[trigger] r@[i]@ == fields_spec(line@, d)[i],
{
    let raw = split_char_exec(line, d);
    let n = raw.len();
    let mut r: Vec<Vec<char>> = Vec::new();
    let mut i: usize = 0;
    while i < n
        invariant
            i <= n,
            n == raw@.len(),
            n == split_char(line@, d).len(),
            forall|k: int| 0 <= k < n ==> #[trigger] raw@[k]@ == split_char(line@, d)[k],
            r@.len() == i,
            forall|k: int| 0 <= k < i ==> #[trigger] r@[k]@ == trim_spec(split_char(line@, d)[k]),
        decreases n - i,
    {
        let f = trim_chars(&raw[i]);
        r.push(f);
        i += 1;
    }
    proof {
        assert(forall|k: int|
            0 <= k < n ==> #[trigger] fields_spec(line@, d)[k] == trim_spec(split_char(line@, d)[k]));
    }
    r
}

/// How many fields a line has under delimiter `d`: one more than the
/// occurrences of `d`.
pub open spec fn field_count(line: Seq<char>, d: char) -> nat {
    crate::chars::count_char(line, d) + 1
}

/// Counts the fields of a line under delimiter `d`, without materialising
/// them.
pub fn field_count_of(line: &Vec<char>, d: char) -> (r: usize)
    requires
        line@.len() < usize::MAX,
    ensures
        r == field_count(line@, d),
{
    let c = crate::chars::count_char_occurrences(line, d);
    proof {
        crate::chars::lemma_count_char_le_len(line@, d);
    }
    c + 1
}

} // verus!
