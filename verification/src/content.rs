//! The plain-file view: splitting a file's content into numbered lines, the
//! single-entry file set shown when a file itself is the review subject, and
//! the per-path line extraction used by the final summary.

use vstd::prelude::*;

use crate::diff::{lines_view, FileV, LineV};
use crate::models::{FileData, LineData};

verus! {

/// Index of the first occurrence of `c`, or -1 when there is none.
pub open spec fn find_char(s: Seq<char>, c: char) -> int
    decreases s.len(),
{
    if s.len() == 0 {
        -1
    } else if s[0] == c {
        0
    } else {
        let r = find_char(s.drop_first(), c);
        if r == -1 {
            -1
        } else {
            r + 1
        }
    }
}

/// What `find_char` returns: -1 exactly when `c` does not occur, and
/// otherwise its first index.
pub proof fn lemma_find_char(s: Seq<char>, c: char)
    ensures
        find_char(s, c) == -1 ==> forall|i: int| 0 <= i < s.len() ==> s[i] != c,
        find_char(s, c) != -1 ==> {
            let k = find_char(s, c);
            &&& 0 <= k < s.len()
            &&& s[k] == c
            &&& forall|i: int| 0 <= i < k ==> s[i] != c
        },
    decreases s.len(),
{
    if s.len() == 0 {
    } else if s[0] == c {
    } else {
        lemma_find_char(s.drop_first(), c);
        let r = find_char(s.drop_first(), c);
        if r == -1 {
            assert forall|i: int| 0 <= i < s.len() implies s[i] != c by {
                if i > 0 {
                    assert(s[i] == s.drop_first()[i - 1]);
                }
            }
        } else {
            assert(s[r + 1] == s.drop_first()[r]);
            assert forall|i: int| 0 <= i < r + 1 implies s[i] != c by {
                if i > 0 {
                    assert(s[i] == s.drop_first()[i - 1]);
                }
            }
        }
    }
}

/// The first index at which `c` occurs is what `find_char` returns.
pub proof fn lemma_find_char_is(s: Seq<char>, c: char, k: int)
    requires
        0 <= k < s.len(),
        s[k] == c,
        forall|i: int| 0 <= i < k ==> s[i] != c,
    ensures
        find_char(s, c) == k,
    decreases s.len(),
{
    if k == 0 {
    } else {
        assert(s[0] != c);
        lemma_find_char_is(s.drop_first(), c, k - 1);
    }
}

/// A line with one carriage return stripped from its end, as happens to a
/// line that a line feed terminated.
pub open spec fn strip_cr(l: Seq<char>) -> Seq<char> {
    if l.len() > 0 && l.last() == '\r' {
        l.drop_last()
    } else {
        l
    }
}

/// The lines of a text, split at line feeds; a carriage return before a
/// line feed is stripped, and a final line ending produces no empty line.
/// This is the meaning of `str::lines`.
pub open spec fn split_lines(s: Seq<char>) -> Seq<Seq<char>>
    decreases s.len(),
{
    if s.len() == 0 {
        Seq::empty()
    } else {
        let i = find_char(s, '\n');
        if 0 <= i < s.len() {
            seq![strip_cr(s.take(i))] + split_lines(s.skip(i + 1))
        } else {
            seq![s]
        }
    }
}

/// The numbered lines a text enumerates to: the k-th split line, numbered
/// k+1 (wrapped into 32 bits), all carrying the same kind marker.
pub open spec fn enumerate_spec(content: Seq<char>, kind: Option<Seq<char>>) -> Seq<LineV> {
    Seq::new(
        split_lines(content).len(),
        |i: int|
            LineV {
                number: ((i + 1) % 0x1_0000_0000) as u32,
                content: split_lines(content)[i],
                kind,
            },
    )
}

/// The position of the first line feed at or after `start`, or the text's
/// length when there is none.
fn scan_to_newline(s: &str, start: usize) -> (j: usize)
    requires
        start <= s@.len(),
    ensures
        start <= j <= s@.len(),
        forall|t: int| start <= t < j ==> s@[t] != '\n',
        j < s@.len() ==> s@[j as int] == '\n',
{
    let len: usize = s.unicode_len();
    let mut j: usize = start;
    while j < len
        invariant
            start <= j <= len,
            len == s@.len(),
            forall|t: int| start <= t < j ==> s@[t] != '\n',
        decreases len - j,
    {
        if s.get_char(j) == '\n' {
            return j;
        }
        j = j + 1;
    }
    j
}

/// Enumerate a text into numbered lines that all carry the given kind
/// marker.
pub fn enumerate_file_lines(content: &str, line_type: Option<&str>) -> (r: Vec<LineData>)
    ensures
        lines_view(r@) == enumerate_spec(
            content@,
            match line_type {
                Some(t) => Some(t@),
                None => None,
            },
        ),
{
    let ghost whole = content@;
    let ghost kind_v: Option<Seq<char>> = match line_type {
        Some(t) => Some(t@),
        None => None,
    };
    let len: usize = content.unicode_len();
    let mut out: Vec<LineData> = Vec::new();
    let mut start: usize = 0;
    proof {
        assert(whole.skip(0) =~= whole);
        assert(lines_view(out@) =~= Seq::<LineV>::empty());
    }
    while start < len
        invariant
            start <= len,
            len == whole.len(),
            whole == content@,
            split_lines(whole) == lines_view(out@).map_values(|l: LineV| l.content) + split_lines(
                whole.skip(start as int),
            ),
            forall|t: int|
                0 <= t < out@.len() ==> (#[trigger] lines_view(out@)[t]).number == ((t + 1)
                    % 0x1_0000_0000) as u32 && lines_view(out@)[t].kind == kind_v,
            out@.len() <= start,
            kind_v == (match line_type {
                Some(t) => Some(t@),
                None => None::<Seq<char>>,
            }),
        decreases len - start,
    {
        let ghost rest = whole.skip(start as int);
        let j = scan_to_newline(content, start);
        let found_nl: bool = j < len;
        proof {
            if found_nl {
                assert(whole[j as int] == '\n');
                assert forall|t: int| 0 <= t < j - start implies rest[t] != '\n' by {
                    assert(rest[t] == whole[start + t]);
                }
                assert(rest[j - start] == '\n');
                lemma_find_char_is(rest, '\n', j - start);
            } else {
                lemma_find_char(rest, '\n');
                assert forall|t: int| 0 <= t < rest.len() implies rest[t] != '\n' by {
                    assert(rest[t] == whole[start + t]);
                }
                if find_char(rest, '\n') != -1 {
                    assert(rest[find_char(rest, '\n')] == '\n');
                }
            }
        }
        let mut seg_end: usize = j;
        if found_nl && seg_end > start {
            let prev = content.get_char(seg_end - 1);
            if prev == '\r' {
                seg_end = seg_end - 1;
            }
        }
        let seg = content.substring_char(start, seg_end);
        let ghost emitted: Seq<char> = seg@;
        proof {
            let line_raw = rest.take(j - start);
            assert(line_raw =~= whole.subrange(start as int, j as int));
            if found_nl {
                if j > start && whole[j - 1] == '\r' {
                    assert(line_raw.last() == '\r');
                    assert(strip_cr(line_raw) =~= whole.subrange(start as int, j - 1));
                } else {
                    assert(strip_cr(line_raw) =~= line_raw);
                }
                assert(emitted == strip_cr(line_raw));
                assert(split_lines(rest) == seq![strip_cr(line_raw)] + split_lines(
                    rest.skip(j - start + 1),
                ));
                assert(rest.skip(j - start + 1) =~= whole.skip(j + 1));
            } else {
                assert(rest.len() > 0);
                assert(emitted =~= rest);
                assert(split_lines(rest) == seq![rest]);
            }
        }
        let kind: Option<String> = match line_type {
            Some(t) => Some(t.to_owned()),
            None => None,
        };
        let n: u64 = out.len() as u64 + 1;
        let number: u32 = #[verifier::truncate] (n as u32);
        proof {
            assert((n as u32) as int == (n as int) % 0x1_0000_0000) by (bit_vector);
        }
        let ghost out0 = out@;
        out.push(LineData { number, content: seg.to_owned(), kind });
        proof {
            assert(number == ((out0.len() + 1) % 0x1_0000_0000) as u32);
            assert(lines_view(out@) =~= lines_view(out0).push(out@.last()@));
            assert forall|t: int|
                0 <= t < out@.len() implies (#[trigger] lines_view(out@)[t]).number == ((t + 1)
                % 0x1_0000_0000) as u32 && lines_view(out@)[t].kind == kind_v by {
                if t < out0.len() {
                    assert(lines_view(out@)[t] == lines_view(out0)[t]);
                } else {
                    assert(lines_view(out@)[t] == out@.last()@);
                }
            }
            assert(lines_view(out@).map_values(|l: LineV| l.content) =~= lines_view(
                out0,
            ).map_values(|l: LineV| l.content) + seq![emitted]);
            if found_nl {
                assert(split_lines(whole) =~= lines_view(out@).map_values(|l: LineV| l.content)
                    + split_lines(whole.skip(j + 1)));
            } else {
                assert(split_lines(whole.skip(len as int)) =~= Seq::<Seq<char>>::empty());
                assert(split_lines(whole) =~= lines_view(out@).map_values(|l: LineV| l.content)
                    + split_lines(whole.skip(len as int)));
            }
        }
        if found_nl {
            start = j + 1;
        } else {
            start = len;
        }
    }
    proof {
        assert(split_lines(whole.skip(len as int)) =~= Seq::<Seq<char>>::empty());
        assert(split_lines(whole) =~= lines_view(out@).map_values(|l: LineV| l.content));
        assert(lines_view(out@) =~= enumerate_spec(whole, kind_v));
    }
    out
}

/// The single-entry file set shown when a plain file is the subject: status
/// `"view"`, every line kind unset, numbers counting from 1.
pub fn file_content_data(path: &str, content: &str) -> (r: Vec<FileData>)
    ensures
        r@.len() == 1,
        r@[0].path@ == path@,
        r@[0].status@ == "view"@,
        lines_view(r@[0].lines@) == enumerate_spec(content@, None::<Seq<char>>),
{
    let lines = enumerate_file_lines(content, None);
    let entry = FileData { path: path.to_owned(), status: String::from_str("view"), lines };
    let mut out: Vec<FileData> = Vec::new();
    out.push(entry);
    out
}

/// The file entry recorded for a file that only the working tree knows:
/// status `"added"`, every line marked added.
pub fn untracked_file_data(path: &str, content: &str) -> (r: FileData)
    ensures
        r.path@ == path@,
        r.status@ == "added"@,
        lines_view(r.lines@) == enumerate_spec(content@, Some("added"@)),
{
    let lines = enumerate_file_lines(content, Some("added"));
    FileData { path: path.to_owned(), status: String::from_str("added"), lines }
}

/// Whether a working-tree status entry belongs in the untracked view: it
/// must be new or modified somewhere, and deleted nowhere.
pub fn untracked_entry_relevant(
    index_new: bool,
    wt_new: bool,
    index_modified: bool,
    wt_modified: bool,
    index_deleted: bool,
    wt_deleted: bool,
) -> (r: bool)
    ensures
        r == ((index_new || wt_new || index_modified || wt_modified) && !(index_deleted
            || wt_deleted)),
{
    let relevant = index_new || wt_new || index_modified || wt_modified;
    let deleted = index_deleted || wt_deleted;
    relevant && !deleted
}

/// The contents of a sequence of classified lines.
pub open spec fn contents_of(lines: Seq<LineData>) -> Seq<Seq<char>> {
    lines.map_values(|l: LineData| l.content@)
}

/// The spec-level picture of a sequence of strings.
pub open spec fn strings_view(s: Seq<String>) -> Seq<Seq<char>> {
    s.map_values(|x: String| x@)
}

/// Flatten a file set into pairs of path and line contents, one pair per
/// entry, in entry order.
pub fn extract_file_lines(files: Vec<FileData>) -> (r: Vec<(String, Vec<String>)>)
    ensures
        r@.len() == files@.len(),
        forall|i: int|
            0 <= i < files@.len() ==> (#[trigger] r@[i]).0@ == files@[i].path@ && strings_view(
                r@[i].1@,
            ) == contents_of(files@[i].lines@),
{
    let ghost fs0 = files@;
    let mut rest = files;
    let mut out: Vec<(String, Vec<String>)> = Vec::new();
    let ghost mut k: int = 0;
    proof {
        assert(fs0.skip(0) =~= fs0);
    }
    while rest.len() > 0
        invariant
            0 <= k <= fs0.len(),
            rest@ == fs0.skip(k),
            out@.len() == k,
            forall|i: int|
                0 <= i < k ==> (#[trigger] out@[i]).0@ == fs0[i].path@ && strings_view(out@[i].1@)
                    == contents_of(fs0[i].lines@),
        decreases rest@.len(),
    {
        let f = rest.remove(0);
        proof {
            assert(fs0.skip(k)[0] == fs0[k]);
            assert(fs0.skip(k).remove(0) =~= fs0.skip(k + 1));
        }
        let mut contents: Vec<String> = Vec::new();
        let mut li: usize = 0;
        proof {
            assert(strings_view(contents@) =~= Seq::<Seq<char>>::empty());
        }
        while li < f.lines.len()
            invariant
                li <= f.lines@.len(),
                strings_view(contents@) =~= contents_of(f.lines@.take(li as int)),
            decreases f.lines@.len() - li,
        {
            let ghost c0 = contents@;
            contents.push(f.lines[li].content.clone());
            proof {
                assert(strings_view(contents@) =~= strings_view(c0).push(
                    f.lines@[li as int].content@,
                ));
                assert(contents_of(f.lines@.take(li + 1)) =~= contents_of(
                    f.lines@.take(li as int),
                ).push(f.lines@[li as int].content@));
            }
            li = li + 1;
        }
        proof {
            assert(f.lines@.take(f.lines@.len() as int) =~= f.lines@);
        }
        out.push((f.path, contents));
        proof {
            k = k + 1;
        }
    }
    out
}

} // verus!
