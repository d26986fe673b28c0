//! The diff-synthesis engine: classification of raw diff lines, conversion of
//! a diff's deltas into a per-path file view, merging of the staged and the
//! unstaged view, and the sort that callers see.

use vstd::prelude::*;

use crate::models::{FileData, LineData};
use crate::strutil::{seq_char_le, str_eq, str_le, trim_end, trim_end_spec};

verus! {

/// The change kind a delta reports for its file.
#[derive(Clone, Copy, PartialEq, Eq, Structural, Debug)]
pub enum DeltaStatus {
    Added,
    Deleted,
    Modified,
    Renamed,
    Copied,
    Other,
}

/// One raw diff line as the version-control layer reports it, before
/// classification.
pub struct RawLine {
    /// The origin marker, such as `'+'`, `'-'` or `' '`.
    pub origin: char,
    /// The decoded payload; `None` when the payload is not valid text.
    pub content: Option<String>,
    /// 1-based position in the pre-image, if the line has one.
    pub old_lineno: Option<u32>,
    /// 1-based position in the post-image, if the line has one.
    pub new_lineno: Option<u32>,
}

/// One per-path change record of a diff, with its raw content lines.
pub struct RawDelta {
    /// The post-image path; `None` when no path is resolvable.
    pub new_path: Option<String>,
    /// The change kind of the delta.
    pub status: DeltaStatus,
    /// The raw lines of all hunks of the delta, in diff order.
    pub lines: Vec<RawLine>,
}

/// Spec-level picture of one classified line.
pub ghost struct LineV {
    pub number: u32,
    pub content: Seq<char>,
    pub kind: Option<Seq<char>>,
}

/// Spec-level picture of one file entry.
pub ghost struct FileV {
    pub path: Seq<char>,
    pub status: Seq<char>,
    pub lines: Seq<LineV>,
}

impl View for LineData {
    type V = LineV;

    open spec fn view(&self) -> LineV {
        LineV {
            number: self.number,
            content: self.content@,
            kind: match self.kind {
                Some(k) => Some(k@),
                None => None,
            },
        }
    }
}

/// The spec-level picture of a sequence of classified lines.
pub open spec fn lines_view(s: Seq<LineData>) -> Seq<LineV> {
    s.map_values(|l: LineData| l@)
}

impl View for FileData {
    type V = FileV;

    open spec fn view(&self) -> FileV {
        FileV { path: self.path@, status: self.status@, lines: lines_view(self.lines@) }
    }
}

/// The spec-level picture of a sequence of file entries.
pub open spec fn files_view(s: Seq<FileData>) -> Seq<FileV> {
    s.map_values(|f: FileData| f@)
}

/// The three classification kinds of a diff line.
#[derive(Clone, Copy, PartialEq, Eq, Structural, Debug)]
pub enum LineKind {
    Added,
    Removed,
    Context,
}

/// How an origin marker classifies: `'+'` and `'>'` mark an added line,
/// `'-'` and `'<'` a removed one, anything else context.
pub open spec fn kind_of_origin(origin: char) -> LineKind {
    if origin == '+' || origin == '>' {
        LineKind::Added
    } else if origin == '-' || origin == '<' {
        LineKind::Removed
    } else {
        LineKind::Context
    }
}

/// The kind marker stored on an emitted line: context lines carry none.
pub open spec fn kind_marker(k: LineKind) -> Option<Seq<char>> {
    match k {
        LineKind::Added => Some("added"@),
        LineKind::Removed => Some("removed"@),
        LineKind::Context => None,
    }
}

/// The payload of a raw line; a payload that is not valid text counts as
/// empty.
pub open spec fn raw_content(c: Option<String>) -> Seq<char> {
    match c {
        Some(s) => s@,
        None => Seq::empty(),
    }
}

/// The line number an emitted line carries: the pre-image position for a
/// removed line, the post-image position otherwise, and 0 where the diff
/// gave none.
pub open spec fn number_of_line(l: RawLine) -> u32 {
    if kind_of_origin(l.origin) is Removed {
        match l.old_lineno {
            Some(n) => n,
            None => 0,
        }
    } else {
        match l.new_lineno {
            Some(n) => n,
            None => 0,
        }
    }
}

/// Classification of one raw line: the payload is trimmed of trailing
/// whitespace, and a line whose trimmed payload is empty is dropped rather
/// than emitted.
pub open spec fn classify_spec(l: RawLine) -> Option<LineV> {
    let t = trim_end_spec(raw_content(l.content));
    if t.len() == 0 {
        None
    } else {
        Some(
            LineV {
                number: number_of_line(l),
                content: t,
                kind: kind_marker(kind_of_origin(l.origin)),
            },
        )
    }
}

/// The spec-level picture of an optional emitted line.
pub open spec fn opt_line_view(r: Option<LineData>) -> Option<LineV> {
    match r {
        Some(ld) => Some(ld@),
        None => None,
    }
}

/// Classify one raw diff line, or drop it when its trimmed payload is empty.
pub fn classify_line(l: &RawLine) -> (r: Option<LineData>)
    ensures
        opt_line_view(r) == classify_spec(*l),
{
    let content_str: &str = match &l.content {
        Some(s) => s.as_str(),
        None => "",
    };
    proof {
        reveal_strlit("");
        assert(""@ =~= Seq::<char>::empty());
    }
    let trimmed = trim_end(content_str);
    if trimmed.as_str().is_empty() {
        return None;
    }
    let kind: Option<String> = if l.origin == '+' || l.origin == '>' {
        Some(String::from_str("added"))
    } else if l.origin == '-' || l.origin == '<' {
        Some(String::from_str("removed"))
    } else {
        None
    };
    let removed: bool = l.origin == '-' || l.origin == '<';
    let number: u32 = if removed {
        match l.old_lineno {
            Some(n) => n,
            None => 0,
        }
    } else {
        match l.new_lineno {
            Some(n) => n,
            None => 0,
        }
    };
    Some(LineData { number, content: trimmed, kind })
}

/// The status string a delta's change kind maps to; any kind that is not an
/// addition or a deletion counts as a modification.
pub open spec fn status_marker(s: DeltaStatus) -> Seq<char> {
    match s {
        DeltaStatus::Added => "added"@,
        DeltaStatus::Deleted => "deleted"@,
        DeltaStatus::Modified => "modified"@,
        DeltaStatus::Renamed => "modified"@,
        DeltaStatus::Copied => "modified"@,
        DeltaStatus::Other => "modified"@,
    }
}

/// Render the status string of a delta's change kind.
pub fn delta_status_string(s: DeltaStatus) -> (r: String)
    ensures
        r@ == status_marker(s),
{
    match s {
        DeltaStatus::Added => String::from_str("added"),
        DeltaStatus::Deleted => String::from_str("deleted"),
        DeltaStatus::Modified => String::from_str("modified"),
        DeltaStatus::Renamed => String::from_str("modified"),
        DeltaStatus::Copied => String::from_str("modified"),
        DeltaStatus::Other => String::from_str("modified"),
    }
}

/// The path a delta's lines are keyed under; deltas without a resolvable
/// path share the literal `"binary"` bucket.
pub open spec fn delta_path(d: RawDelta) -> Seq<char> {
    match d.new_path {
        Some(p) => p@,
        None => "binary"@,
    }
}

/// Render the path a delta's lines are keyed under.
pub fn delta_path_string(d: &RawDelta) -> (r: String)
    ensures
        r@ == delta_path(*d),
{
    match &d.new_path {
        Some(p) => p.clone(),
        None => String::from_str("binary"),
    }
}

/// Index of the first entry keyed under `p`, or -1 when there is none.
pub open spec fn find_path(s: Seq<FileV>, p: Seq<char>) -> int
    decreases s.len(),
{
    if s.len() == 0 {
        -1
    } else if s[0].path == p {
        0
    } else {
        let r = find_path(s.drop_first(), p);
        if r == -1 {
            -1
        } else {
            r + 1
        }
    }
}

/// What `find_path` returns: -1 exactly when no entry has the path, and
/// otherwise the first index that does.
pub proof fn lemma_find_path(s: Seq<FileV>, p: Seq<char>)
    ensures
        find_path(s, p) == -1 ==> forall|i: int| 0 <= i < s.len() ==> s[i].path != p,
        find_path(s, p) != -1 ==> {
            let k = find_path(s, p);
            &&& 0 <= k < s.len()
            &&& s[k].path == p
            &&& forall|i: int| 0 <= i < k ==> s[i].path != p
        },
    decreases s.len(),
{
    if s.len() == 0 {
    } else if s[0].path == p {
    } else {
        lemma_find_path(s.drop_first(), p);
        let r = find_path(s.drop_first(), p);
        if r == -1 {
            assert forall|i: int| 0 <= i < s.len() implies s[i].path != p by {
                if i > 0 {
                    assert(s[i] == s.drop_first()[i - 1]);
                }
            }
        } else {
            assert(s[r + 1] == s.drop_first()[r]);
            assert forall|i: int| 0 <= i < r + 1 implies s[i].path != p by {
                if i > 0 {
                    assert(s[i] == s.drop_first()[i - 1]);
                }
            }
        }
    }
}

/// The first index whose entry has path `p` is what `find_path` returns.
pub proof fn lemma_find_path_is(s: Seq<FileV>, p: Seq<char>, k: int)
    requires
        0 <= k < s.len(),
        s[k].path == p,
        forall|i: int| 0 <= i < k ==> s[i].path != p,
    ensures
        find_path(s, p) == k,
    decreases s.len(),
{
    if k == 0 {
    } else {
        assert(s[0].path != p);
        lemma_find_path_is(s.drop_first(), p, k - 1);
    }
}

/// Find the first entry keyed under `path`.
fn find_entry(files: &Vec<FileData>, path: &str) -> (r: Option<usize>)
    ensures
        match r {
            Some(i) => 0 <= i < files@.len() && find_path(files_view(files@), path@) == i,
            None => find_path(files_view(files@), path@) == -1,
        },
{
    let ghost fv = files_view(files@);
    let mut i: usize = 0;
    while i < files.len()
        invariant
            i <= files@.len(),
            fv == files_view(files@),
            forall|j: int| 0 <= j < i ==> fv[j].path != path@,
        decreases files@.len() - i,
    {
        if str_eq(files[i].path.as_str(), path) {
            proof {
                assert(fv[i as int].path == path@);
                lemma_find_path_is(fv, path@, i as int);
            }
            return Some(i);
        }
        proof {
            assert(fv[i as int].path != path@);
        }
        i = i + 1;
    }
    proof {
        lemma_find_path(fv, path@);
        if find_path(fv, path@) != -1 {
            assert(fv[find_path(fv, path@)].path == path@);
        }
    }
    None
}

/// Insert a fresh entry, or replace the first entry that shares its path.
pub open spec fn upsert_entry(s: Seq<FileV>, e: FileV) -> Seq<FileV> {
    let i = find_path(s, e.path);
    if i == -1 {
        s.push(e)
    } else {
        s.update(i, e)
    }
}

/// The entries established by the deltas, one per distinct path, in first
/// appearance order; a later delta with the same path resets the entry.
pub open spec fn entries_of(deltas: Seq<RawDelta>) -> Seq<FileV>
    decreases deltas.len(),
{
    if deltas.len() == 0 {
        Seq::empty()
    } else {
        upsert_entry(
            entries_of(deltas.drop_last()),
            FileV {
                path: delta_path(deltas.last()),
                status: status_marker(deltas.last().status),
                lines: Seq::empty(),
            },
        )
    }
}

/// The classified lines of a delta's raw lines, dropped lines left out, in
/// diff order.
pub open spec fn classified_lines(ls: Seq<RawLine>) -> Seq<LineV>
    decreases ls.len(),
{
    if ls.len() == 0 {
        Seq::empty()
    } else {
        classified_lines(ls.drop_last()) + match classify_spec(ls.last()) {
            Some(l) => seq![l],
            None => Seq::empty(),
        }
    }
}

/// Append a delta's classified lines to the entry keyed under its path;
/// lines whose path matches no entry are dropped.
pub open spec fn attach_lines(s: Seq<FileV>, d: RawDelta) -> Seq<FileV> {
    let i = find_path(s, delta_path(d));
    if i == -1 {
        s
    } else {
        s.update(
            i,
            FileV {
                path: s[i].path,
                status: s[i].status,
                lines: s[i].lines + classified_lines(d.lines@),
            },
        )
    }
}

/// Append every delta's classified lines, in delta order.
pub open spec fn attach_all(s: Seq<FileV>, deltas: Seq<RawDelta>) -> Seq<FileV>
    decreases deltas.len(),
{
    if deltas.len() == 0 {
        s
    } else {
        attach_lines(attach_all(s, deltas.drop_last()), deltas.last())
    }
}

/// What a diff converts to: every delta establishes an entry, then every
/// delta's classified lines are appended to the entry its path keys.
pub open spec fn convert_spec(deltas: Seq<RawDelta>) -> Seq<FileV> {
    attach_all(entries_of(deltas), deltas)
}

proof fn lemma_files_view_push(s: Seq<FileData>, f: FileData)
    ensures
        files_view(s.push(f)) == files_view(s).push(f@),
{
    assert(files_view(s.push(f)) =~= files_view(s).push(f@));
}

proof fn lemma_files_view_update(s: Seq<FileData>, i: int, f: FileData)
    requires
        0 <= i < s.len(),
    ensures
        files_view(s.update(i, f)) == files_view(s).update(i, f@),
{
    assert(files_view(s.update(i, f)) =~= files_view(s).update(i, f@));
}

proof fn lemma_lines_view_push(s: Seq<LineData>, l: LineData)
    ensures
        lines_view(s.push(l)) == lines_view(s).push(l@),
{
    assert(lines_view(s.push(l)) =~= lines_view(s).push(l@));
}

proof fn lemma_lines_view_add(a: Seq<LineData>, b: Seq<LineData>)
    ensures
        lines_view(a + b) == lines_view(a) + lines_view(b),
{
    assert(lines_view(a + b) =~= lines_view(a) + lines_view(b));
}

/// Convert one diff, given as its deltas, into the per-path file view:
/// each path keyed once, and every emitted line non-empty and trimmed.
pub fn diff_to_file_data(deltas: &Vec<RawDelta>) -> (r: Vec<FileData>)
    ensures
        files_view(r@) == convert_spec(deltas@),
        unique_paths(files_view(r@)),
        all_lines_ok(files_view(r@)),
{
    let mut files: Vec<FileData> = Vec::new();
    let mut di: usize = 0;
    proof {
        assert(deltas@.take(0) =~= Seq::<RawDelta>::empty());
        assert(files_view(files@) =~= Seq::<FileV>::empty());
    }
    while di < deltas.len()
        invariant
            di <= deltas@.len(),
            files_view(files@) == entries_of(deltas@.take(di as int)),
        decreases deltas@.len() - di,
    {
        let d = &deltas[di];
        let path = delta_path_string(d);
        let status = delta_status_string(d.status);
        let entry = FileData { path, status, lines: Vec::new() };
        proof {
            assert(lines_view(entry.lines@) =~= Seq::<LineV>::empty());
            assert(deltas@.take(di + 1).drop_last() =~= deltas@.take(di as int));
            assert(deltas@.take(di + 1).last() == deltas@[di as int]);
        }
        match find_entry(&files, entry.path.as_str()) {
            Some(i) => {
                proof {
                    lemma_files_view_update(files@, i as int, entry);
                }
                files[i] = entry;
            },
            None => {
                proof {
                    lemma_files_view_push(files@, entry);
                }
                files.push(entry);
            },
        }
        di = di + 1;
    }
    proof {
        assert(deltas@.take(deltas@.len() as int) =~= deltas@);
    }
    let ghost established = files_view(files@);
    let mut di: usize = 0;
    proof {
        assert(deltas@.take(0) =~= Seq::<RawDelta>::empty());
    }
    while di < deltas.len()
        invariant
            di <= deltas@.len(),
            established == entries_of(deltas@),
            files_view(files@) == attach_all(established, deltas@.take(di as int)),
        decreases deltas@.len() - di,
    {
        let d = &deltas[di];
        let mut newlines: Vec<LineData> = Vec::new();
        let mut li: usize = 0;
        proof {
            assert(d.lines@.take(0) =~= Seq::<RawLine>::empty());
            assert(lines_view(newlines@) =~= Seq::<LineV>::empty());
            assert(classified_lines(d.lines@.take(0)) =~= Seq::<LineV>::empty());
        }
        while li < d.lines.len()
            invariant
                li <= d.lines@.len(),
                lines_view(newlines@) == classified_lines(d.lines@.take(li as int)),
            decreases d.lines@.len() - li,
        {
            proof {
                assert(d.lines@.take(li + 1).drop_last() =~= d.lines@.take(li as int));
                assert(d.lines@.take(li + 1).last() == d.lines@[li as int]);
            }
            match classify_line(&d.lines[li]) {
                Some(ld) => {
                    proof {
                        lemma_lines_view_push(newlines@, ld);
                        assert(lines_view(newlines@).push(ld@) =~= lines_view(newlines@) + seq![
                            ld@,
                        ]);
                    }
                    newlines.push(ld);
                },
                None => {
                    proof {
                        assert(lines_view(newlines@) + Seq::<LineV>::empty() =~= lines_view(
                            newlines@,
                        ));
                    }
                },
            }
            li = li + 1;
        }
        proof {
            assert(d.lines@.take(d.lines@.len() as int) =~= d.lines@);
            assert(deltas@.take(di + 1).drop_last() =~= deltas@.take(di as int));
            assert(deltas@.take(di + 1).last() == deltas@[di as int]);
        }
        let path = delta_path_string(d);
        let ghost fs0 = files@;
        match find_entry(&files, path.as_str()) {
            Some(i) => {
                let mut e = files.remove(i);
                let ghost e0 = e;
                let ghost added = newlines@;
                e.lines.append(&mut newlines);
                proof {
                    lemma_lines_view_add(e0.lines@, added);
                }
                files.insert(i, e);
                proof {
                    assert(files@ =~= fs0.update(i as int, e));
                    lemma_files_view_update(fs0, i as int, e);
                    assert(files_view(fs0)[i as int] == fs0[i as int]@);
                    assert(files_view(files@) =~= attach_lines(files_view(fs0), *d));
                }
            },
            None => {},
        }
        di = di + 1;
    }
    proof {
        assert(deltas@.take(deltas@.len() as int) =~= deltas@);
        lemma_convert_unique(deltas@);
        lemma_convert_lines_ok(deltas@);
    }
    files
}

/// No two entries of a file set share a path.
pub open spec fn unique_paths(s: Seq<FileV>) -> bool {
    forall|i: int, j: int| 0 <= i < j < s.len() ==> s[i].path != s[j].path
}

/// The set of paths a file set keys its entries under.
pub open spec fn path_set(s: Seq<FileV>) -> Set<Seq<char>> {
    Set::new(|p: Seq<char>| exists|i: int| 0 <= i < s.len() && s[i].path == p)
}

proof fn lemma_path_set_push(s: Seq<FileV>, f: FileV)
    ensures
        path_set(s.push(f)) == path_set(s).insert(f.path),
{
    assert forall|p: Seq<char>| path_set(s.push(f)).contains(p) implies path_set(s).insert(
        f.path,
    ).contains(p) by {
        let i = choose|i: int| 0 <= i < s.push(f).len() && s.push(f)[i].path == p;
        if i < s.len() {
            assert(s[i].path == p);
        }
    }
    assert forall|p: Seq<char>| path_set(s).insert(f.path).contains(p) implies path_set(
        s.push(f),
    ).contains(p) by {
        if path_set(s).contains(p) {
            let i = choose|i: int| 0 <= i < s.len() && s[i].path == p;
            assert(s.push(f)[i].path == p);
        } else {
            assert(s.push(f)[s.len() as int].path == p);
        }
    }
    assert(path_set(s.push(f)) =~= path_set(s).insert(f.path));
}

proof fn lemma_path_set_update_same(s: Seq<FileV>, i: int, f: FileV)
    requires
        0 <= i < s.len(),
        s[i].path == f.path,
    ensures
        path_set(s.update(i, f)) == path_set(s),
{
    assert forall|p: Seq<char>| path_set(s.update(i, f)).contains(p) implies path_set(s).contains(
        p,
    ) by {
        let j = choose|j: int| 0 <= j < s.update(i, f).len() && s.update(i, f)[j].path == p;
        assert(s[j].path == p);
    }
    assert forall|p: Seq<char>| path_set(s).contains(p) implies path_set(s.update(i, f)).contains(
        p,
    ) by {
        let j = choose|j: int| 0 <= j < s.len() && s[j].path == p;
        assert(s.update(i, f)[j].path == p);
    }
    assert(path_set(s.update(i, f)) =~= path_set(s));
}

/// Merge one entry into a file set: its lines go to the end of the first
/// entry sharing its path, or the entry itself goes to the end of the set.
pub open spec fn merge_one(s: Seq<FileV>, f: FileV) -> Seq<FileV> {
    let i = find_path(s, f.path);
    if i == -1 {
        s.push(f)
    } else {
        s.update(i, FileV { path: s[i].path, status: s[i].status, lines: s[i].lines + f.lines })
    }
}

/// Merge a staged and a working-tree file set: entries present in only one
/// input pass through; entries present in both concatenate their lines,
/// the staged lines first.
pub open spec fn merge_spec(a: Seq<FileV>, b: Seq<FileV>) -> Seq<FileV>
    decreases b.len(),
{
    if b.len() == 0 {
        a
    } else {
        merge_one(merge_spec(a, b.drop_last()), b.last())
    }
}

/// Law: merging a file set with an empty one yields it unchanged.
pub proof fn lemma_merge_identity(a: Seq<FileV>)
    ensures
        merge_spec(a, Seq::<FileV>::empty()) == a,
{
}

proof fn lemma_merge_one_paths(s: Seq<FileV>, f: FileV)
    ensures
        path_set(merge_one(s, f)) == path_set(s).insert(f.path),
{
    let i = find_path(s, f.path);
    lemma_find_path(s, f.path);
    if i == -1 {
        lemma_path_set_push(s, f);
    } else {
        let e = FileV { path: s[i].path, status: s[i].status, lines: s[i].lines + f.lines };
        lemma_path_set_update_same(s, i, e);
        assert(path_set(s).contains(f.path));
        assert(path_set(s).insert(f.path) =~= path_set(s));
    }
}

/// The paths of a merge are the union of the paths of the inputs.
pub proof fn lemma_merge_paths(a: Seq<FileV>, b: Seq<FileV>)
    ensures
        path_set(merge_spec(a, b)) == path_set(a).union(path_set(b)),
    decreases b.len(),
{
    if b.len() == 0 {
        assert(path_set(b) =~= Set::<Seq<char>>::empty());
        assert(path_set(a).union(path_set(b)) =~= path_set(a));
    } else {
        lemma_merge_paths(a, b.drop_last());
        lemma_merge_one_paths(merge_spec(a, b.drop_last()), b.last());
        assert forall|p: Seq<char>| path_set(b).contains(p) implies path_set(
            b.drop_last(),
        ).insert(b.last().path).contains(p) by {
            let j = choose|j: int| 0 <= j < b.len() && b[j].path == p;
            if j < b.len() - 1 {
                assert(b.drop_last()[j].path == p);
            }
        }
        assert forall|p: Seq<char>|
            path_set(b.drop_last()).insert(b.last().path).contains(p) implies path_set(
            b,
        ).contains(p) by {
            if path_set(b.drop_last()).contains(p) {
                let j = choose|j: int| 0 <= j < b.drop_last().len() && b.drop_last()[j].path == p;
                assert(b[j].path == p);
            } else {
                assert(b[b.len() - 1].path == p);
            }
        }
        assert(path_set(b) =~= path_set(b.drop_last()).insert(b.last().path));
        assert(path_set(a).union(path_set(b.drop_last())).insert(b.last().path) =~= path_set(
            a,
        ).union(path_set(b)));
    }
}

/// Law: for the per-path membership of the result it does not matter in
/// which grouping three file sets are merged.
pub proof fn lemma_merge_membership_assoc(a: Seq<FileV>, b: Seq<FileV>, c: Seq<FileV>)
    ensures
        path_set(merge_spec(merge_spec(a, b), c)) == path_set(merge_spec(a, merge_spec(b, c))),
{
    lemma_merge_paths(a, b);
    lemma_merge_paths(merge_spec(a, b), c);
    lemma_merge_paths(b, c);
    lemma_merge_paths(a, merge_spec(b, c));
    assert(path_set(a).union(path_set(b)).union(path_set(c)) =~= path_set(a).union(
        path_set(b).union(path_set(c)),
    ));
}

proof fn lemma_upsert_unique(s: Seq<FileV>, e: FileV)
    requires
        unique_paths(s),
    ensures
        unique_paths(upsert_entry(s, e)),
{
    let i = find_path(s, e.path);
    lemma_find_path(s, e.path);
    if i == -1 {
        assert forall|x: int, y: int|
            0 <= x < y < s.push(e).len() implies s.push(e)[x].path != s.push(e)[y].path by {
            if y < s.len() {
            } else {
                assert(s.push(e)[x] == s[x]);
            }
        }
    } else {
        assert forall|x: int, y: int|
            0 <= x < y < s.update(i, e).len() implies s.update(i, e)[x].path != s.update(
            i,
            e,
        )[y].path by {
            assert(s.update(i, e)[x].path == if x == i {
                e.path
            } else {
                s[x].path
            });
        }
    }
}

proof fn lemma_merge_one_unique(s: Seq<FileV>, f: FileV)
    requires
        unique_paths(s),
    ensures
        unique_paths(merge_one(s, f)),
{
    let i = find_path(s, f.path);
    lemma_find_path(s, f.path);
    if i == -1 {
        assert forall|x: int, y: int|
            0 <= x < y < s.push(f).len() implies s.push(f)[x].path != s.push(f)[y].path by {
            if y < s.len() {
            } else {
                assert(s.push(f)[x] == s[x]);
            }
        }
    } else {
        let e = FileV { path: s[i].path, status: s[i].status, lines: s[i].lines + f.lines };
        assert forall|x: int, y: int|
            0 <= x < y < s.update(i, e).len() implies s.update(i, e)[x].path != s.update(
            i,
            e,
        )[y].path by {
            assert(s.update(i, e)[x].path == if x == i {
                e.path
            } else {
                s[x].path
            });
        }
    }
}

proof fn lemma_find_path_same_paths(s1: Seq<FileV>, s2: Seq<FileV>, p: Seq<char>)
    requires
        s1.len() <= s2.len(),
        forall|x: int| 0 <= x < s1.len() ==> s2[x].path == s1[x].path,
        forall|x: int| s1.len() <= x < s2.len() ==> s2[x].path != p,
    ensures
        find_path(s2, p) == find_path(s1, p),
{
    lemma_find_path(s1, p);
    lemma_find_path(s2, p);
    let k1 = find_path(s1, p);
    if k1 >= 0 {
        assert(s2[k1].path == p);
        assert forall|x: int| 0 <= x < k1 implies s2[x].path != p by {
            assert(s2[x].path == s1[x].path);
        }
        lemma_find_path_is(s2, p, k1);
    } else {
        if find_path(s2, p) != -1 {
            let k2 = find_path(s2, p);
            assert(s2[k2].path == p);
            if k2 < s1.len() {
                assert(s1[k2].path == p);
            }
        }
    }
}

proof fn lemma_find_path_drop_last(b: Seq<FileV>, p: Seq<char>)
    requires
        b.len() > 0,
        unique_paths(b),
    ensures
        b.last().path == p ==> find_path(b, p) == b.len() - 1 && find_path(b.drop_last(), p)
            == -1,
        b.last().path != p ==> find_path(b.drop_last(), p) == find_path(b, p),
{
    lemma_find_path(b, p);
    lemma_find_path(b.drop_last(), p);
    if b.last().path == p {
        assert forall|x: int| 0 <= x < b.len() - 1 implies b[x].path != p by {
            assert(b[x].path != b[b.len() - 1].path);
        }
        lemma_find_path_is(b, p, b.len() - 1);
        if find_path(b.drop_last(), p) != -1 {
            let k = find_path(b.drop_last(), p);
            assert(b.drop_last()[k].path == p);
            assert(b[k].path == p);
        }
    } else {
        let k = find_path(b, p);
        if k >= 0 {
            assert(k < b.len() - 1);
            assert(b.drop_last()[k].path == p);
            assert forall|x: int| 0 <= x < k implies b.drop_last()[x].path != p by {
                assert(b.drop_last()[x].path == b[x].path);
            }
            lemma_find_path_is(b.drop_last(), p, k);
        } else {
            if find_path(b.drop_last(), p) != -1 {
                let k2 = find_path(b.drop_last(), p);
                assert(b[k2].path == b.drop_last()[k2].path);
            }
        }
    }
}

proof fn lemma_find_path_in_set(s: Seq<FileV>, p: Seq<char>)
    ensures
        (find_path(s, p) >= 0) == path_set(s).contains(p),
{
    lemma_find_path(s, p);
    if find_path(s, p) >= 0 {
        assert(s[find_path(s, p)].path == p);
        assert(path_set(s).contains(p));
    } else {
        if path_set(s).contains(p) {
            let i = choose|i: int| 0 <= i < s.len() && s[i].path == p;
            assert(s[i].path == p);
        }
    }
}

/// Law: per path, a merge keeps an entry that only the staged set has, with
/// its status; appends the working-tree lines, staged lines first, where
/// both sets have the path; and passes a working-tree-only entry through
/// unchanged.
pub proof fn lemma_merge_content(a: Seq<FileV>, b: Seq<FileV>, p: Seq<char>)
    requires
        unique_paths(b),
    ensures
        find_path(a, p) >= 0 ==> {
            let i = find_path(a, p);
            let m = merge_spec(a, b);
            &&& find_path(m, p) == i
            &&& m[i].path == a[i].path
            &&& m[i].status == a[i].status
            &&& m[i].lines == a[i].lines + (if find_path(b, p) >= 0 {
                b[find_path(b, p)].lines
            } else {
                Seq::<LineV>::empty()
            })
        },
        find_path(a, p) == -1 && find_path(b, p) >= 0 ==> {
            let m = merge_spec(a, b);
            let k = find_path(m, p);
            &&& 0 <= k < m.len()
            &&& m[k] == b[find_path(b, p)]
        },
    decreases b.len(),
{
    lemma_find_path(a, p);
    lemma_find_path(b, p);
    if b.len() == 0 {
        if find_path(a, p) >= 0 {
            assert(a[find_path(a, p)].lines + Seq::<LineV>::empty() =~= a[
                find_path(a, p)
            ].lines);
        }
    } else {
        let bdl = b.drop_last();
        let f = b.last();
        assert(unique_paths(bdl)) by {
            assert forall|x: int, y: int|
                0 <= x < y < bdl.len() implies bdl[x].path != bdl[y].path by {
                assert(bdl[x] == b[x]);
                assert(bdl[y] == b[y]);
            }
        }
        lemma_merge_content(a, bdl, p);
        lemma_find_path_drop_last(b, p);
        let m1 = merge_spec(a, bdl);
        let m = merge_one(m1, f);
        lemma_find_path(m1, f.path);
        lemma_find_path(m1, p);
        let t = find_path(m1, f.path);
        if find_path(a, p) >= 0 {
            let i = find_path(a, p);
            if f.path == p {
                assert(t == i);
                assert(m == m1.update(
                    i,
                    FileV { path: m1[i].path, status: m1[i].status, lines: m1[i].lines + f.lines },
                ));
                assert(find_path(bdl, p) == -1);
                assert(m1[i].lines =~= a[i].lines);
                assert(m[i].lines =~= a[i].lines + b[find_path(b, p)].lines);
                lemma_find_path_same_paths(m1, m, p);
            } else {
                if t >= 0 {
                    assert(m1[t].path == f.path);
                    assert(t != i);
                    assert(m == m1.update(
                        t,
                        FileV {
                            path: m1[t].path,
                            status: m1[t].status,
                            lines: m1[t].lines + f.lines,
                        },
                    ));
                    lemma_find_path_same_paths(m1, m, p);
                    assert(m[i] == m1[i]);
                } else {
                    assert(m == m1.push(f));
                    assert forall|x: int| m1.len() <= x < m.len() implies m[x].path != p by {
                        assert(m[x] == f);
                    }
                    lemma_find_path_same_paths(m1, m, p);
                    assert(m[i] == m1[i]);
                }
            }
        } else if find_path(b, p) >= 0 {
            let j = find_path(b, p);
            if f.path == p {
                assert(j == b.len() - 1);
                assert(find_path(bdl, p) == -1);
                lemma_merge_paths(a, bdl);
                lemma_find_path_in_set(a, p);
                lemma_find_path_in_set(bdl, p);
                lemma_find_path_in_set(m1, p);
                assert(!path_set(m1).contains(p));
                assert(t == -1 || m1[t].path != p);
                assert(t == -1);
                assert(m == m1.push(f));
                assert(m[m1.len() as int] == f);
                assert forall|x: int| 0 <= x < m1.len() implies m[x].path != p by {
                    assert(m[x] == m1[x]);
                    lemma_find_path(m1, p);
                    assert(find_path(m1, p) == -1);
                }
                lemma_find_path_is(m, p, m1.len() as int);
            } else {
                assert(find_path(bdl, p) == j);
                assert(j < b.len() - 1) by {
                    if j == b.len() - 1 {
                        assert(b[j].path == p);
                    }
                }
                assert(bdl[j] == b[j]);
                let k1 = find_path(m1, p);
                assert(k1 >= 0);
                assert(m1[k1] == bdl[j]);
                assert(m1[k1] == b[j]);
                assert(m1[k1].path == p);
                if t >= 0 {
                    assert(m1[t].path == f.path);
                    assert(t != k1);
                    assert(m == m1.update(
                        t,
                        FileV {
                            path: m1[t].path,
                            status: m1[t].status,
                            lines: m1[t].lines + f.lines,
                        },
                    ));
                    lemma_find_path_same_paths(m1, m, p);
                    assert(m[k1] == m1[k1]);
                } else {
                    assert(m == m1.push(f));
                    assert forall|x: int| m1.len() <= x < m.len() implies m[x].path != p by {
                        assert(m[x] == f);
                    }
                    lemma_find_path_same_paths(m1, m, p);
                    assert(m[k1] == m1[k1]);
                }
            }
        }
    }
}

/// A merge into a file set with unique paths has unique paths.
pub proof fn lemma_merge_unique(a: Seq<FileV>, b: Seq<FileV>)
    requires
        unique_paths(a),
    ensures
        unique_paths(merge_spec(a, b)),
    decreases b.len(),
{
    if b.len() == 0 {
    } else {
        lemma_merge_unique(a, b.drop_last());
        lemma_merge_one_unique(merge_spec(a, b.drop_last()), b.last());
    }
}

proof fn lemma_attach_lines_unique(s: Seq<FileV>, d: RawDelta)
    requires
        unique_paths(s),
    ensures
        unique_paths(attach_lines(s, d)),
{
    let i = find_path(s, delta_path(d));
    lemma_find_path(s, delta_path(d));
    if i != -1 {
        let e = FileV {
            path: s[i].path,
            status: s[i].status,
            lines: s[i].lines + classified_lines(d.lines@),
        };
        assert forall|x: int, y: int|
            0 <= x < y < s.update(i, e).len() implies s.update(i, e)[x].path != s.update(
            i,
            e,
        )[y].path by {
            assert(s.update(i, e)[x].path == if x == i {
                e.path
            } else {
                s[x].path
            });
        }
    }
}

/// The per-path file view of a diff keys each path at most once.
pub proof fn lemma_convert_unique(deltas: Seq<RawDelta>)
    ensures
        unique_paths(convert_spec(deltas)),
{
    lemma_entries_unique(deltas);
    lemma_attach_all_unique(entries_of(deltas), deltas);
}

proof fn lemma_entries_unique(deltas: Seq<RawDelta>)
    ensures
        unique_paths(entries_of(deltas)),
    decreases deltas.len(),
{
    if deltas.len() == 0 {
    } else {
        lemma_entries_unique(deltas.drop_last());
        lemma_upsert_unique(
            entries_of(deltas.drop_last()),
            FileV {
                path: delta_path(deltas.last()),
                status: status_marker(deltas.last().status),
                lines: Seq::empty(),
            },
        );
    }
}

proof fn lemma_attach_all_unique(s: Seq<FileV>, deltas: Seq<RawDelta>)
    requires
        unique_paths(s),
    ensures
        unique_paths(attach_all(s, deltas)),
    decreases deltas.len(),
{
    if deltas.len() == 0 {
    } else {
        lemma_attach_all_unique(s, deltas.drop_last());
        lemma_attach_lines_unique(attach_all(s, deltas.drop_last()), deltas.last());
    }
}

/// Merge a staged and a working-tree file view into one, the staged lines
/// of a shared path coming first. Unique paths and the emitted-line shape
/// carry over from the inputs.
pub fn merge_file_sets(staged: Vec<FileData>, workdir: Vec<FileData>) -> (r: Vec<FileData>)
    ensures
        files_view(r@) == merge_spec(files_view(staged@), files_view(workdir@)),
        unique_paths(files_view(staged@)) ==> unique_paths(files_view(r@)),
        all_lines_ok(files_view(staged@)) && all_lines_ok(files_view(workdir@)) ==> all_lines_ok(
            files_view(r@),
        ),
{
    let ghost a0 = files_view(staged@);
    let ghost b0 = workdir@;
    let mut out = staged;
    let mut rest = workdir;
    let ghost mut k: int = 0;
    proof {
        assert(b0.skip(0) =~= b0);
        assert(files_view(b0.take(0)) =~= Seq::<FileV>::empty());
    }
    while rest.len() > 0
        invariant
            0 <= k <= b0.len(),
            rest@ == b0.skip(k),
            files_view(out@) == merge_spec(a0, files_view(b0.take(k))),
        decreases rest@.len(),
    {
        let mut f = rest.remove(0);
        proof {
            assert(b0.skip(k)[0] == b0[k]);
            assert(b0.skip(k).remove(0) =~= b0.skip(k + 1));
            assert(files_view(b0.take(k + 1)).drop_last() =~= files_view(b0.take(k)));
            assert(files_view(b0.take(k + 1)).last() == b0[k]@);
        }
        let ghost fs0 = out@;
        let ghost fval = f;
        match find_entry(&out, f.path.as_str()) {
            Some(i) => {
                let mut e = out.remove(i);
                let ghost e0 = e;
                let ghost added = f.lines@;
                e.lines.append(&mut f.lines);
                proof {
                    lemma_lines_view_add(e0.lines@, added);
                }
                out.insert(i, e);
                proof {
                    assert(out@ =~= fs0.update(i as int, e));
                    lemma_files_view_update(fs0, i as int, e);
                    assert(files_view(fs0)[i as int] == fs0[i as int]@);
                    assert(files_view(out@) =~= merge_one(files_view(fs0), fval@));
                }
            },
            None => {
                proof {
                    lemma_files_view_push(fs0, fval);
                }
                out.push(f);
            },
        }
        proof {
            k = k + 1;
        }
    }
    proof {
        assert(b0.take(b0.len() as int) =~= b0);
        assert(files_view(b0) == files_view(workdir@));
        if unique_paths(a0) {
            lemma_merge_unique(a0, files_view(b0));
        }
        if all_lines_ok(a0) && all_lines_ok(files_view(b0)) {
            lemma_merge_lines_ok(a0, files_view(b0));
        }
    }
    out
}

/// An emitted line is non-empty and carries no trailing whitespace.
pub open spec fn line_ok(l: LineV) -> bool {
    l.content.len() > 0 && trim_end_spec(l.content) == l.content
}

/// Every line of the entry is non-empty and trimmed.
pub open spec fn file_lines_ok(f: FileV) -> bool {
    forall|j: int| 0 <= j < f.lines.len() ==> line_ok(#[trigger] f.lines[j])
}

/// Every line of every entry is non-empty and trimmed.
pub open spec fn all_lines_ok(s: Seq<FileV>) -> bool {
    forall|i: int| 0 <= i < s.len() ==> file_lines_ok(#[trigger] s[i])
}

proof fn lemma_classified_lines_ok(ls: Seq<RawLine>)
    ensures
        forall|j: int|
            0 <= j < classified_lines(ls).len() ==> line_ok(#[trigger] classified_lines(ls)[j]),
    decreases ls.len(),
{
    if ls.len() == 0 {
    } else {
        lemma_classified_lines_ok(ls.drop_last());
        let pre = classified_lines(ls.drop_last());
        crate::strutil::lemma_trim_end_idempotent(raw_content(ls.last().content));
        assert forall|j: int| 0 <= j < classified_lines(ls).len() implies line_ok(
            #[trigger] classified_lines(ls)[j],
        ) by {
            if j < pre.len() {
                assert(classified_lines(ls)[j] == pre[j]);
            } else {
                match classify_spec(ls.last()) {
                    Some(l) => {
                        assert(classified_lines(ls)[j] == l);
                    },
                    None => {},
                }
            }
        }
    }
}

proof fn lemma_entries_ok(deltas: Seq<RawDelta>)
    ensures
        all_lines_ok(entries_of(deltas)),
    decreases deltas.len(),
{
    if deltas.len() == 0 {
    } else {
        lemma_entries_ok(deltas.drop_last());
        let prev = entries_of(deltas.drop_last());
        let e = FileV {
            path: delta_path(deltas.last()),
            status: status_marker(deltas.last().status),
            lines: Seq::empty(),
        };
        assert(file_lines_ok(e));
        let i = find_path(prev, e.path);
        if i == -1 {
            assert forall|x: int| 0 <= x < prev.push(e).len() implies file_lines_ok(
                #[trigger] prev.push(e)[x],
            ) by {
                if x < prev.len() {
                    assert(prev.push(e)[x] == prev[x]);
                }
            }
        } else {
            lemma_find_path(prev, e.path);
        }
    }
}

proof fn lemma_attach_lines_ok(s: Seq<FileV>, d: RawDelta)
    requires
        all_lines_ok(s),
    ensures
        all_lines_ok(attach_lines(s, d)),
{
    let i = find_path(s, delta_path(d));
    lemma_find_path(s, delta_path(d));
    if i != -1 {
        lemma_classified_lines_ok(d.lines@);
        let e = FileV {
            path: s[i].path,
            status: s[i].status,
            lines: s[i].lines + classified_lines(d.lines@),
        };
        assert forall|j: int| 0 <= j < e.lines.len() implies line_ok(#[trigger] e.lines[j]) by {
            if j < s[i].lines.len() {
                assert(e.lines[j] == s[i].lines[j]);
            } else {
                assert(e.lines[j] == classified_lines(d.lines@)[j - s[i].lines.len()]);
            }
        }
    }
}

proof fn lemma_attach_all_ok(s: Seq<FileV>, deltas: Seq<RawDelta>)
    requires
        all_lines_ok(s),
    ensures
        all_lines_ok(attach_all(s, deltas)),
    decreases deltas.len(),
{
    if deltas.len() == 0 {
    } else {
        lemma_attach_all_ok(s, deltas.drop_last());
        lemma_attach_lines_ok(attach_all(s, deltas.drop_last()), deltas.last());
    }
}

/// Law: every line a diff converts to has non-empty content with no
/// trailing whitespace; an empty or whitespace-only payload is dropped,
/// never emitted as a placeholder.
pub proof fn lemma_convert_lines_ok(deltas: Seq<RawDelta>)
    ensures
        all_lines_ok(convert_spec(deltas)),
{
    lemma_entries_ok(deltas);
    lemma_attach_all_ok(entries_of(deltas), deltas);
}

/// Law: a merge of two file sets whose lines are non-empty and trimmed has
/// only such lines as well.
pub proof fn lemma_merge_lines_ok(a: Seq<FileV>, b: Seq<FileV>)
    requires
        all_lines_ok(a),
        all_lines_ok(b),
    ensures
        all_lines_ok(merge_spec(a, b)),
    decreases b.len(),
{
    if b.len() == 0 {
    } else {
        lemma_merge_lines_ok(a, b.drop_last());
        let m = merge_spec(a, b.drop_last());
        let f = b.last();
        let i = find_path(m, f.path);
        lemma_find_path(m, f.path);
        if i == -1 {
            assert forall|x: int| 0 <= x < m.push(f).len() implies file_lines_ok(
                #[trigger] m.push(f)[x],
            ) by {
                if x < m.len() {
                    assert(m.push(f)[x] == m[x]);
                }
            }
        } else {
            let e = FileV { path: m[i].path, status: m[i].status, lines: m[i].lines + f.lines };
            assert forall|j: int| 0 <= j < e.lines.len() implies line_ok(#[trigger] e.lines[j]) by {
                if j < m[i].lines.len() {
                    assert(e.lines[j] == m[i].lines[j]);
                } else {
                    assert(e.lines[j] == f.lines[j - m[i].lines.len()]);
                }
            }
        }
    }
}

/// Entries stand in ascending path order.
pub open spec fn sorted_by_path(s: Seq<FileV>) -> bool {
    forall|i: int, j: int| 0 <= i < j < s.len() ==> seq_char_le(s[i].path, s[j].path)
}

proof fn lemma_files_view_insert(s: Seq<FileData>, k: int, f: FileData)
    requires
        0 <= k <= s.len(),
    ensures
        files_view(s.insert(k, f)) == files_view(s).insert(k, f@),
{
    s.insert_ensures(k, f);
    files_view(s).insert_ensures(k, f@);
    assert(files_view(s.insert(k, f)) =~= files_view(s).insert(k, f@));
}

/// The first position of the sorted set at which an entry with path `path`
/// may stand.
fn insertion_point(out: &Vec<FileData>, path: &str) -> (k: usize)
    ensures
        k <= out@.len(),
        forall|j: int| 0 <= j < k ==> !seq_char_le(path@, files_view(out@)[j].path),
        k < out@.len() ==> seq_char_le(path@, files_view(out@)[k as int].path),
{
    let mut k: usize = 0;
    while k < out.len()
        invariant
            k <= out@.len(),
            forall|j: int| 0 <= j < k ==> !seq_char_le(path@, files_view(out@)[j].path),
        decreases out@.len() - k,
    {
        if str_le(path, out[k].path.as_str()) {
            proof {
                assert(files_view(out@)[k as int].path == out@[k as int].path@);
            }
            return k;
        }
        proof {
            assert(files_view(out@)[k as int].path == out@[k as int].path@);
        }
        k = k + 1;
    }
    k
}

/// Sort a file view by path, ascending; the entries themselves are kept.
pub fn sort_by_path(files: Vec<FileData>) -> (r: Vec<FileData>)
    ensures
        sorted_by_path(files_view(r@)),
        r@.to_multiset() == files@.to_multiset(),
{
    broadcast use vstd::seq_lib::group_to_multiset_ensures;
    broadcast use vstd::multiset::group_multiset_axioms;

    let ghost m0 = files@.to_multiset();
    let mut out: Vec<FileData> = Vec::new();
    let mut rest = files;
    proof {
        assert(out@.to_multiset().add(rest@.to_multiset()) =~= m0);
    }
    while rest.len() > 0
        invariant
            sorted_by_path(files_view(out@)),
            out@.to_multiset().add(rest@.to_multiset()) == m0,
        decreases rest@.len(),
    {
        let ghost rest0 = rest@;
        let f = rest.remove(0);
        proof {
            rest0.to_multiset_ensures();
            assert(rest0.remove(0).to_multiset() =~= rest0.to_multiset().remove(rest0[0]));
        }
        let k = insertion_point(&out, f.path.as_str());
        let ghost out0 = out@;
        let ghost fv0 = files_view(out@);
        out.insert(k, f);
        proof {
            lemma_files_view_insert(out0, k as int, f);
            let fvn = files_view(out@);
            fv0.insert_ensures(k as int, f@);
            assert forall|i: int, j: int|
                0 <= i < j < fvn.len() implies seq_char_le(fvn[i].path, fvn[j].path) by {
                if j < k {
                } else if i < k && j == k {
                    crate::strutil::lemma_seq_char_le_total(f.path@, fv0[i].path);
                } else if i < k && j > k {
                } else if i == k && j > k {
                    assert(fvn[j] == fv0[j - 1]);
                    assert(seq_char_le(f.path@, fv0[k as int].path));
                    if j - 1 > k {
                        crate::strutil::lemma_seq_char_le_trans(
                            f.path@,
                            fv0[k as int].path,
                            fv0[j - 1].path,
                        );
                    }
                } else {
                }
            }
            out0.insert_ensures(k as int, f);
            out0.subrange(0, k as int).to_multiset_ensures();
            assert(out@.to_multiset() =~= out0.subrange(0, k as int).push(f).to_multiset().add(
                out0.subrange(k as int, out0.len() as int).to_multiset(),
            )) by {
                vstd::seq_lib::lemma_multiset_commutative(
                    out0.subrange(0, k as int).push(f),
                    out0.subrange(k as int, out0.len() as int),
                );
            }
            assert(out0.to_multiset() =~= out0.subrange(0, k as int).to_multiset().add(
                out0.subrange(k as int, out0.len() as int).to_multiset(),
            )) by {
                assert(out0 =~= out0.subrange(0, k as int) + out0.subrange(
                    k as int,
                    out0.len() as int,
                ));
                vstd::seq_lib::lemma_multiset_commutative(
                    out0.subrange(0, k as int),
                    out0.subrange(k as int, out0.len() as int),
                );
            }
            assert(out@.to_multiset() =~= out0.to_multiset().insert(f));
            assert(out@.to_multiset().add(rest@.to_multiset()) =~= m0);
        }
    }
    out
}

} // verus!
