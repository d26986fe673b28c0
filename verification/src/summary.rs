//! The structured review summary: the session's comments grouped by file in
//! first-appearance order, each file-and-line comment carrying the trimmed
//! source context around its target line, ready for rendering.

use vstd::prelude::*;

use crate::lookup::{find_pair, find_pair_index};
use crate::models::{Comment, ReviewData};
use crate::strutil::{str_eq, trim, trim_spec};

verus! {

/// One source line shown as context: its 1-based number and its trimmed
/// text.
pub struct SummaryRow {
    pub number: u32,
    pub content: String,
}

/// Spec-level picture of one context row.
pub ghost struct RowV {
    pub number: u32,
    pub content: Seq<char>,
}

impl View for SummaryRow {
    type V = RowV;

    open spec fn view(&self) -> RowV {
        RowV { number: self.number, content: self.content@ }
    }
}

/// The spec-level picture of a sequence of context rows.
pub open spec fn rows_view(s: Seq<SummaryRow>) -> Seq<RowV> {
    s.map_values(|r: SummaryRow| r@)
}

/// The spec-level picture of a sequence of strings.
pub open spec fn texts_view(s: Seq<String>) -> Seq<Seq<char>> {
    s.map_values(|x: String| x@)
}

/// A line is blank when trimming leaves nothing of it.
pub open spec fn blank(s: Seq<char>) -> bool {
    trim_spec(s).len() == 0
}

/// The non-blank lines among `ls[from..to]`, each trimmed and numbered
/// after its position.
pub open spec fn rows_spec(ls: Seq<Seq<char>>, from: int, to: int) -> Seq<RowV>
    decreases to - from,
{
    if from >= to {
        Seq::empty()
    } else {
        (if !blank(ls[from]) {
            seq![RowV { number: (from + 1) as u32, content: trim_spec(ls[from]) }]
        } else {
            Seq::empty()
        }) + rows_spec(ls, from + 1, to)
    }
}

proof fn lemma_rows_snoc(ls: Seq<Seq<char>>, from: int, to: int)
    requires
        from <= to,
    ensures
        rows_spec(ls, from, to + 1) == rows_spec(ls, from, to) + (if !blank(ls[to]) {
            seq![RowV { number: (to + 1) as u32, content: trim_spec(ls[to]) }]
        } else {
            Seq::<RowV>::empty()
        }),
    decreases to - from,
{
    if from == to {
        assert(rows_spec(ls, from, to) =~= Seq::<RowV>::empty());
        assert(rows_spec(ls, to + 1, to + 1) =~= Seq::<RowV>::empty());
        assert(rows_spec(ls, from, to + 1) =~= rows_spec(ls, from, to) + (if !blank(ls[to]) {
            seq![RowV { number: (to + 1) as u32, content: trim_spec(ls[to]) }]
        } else {
            Seq::<RowV>::empty()
        }));
    } else {
        lemma_rows_snoc(ls, from + 1, to);
        assert(rows_spec(ls, from, to + 1) =~= rows_spec(ls, from, to) + (if !blank(ls[to]) {
            seq![RowV { number: (to + 1) as u32, content: trim_spec(ls[to]) }]
        } else {
            Seq::<RowV>::empty()
        }));
    }
}

/// The context shown for one comment: up to three lines above its target
/// line, blanks left out, and the target line itself where it exists and
/// is not blank.
pub struct CommentContext {
    /// The context lines above the target, in source order.
    pub before: Vec<SummaryRow>,
    /// The target line, where it exists and is not blank.
    pub target: Option<SummaryRow>,
}

/// What the context of a comment on line `n` of the lines `ls` holds.
pub open spec fn context_ok(cx: CommentContext, ls: Seq<Seq<char>>, n: u32) -> bool {
    let idx: int = if n == 0 {
        0
    } else {
        n - 1
    };
    let from: int = if idx >= 3 {
        idx - 3
    } else {
        0
    };
    let to: int = if idx <= ls.len() {
        idx
    } else {
        ls.len() as int
    };
    &&& rows_view(cx.before@) == rows_spec(ls, from, to)
    &&& (match cx.target {
        Some(row) => idx < ls.len() && !blank(ls[idx]) && row@.number == n && row@.content
            == trim_spec(ls[idx]),
        None => idx >= ls.len() || blank(ls[idx]),
    })
}

/// Assemble the context shown for a comment on line `n` of a file's lines.
pub fn comment_context(lines: &Vec<String>, n: u32) -> (r: CommentContext)
    ensures
        context_ok(r, texts_view(lines@), n),
{
    let ghost ls = texts_view(lines@);
    let idx: usize = if n == 0 {
        0
    } else {
        (n - 1) as usize
    };
    let from: usize = if idx >= 3 {
        idx - 3
    } else {
        0
    };
    let to: usize = if idx <= lines.len() {
        idx
    } else {
        lines.len()
    };
    let mut before: Vec<SummaryRow> = Vec::new();
    proof {
        assert(rows_view(before@) =~= Seq::<RowV>::empty());
        assert(rows_spec(ls, from as int, from as int) =~= Seq::<RowV>::empty());
    }
    if from < to {
        let mut i: usize = from;
        while i < to
            invariant
                from <= i <= to,
                to <= lines@.len(),
                to <= idx,
                idx < 0x1_0000_0000,
                ls == texts_view(lines@),
                rows_view(before@) == rows_spec(ls, from as int, i as int),
            decreases to - i,
        {
            let t = trim(lines[i].as_str());
            proof {
                assert(ls[i as int] == lines@[i as int]@);
                lemma_rows_snoc(ls, from as int, i as int);
            }
            if !t.as_str().is_empty() {
                let ghost b0 = before@;
                before.push(SummaryRow { number: (i + 1) as u32, content: t });
                proof {
                    assert(rows_view(before@) =~= rows_view(b0).push(before@.last()@));
                    assert(rows_view(before@) =~= rows_spec(ls, from as int, i + 1));
                }
            } else {
                proof {
                    assert(rows_view(before@) + Seq::<RowV>::empty() =~= rows_view(before@));
                }
            }
            i = i + 1;
        }
    }
    let target: Option<SummaryRow> = if idx < lines.len() {
        let t = trim(lines[idx].as_str());
        proof {
            assert(ls[idx as int] == lines@[idx as int]@);
        }
        if !t.as_str().is_empty() {
            Some(SummaryRow { number: n, content: t })
        } else {
            None
        }
    } else {
        None
    };
    CommentContext { before, target }
}

/// The grouping key of a comment: the file it targets, or none.
pub open spec fn key_of(c: Comment) -> Option<Seq<char>> {
    match c.file {
        Some(f) => Some(f@),
        None => None,
    }
}

/// The spec-level picture of a group's file key.
pub open spec fn key_view(f: Option<String>) -> Option<Seq<char>> {
    match f {
        Some(s) => Some(s@),
        None => None,
    }
}

/// The distinct grouping keys of the comments, in first-appearance order.
pub open spec fn distinct_keys_of(cs: Seq<Comment>) -> Seq<Option<Seq<char>>>
    decreases cs.len(),
{
    if cs.len() == 0 {
        Seq::empty()
    } else {
        let pre = distinct_keys_of(cs.drop_last());
        if pre.contains(key_of(cs.last())) {
            pre
        } else {
            pre.push(key_of(cs.last()))
        }
    }
}

/// The comments carrying the key, in their session order.
pub open spec fn with_key(cs: Seq<Comment>, k: Option<Seq<char>>) -> Seq<Comment>
    decreases cs.len(),
{
    if cs.len() == 0 {
        Seq::empty()
    } else {
        with_key(cs.drop_last(), k) + (if key_of(cs.last()) == k {
            seq![cs.last()]
        } else {
            Seq::empty()
        })
    }
}

/// One comment of the summary with the context of its target line, where
/// one is known.
pub struct SummaryEntry {
    pub comment: Comment,
    pub context: Option<CommentContext>,
}

/// The comments that a sequence of summary entries carries.
pub open spec fn comments_of_entries(es: Seq<SummaryEntry>) -> Seq<Comment> {
    es.map_values(|e: SummaryEntry| e.comment)
}

/// What the context attached to one summary entry holds: the rows around
/// the target line of the file the comment names, where the contents of
/// that file are known.
pub open spec fn entry_context_ok(e: SummaryEntry, contents: Seq<(String, Vec<String>)>) -> bool {
    match (e.comment.file, e.comment.line) {
        (Some(f), Some(n)) => {
            let i = find_pair(contents, f@);
            if i >= 0 {
                e.context matches Some(cx) && context_ok(cx, texts_view(contents[i].1@), n)
            } else {
                e.context is None
            }
        },
        _ => e.context is None,
    }
}

/// The comments on one file, or the file-less comments, in session order.
pub struct SummaryGroup {
    /// The file the group's comments target, or none for the whole-review
    /// comments.
    pub file: Option<String>,
    /// The group's comments, in session order.
    pub comments: Vec<SummaryEntry>,
}

/// The grouping keys of the summary's groups.
pub open spec fn keys_of_groups(gs: Seq<SummaryGroup>) -> Seq<Option<Seq<char>>> {
    gs.map_values(|g: SummaryGroup| key_view(g.file))
}

/// The whole summary: the groups in first-appearance order of their keys,
/// and the total count of comments.
pub struct SummaryReport {
    pub groups: Vec<SummaryGroup>,
    pub total: usize,
}

/// Whether the keys of the groups are pairwise distinct.
pub open spec fn distinct_group_keys(gs: Seq<SummaryGroup>) -> bool {
    forall|i: int, j: int|
        0 <= i < j < gs.len() ==> key_view(gs[i].file) != key_view(gs[j].file)
}

/// Whether two group keys are the same.
fn key_eq(a: &Option<String>, b: &Option<String>) -> (r: bool)
    ensures
        r == (key_view(*a) == key_view(*b)),
{
    match (a, b) {
        (None, None) => true,
        (Some(x), Some(y)) => str_eq(x.as_str(), y.as_str()),
        (Some(x), None) => false,
        (None, Some(y)) => false,
    }
}

/// Find the group carrying the key.
fn find_group(gs: &Vec<SummaryGroup>, k: &Option<String>) -> (r: Option<usize>)
    ensures
        match r {
            Some(i) => 0 <= i < gs@.len() && key_view(gs@[i as int].file) == key_view(*k),
            None => forall|j: int| 0 <= j < gs@.len() ==> key_view(gs@[j].file) != key_view(*k),
        },
{
    let mut i: usize = 0;
    while i < gs.len()
        invariant
            i <= gs@.len(),
            forall|j: int| 0 <= j < i ==> key_view(gs@[j].file) != key_view(*k),
        decreases gs@.len() - i,
    {
        if key_eq(&gs[i].file, k) {
            return Some(i);
        }
        i = i + 1;
    }
    None
}

/// Build the structured summary of a finished session: its comments
/// grouped by file in first-appearance order, each with the context of its
/// target line where the file's contents are known.
pub fn build_summary(data: &ReviewData, contents: &Vec<(String, Vec<String>)>) -> (r:
    SummaryReport)
    ensures
        r.total == data.comments@.len(),
        keys_of_groups(r.groups@) == distinct_keys_of(data.comments@),
        distinct_group_keys(r.groups@),
        forall|gi: int|
            0 <= gi < r.groups@.len() ==> comments_of_entries(
                (#[trigger] r.groups@[gi]).comments@,
            ) == with_key(data.comments@, key_view(r.groups@[gi].file)),
        forall|gi: int, ei: int|
            0 <= gi < r.groups@.len() && 0 <= ei < r.groups@[gi].comments@.len()
                ==> entry_context_ok(#[trigger] r.groups@[gi].comments@[ei], contents@),
{
    let ghost cs = data.comments@;
    let mut groups: Vec<SummaryGroup> = Vec::new();
    let mut ci: usize = 0;
    proof {
        assert(cs.take(0) =~= Seq::<Comment>::empty());
        assert(keys_of_groups(groups@) =~= Seq::<Option<Seq<char>>>::empty());
    }
    while ci < data.comments.len()
        invariant
            ci <= cs.len(),
            cs == data.comments@,
            keys_of_groups(groups@) == distinct_keys_of(cs.take(ci as int)),
            distinct_group_keys(groups@),
            forall|gi: int|
                0 <= gi < groups@.len() ==> comments_of_entries(
                    (#[trigger] groups@[gi]).comments@,
                ) == with_key(cs.take(ci as int), key_view(groups@[gi].file)),
            forall|gi: int, ei: int|
                0 <= gi < groups@.len() && 0 <= ei < groups@[gi].comments@.len()
                    ==> entry_context_ok(#[trigger] groups@[gi].comments@[ei], contents@),
        decreases cs.len() - ci,
    {
        let c = data.comments[ci].clone();
        proof {
            assert(c == cs[ci as int]);
            assert(cs.take(ci + 1).drop_last() =~= cs.take(ci as int));
            assert(cs.take(ci + 1).last() == cs[ci as int]);
        }
        let context: Option<CommentContext> = match (&c.file, c.line) {
            (Some(f), Some(n)) => {
                match find_pair_index(contents, f.as_str()) {
                    Some(pi) => Some(comment_context(&contents[pi].1, n)),
                    None => None,
                }
            },
            _ => None,
        };
        let entry = SummaryEntry { comment: c, context };
        proof {
            assert(entry_context_ok(entry, contents@));
        }
        let ghost k = key_of(cs[ci as int]);
        let ghost gs0 = groups@;
        match find_group(&groups, &entry.comment.file) {
            Some(gi) => {
                proof {
                    assert(key_view(gs0[gi as int].file) == k);
                    assert(keys_of_groups(gs0)[gi as int] == k);
                    assert(keys_of_groups(gs0).contains(k));
                }
                let mut g = groups.remove(gi);
                let ghost g0 = g;
                g.comments.push(entry);
                groups.insert(gi, g);
                proof {
                    assert(groups@ =~= gs0.update(gi as int, g));
                    assert(keys_of_groups(groups@) =~= keys_of_groups(gs0));
                    assert(distinct_keys_of(cs.take(ci + 1)) == distinct_keys_of(
                        cs.take(ci as int),
                    ));
                    assert forall|x: int|
                        0 <= x < groups@.len() implies comments_of_entries(
                        (#[trigger] groups@[x]).comments@,
                    ) == with_key(cs.take(ci + 1), key_view(groups@[x].file)) by {
                        if x == gi {
                            assert(comments_of_entries(g.comments@) =~= comments_of_entries(
                                g0.comments@,
                            ).push(entry.comment));
                            assert(with_key(cs.take(ci + 1), k) =~= with_key(
                                cs.take(ci as int),
                                k,
                            ) + seq![cs[ci as int]]);
                        } else {
                            assert(groups@[x] == gs0[x]);
                            assert(key_view(gs0[x].file) != k);
                            assert(with_key(cs.take(ci + 1), key_view(gs0[x].file)) =~= with_key(
                                cs.take(ci as int),
                                key_view(gs0[x].file),
                            ));
                        }
                    }
                    assert forall|gi2: int, ei: int|
                        0 <= gi2 < groups@.len() && 0 <= ei
                            < groups@[gi2].comments@.len() implies entry_context_ok(
                        #[trigger] groups@[gi2].comments@[ei],
                        contents@,
                    ) by {
                        if gi2 == gi {
                            if ei < g0.comments@.len() {
                                assert(groups@[gi2].comments@[ei] == g0.comments@[ei]);
                                assert(gs0[gi as int] == g0);
                            } else {
                                assert(groups@[gi2].comments@[ei] == entry);
                            }
                        } else {
                            assert(groups@[gi2] == gs0[gi2]);
                        }
                    }
                }
            },
            None => {
                proof {
                    assert forall|x: int|
                        0 <= x < keys_of_groups(gs0).len() implies keys_of_groups(gs0)[x]
                        != k by {
                        assert(keys_of_groups(gs0)[x] == key_view(gs0[x].file));
                    }
                    assert(!keys_of_groups(gs0).contains(k));
                }
                let file_key: Option<String> = match &entry.comment.file {
                    Some(f) => Some(f.clone()),
                    None => None,
                };
                let mut newcs: Vec<SummaryEntry> = Vec::new();
                newcs.push(entry);
                let g = SummaryGroup { file: file_key, comments: newcs };
                proof {
                    assert(key_view(g.file) == k);
                }
                groups.push(g);
                proof {
                    assert(keys_of_groups(groups@) =~= keys_of_groups(gs0).push(k));
                    assert(distinct_keys_of(cs.take(ci + 1)) == distinct_keys_of(
                        cs.take(ci as int),
                    ).push(k));
                    assert forall|i2: int, j2: int|
                        0 <= i2 < j2 < groups@.len() implies key_view(groups@[i2].file)
                        != key_view(groups@[j2].file) by {
                        if j2 < gs0.len() {
                            assert(groups@[i2] == gs0[i2]);
                            assert(groups@[j2] == gs0[j2]);
                        } else {
                            assert(groups@[i2] == gs0[i2]);
                            assert(keys_of_groups(gs0)[i2] == key_view(gs0[i2].file));
                        }
                    }
                    assert forall|x: int|
                        0 <= x < groups@.len() implies comments_of_entries(
                        (#[trigger] groups@[x]).comments@,
                    ) == with_key(cs.take(ci + 1), key_view(groups@[x].file)) by {
                        if x < gs0.len() {
                            assert(groups@[x] == gs0[x]);
                            assert(key_view(gs0[x].file) != k);
                            assert(with_key(cs.take(ci + 1), key_view(gs0[x].file)) =~= with_key(
                                cs.take(ci as int),
                                key_view(gs0[x].file),
                            ));
                        } else {
                            assert(groups@[x] == g);
                            assert(comments_of_entries(g.comments@) =~= seq![cs[ci as int]]);
                            lemma_with_key_absent(cs.take(ci as int), k);
                            assert(with_key(cs.take(ci + 1), k) =~= with_key(
                                cs.take(ci as int),
                                k,
                            ) + seq![cs[ci as int]]);
                            assert(with_key(cs.take(ci + 1), k) =~= seq![cs[ci as int]]);
                        }
                    }
                    assert forall|gi2: int, ei: int|
                        0 <= gi2 < groups@.len() && 0 <= ei
                            < groups@[gi2].comments@.len() implies entry_context_ok(
                        #[trigger] groups@[gi2].comments@[ei],
                        contents@,
                    ) by {
                        if gi2 < gs0.len() {
                            assert(groups@[gi2] == gs0[gi2]);
                        } else {
                            assert(groups@[gi2].comments@[ei] == g.comments@[0]);
                        }
                    }
                }
            },
        }
        ci = ci + 1;
    }
    proof {
        assert(cs.take(cs.len() as int) =~= cs);
    }
    SummaryReport { groups, total: data.comments.len() }
}

/// A key that appears in no comment of the sequence selects nothing.
proof fn lemma_with_key_absent(cs: Seq<Comment>, k: Option<Seq<char>>)
    requires
        !distinct_keys_of(cs).contains(k),
    ensures
        with_key(cs, k) == Seq::<Comment>::empty(),
    decreases cs.len(),
{
    if cs.len() == 0 {
        assert(with_key(cs, k) =~= Seq::<Comment>::empty());
    } else {
        let pre = distinct_keys_of(cs.drop_last());
        let dk = distinct_keys_of(cs);
        if key_of(cs.last()) == k {
            if pre.contains(key_of(cs.last())) {
                let x = choose|x: int| 0 <= x < pre.len() && pre[x] == key_of(cs.last());
                assert(dk[x] == k);
                assert(dk.contains(k));
            } else {
                assert(dk[dk.len() - 1] == k);
                assert(dk.contains(k));
            }
            assert(false);
        }
        if pre.contains(k) {
            let x = choose|x: int| 0 <= x < pre.len() && pre[x] == k;
            assert(dk[x] == k);
            assert(dk.contains(k));
            assert(false);
        }
        lemma_with_key_absent(cs.drop_last(), k);
        assert(with_key(cs, k) =~= Seq::<Comment>::empty());
    }
}

} // verus!
