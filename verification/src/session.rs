//! The review session store: creation of the one session record, the four
//! comment operations, completion, and the one-shot gate that hands the
//! final snapshot to the waiting caller.

use vstd::prelude::*;

use crate::models::{
    distinct_ids, session_like, AppError, Comment, CompletionResponse, DataResponse, FileData,
    InputType, ReviewData, ReviewStatus,
};
use crate::strutil::str_eq;

verus! {

/// Relies on uuid::Uuid::new_v4 and its hyphenated rendering: a random
/// 128-bit id shown as 36 ASCII characters. Nothing but the length is
/// assumed of the value.
#[verifier::external_body]
fn fresh_comment_id() -> (r: String)
    ensures
        r@.len() == 36,
{
    uuid::Uuid::new_v4().to_string()
}

/// Relies on chrono::Utc::now: the clock reading at the call, in
/// milliseconds since the Unix epoch. Nothing is assumed of the value.
#[verifier::external_body]
fn now_timestamp_millis() -> (r: i64) {
    chrono::Utc::now().timestamp_millis()
}

impl Comment {
    /// A fresh comment on the given target, under a newly drawn id and the
    /// current time.
    pub fn new(file: Option<String>, line: Option<u32>, text: String) -> (c: Comment)
        ensures
            c.file == file,
            c.line == line,
            c.text == text,
            c.id@.len() == 36,
    {
        let id = fresh_comment_id();
        let created_at = now_timestamp_millis();
        Comment { id, file, line, text, created_at }
    }
}

/// Whether some comment carries the id.
pub open spec fn id_present(cs: Seq<Comment>, id: Seq<char>) -> bool {
    exists|i: int| 0 <= i < cs.len() && cs[i].id@ == id
}

/// Index of the first comment carrying the id, or -1 when there is none.
pub open spec fn find_id(cs: Seq<Comment>, id: Seq<char>) -> int
    decreases cs.len(),
{
    if cs.len() == 0 {
        -1
    } else if cs[0].id@ == id {
        0
    } else {
        let r = find_id(cs.drop_first(), id);
        if r == -1 {
            -1
        } else {
            r + 1
        }
    }
}

/// What `find_id` returns: -1 exactly when the id is absent, and otherwise
/// the first index carrying it.
pub proof fn lemma_find_id(cs: Seq<Comment>, id: Seq<char>)
    ensures
        find_id(cs, id) == -1 ==> !id_present(cs, id),
        find_id(cs, id) != -1 ==> {
            let k = find_id(cs, id);
            &&& 0 <= k < cs.len()
            &&& cs[k].id@ == id
            &&& forall|i: int| 0 <= i < k ==> cs[i].id@ != id
        },
    decreases cs.len(),
{
    if cs.len() == 0 {
    } else if cs[0].id@ == id {
    } else {
        lemma_find_id(cs.drop_first(), id);
        let r = find_id(cs.drop_first(), id);
        if r == -1 {
            assert forall|i: int| 0 <= i < cs.len() implies cs[i].id@ != id by {
                if i > 0 {
                    assert(cs[i] == cs.drop_first()[i - 1]);
                }
            }
        } else {
            assert(cs[r + 1] == cs.drop_first()[r]);
            assert forall|i: int| 0 <= i < r + 1 implies cs[i].id@ != id by {
                if i > 0 {
                    assert(cs[i] == cs.drop_first()[i - 1]);
                }
            }
        }
    }
}

/// The first index carrying the id is what `find_id` returns.
pub proof fn lemma_find_id_is(cs: Seq<Comment>, id: Seq<char>, k: int)
    requires
        0 <= k < cs.len(),
        cs[k].id@ == id,
        forall|i: int| 0 <= i < k ==> cs[i].id@ != id,
    ensures
        find_id(cs, id) == k,
    decreases cs.len(),
{
    if k == 0 {
    } else {
        assert(cs[0].id@ != id);
        lemma_find_id_is(cs.drop_first(), id, k - 1);
    }
}

/// Find the first comment carrying the id.
fn find_comment(cs: &Vec<Comment>, id: &str) -> (r: Option<usize>)
    ensures
        match r {
            Some(i) => 0 <= i < cs@.len() && find_id(cs@, id@) == i,
            None => find_id(cs@, id@) == -1,
        },
{
    let mut i: usize = 0;
    while i < cs.len()
        invariant
            i <= cs@.len(),
            forall|j: int| 0 <= j < i ==> cs@[j].id@ != id@,
        decreases cs@.len() - i,
    {
        if str_eq(cs[i].id.as_str(), id) {
            proof {
                lemma_find_id_is(cs@, id@, i as int);
            }
            return Some(i);
        }
        i = i + 1;
    }
    proof {
        lemma_find_id(cs@, id@);
        if find_id(cs@, id@) != -1 {
            assert(cs@[find_id(cs@, id@)].id@ == id@);
        }
    }
    None
}

/// An id length no comment's id exceeds.
fn max_id_len(cs: &Vec<Comment>) -> (m: usize)
    ensures
        forall|j: int| 0 <= j < cs@.len() ==> cs@[j].id@.len() <= m,
{
    let mut m: usize = 0;
    let mut i: usize = 0;
    while i < cs.len()
        invariant
            i <= cs@.len(),
            forall|j: int| 0 <= j < i ==> cs@[j].id@.len() <= m,
        decreases cs@.len() - i,
    {
        let l = cs[i].id.as_str().unicode_len();
        if l > m {
            m = l;
        }
        i = i + 1;
    }
    m
}

/// Extend `base` until it is longer than every present id, which makes it
/// distinct from all of them.
fn lengthen_beyond(cs: &Vec<Comment>, base: String) -> (r: String)
    ensures
        !id_present(cs@, r@),
        r@.len() > 0,
{
    let m = max_id_len(cs);
    let mut id = base;
    while id.as_str().unicode_len() <= m
        invariant
            forall|j: int| 0 <= j < cs@.len() ==> cs@[j].id@.len() <= m,
        decreases m + 1 - id@.len(),
    {
        proof {
            reveal_strlit("x");
        }
        id.append("x");
    }
    proof {
        assert forall|i: int| 0 <= i < cs@.len() implies cs@[i].id@ != id@ by {
            assert(cs@[i].id@.len() <= m);
        }
    }
    id
}

/// Create the one session record of a run, titled after its subject, with
/// no comments and the review open.
pub fn new_session(input_type: InputType) -> (r: ReviewData)
    ensures
        r.input_type == input_type,
        r.input@ == input_type.spec_display_title(),
        r.comments@ == Seq::<Comment>::empty(),
        r.status == ReviewStatus::InProgress,
        r.wf(),
{
    let input = input_type.display_title();
    let created_at = now_timestamp_millis();
    ReviewData { input_type, input, comments: Vec::new(), created_at, status: ReviewStatus::InProgress }
}

/// Append a fresh comment: it gets an id no present comment carries, the
/// given target and text, and the session keeps everything else.
pub fn add_comment(
    data: &mut ReviewData,
    file: Option<String>,
    line: Option<u32>,
    text: String,
) -> (c: Comment)
    requires
        old(data).wf(),
    ensures
        final(data).wf(),
        final(data).comments@ == old(data).comments@.push(c),
        c.id@.len() > 0,
        !id_present(old(data).comments@, c.id@),
        c.file == file,
        c.line == line,
        c.text == text,
        final(data).input_type == old(data).input_type,
        final(data).input == old(data).input,
        final(data).created_at == old(data).created_at,
        final(data).status == old(data).status,
{
    let mut id = fresh_comment_id();
    match find_comment(&data.comments, id.as_str()) {
        Some(_) => {
            id = lengthen_beyond(&data.comments, id);
        },
        None => {
            proof {
                lemma_find_id(data.comments@, id@);
            }
        },
    }
    let created_at = now_timestamp_millis();
    let c = Comment { id, file, line, text, created_at };
    let ret = c.clone();
    let ghost pre = data.comments@;
    data.comments.push(c);
    proof {
        assert(ret == data.comments@.last());
        assert forall|i: int, j: int|
            0 <= i < j < data.comments@.len() implies data.comments@[i].id@
            != data.comments@[j].id@ by {
            if j < pre.len() {
                assert(data.comments@[i] == pre[i]);
                assert(data.comments@[j] == pre[j]);
            } else {
                assert(data.comments@[i] == pre[i]);
            }
        }
    }
    ret
}

/// How many comments carry the id.
pub open spec fn count_with_id(cs: Seq<Comment>, id: Seq<char>) -> nat
    decreases cs.len(),
{
    if cs.len() == 0 {
        0
    } else {
        (if cs.last().id@ == id {
            1nat
        } else {
            0nat
        }) + count_with_id(cs.drop_last(), id)
    }
}

/// An absent id has count zero.
pub proof fn lemma_count_absent(cs: Seq<Comment>, id: Seq<char>)
    requires
        !id_present(cs, id),
    ensures
        count_with_id(cs, id) == 0,
    decreases cs.len(),
{
    if cs.len() == 0 {
    } else {
        assert(forall|i: int| 0 <= i < cs.len() ==> cs[i].id@ != id);
        assert forall|i: int| 0 <= i < cs.drop_last().len() implies cs.drop_last()[i].id@
            != id by {
            assert(cs.drop_last()[i] == cs[i]);
        }
        lemma_count_absent(cs.drop_last(), id);
    }
}

/// Law: a comment appended under a fresh id is seen exactly once by a
/// following read, and the ids stay pairwise distinct.
pub proof fn lemma_append_then_read(pre: Seq<Comment>, c: Comment)
    requires
        distinct_ids(pre),
        !id_present(pre, c.id@),
        c.id@.len() > 0,
    ensures
        count_with_id(pre.push(c), c.id@) == 1,
        distinct_ids(pre.push(c)),
{
    assert(pre.push(c).last() == c);
    assert(pre.push(c).drop_last() =~= pre);
    lemma_count_absent(pre, c.id@);
    assert forall|i: int, j: int|
        0 <= i < j < pre.push(c).len() implies pre.push(c)[i].id@ != pre.push(c)[j].id@ by {
        if j < pre.len() {
            assert(pre.push(c)[i] == pre[i]);
            assert(pre.push(c)[j] == pre[j]);
        } else {
            assert(pre.push(c)[i] == pre[i]);
        }
    }
}

/// Replace the text of the comment carrying the id, or report that no
/// comment does; everything else of the session is kept either way.
pub fn update_comment(data: &mut ReviewData, id: &str, new_text: Option<String>) -> (r: Result<
    Comment,
    AppError,
>)
    requires
        old(data).wf(),
    ensures
        final(data).wf(),
        final(data).input_type == old(data).input_type,
        final(data).input == old(data).input,
        final(data).created_at == old(data).created_at,
        final(data).status == old(data).status,
        match r {
            Ok(c) => {
                let i = find_id(old(data).comments@, id@);
                &&& i >= 0
                &&& final(data).comments@ == old(data).comments@.update(i, c)
                &&& c.id == old(data).comments@[i].id
                &&& c.file == old(data).comments@[i].file
                &&& c.line == old(data).comments@[i].line
                &&& c.created_at == old(data).comments@[i].created_at
                &&& c.text == (match new_text {
                    Some(t) => t,
                    None => old(data).comments@[i].text,
                })
            },
            Err(e) => {
                &&& find_id(old(data).comments@, id@) == -1
                &&& *final(data) == *old(data)
                &&& (e matches AppError::CommentNotFound(s) && s@ == id@)
            },
        },
{
    let ghost pre = data.comments@;
    match find_comment(&data.comments, id) {
        Some(i) => {
            proof {
                lemma_find_id(pre, id@);
            }
            let mut c = data.comments.remove(i);
            match new_text {
                Some(t) => {
                    c.text = t;
                },
                None => {},
            }
            let ret = c.clone();
            data.comments.insert(i, c);
            proof {
                assert(data.comments@ =~= pre.update(i as int, ret));
                assert forall|x: int, y: int|
                    0 <= x < y < data.comments@.len() implies data.comments@[x].id@
                    != data.comments@[y].id@ by {
                    assert(data.comments@[x].id == pre[x].id);
                    assert(data.comments@[y].id == pre[y].id);
                }
            }
            Ok(ret)
        },
        None => Err(AppError::CommentNotFound(id.to_owned())),
    }
}

/// Remove the comment carrying the id, or report that no comment does; a
/// removed id is gone from every following read.
pub fn remove_comment(data: &mut ReviewData, id: &str) -> (r: Result<(), AppError>)
    requires
        old(data).wf(),
    ensures
        final(data).wf(),
        final(data).input_type == old(data).input_type,
        final(data).input == old(data).input,
        final(data).created_at == old(data).created_at,
        final(data).status == old(data).status,
        match r {
            Ok(_) => {
                let i = find_id(old(data).comments@, id@);
                &&& i >= 0
                &&& final(data).comments@ == old(data).comments@.remove(i)
                &&& final(data).comments@.len() == old(data).comments@.len() - 1
                &&& !id_present(final(data).comments@, id@)
            },
            Err(e) => {
                &&& find_id(old(data).comments@, id@) == -1
                &&& *final(data) == *old(data)
                &&& (e matches AppError::CommentNotFound(s) && s@ == id@)
            },
        },
{
    let ghost pre = data.comments@;
    match find_comment(&data.comments, id) {
        Some(i) => {
            proof {
                lemma_find_id(pre, id@);
            }
            let _ = data.comments.remove(i);
            proof {
                let cur = data.comments@;
                assert forall|x: int, y: int|
                    0 <= x < y < cur.len() implies cur[x].id@ != cur[y].id@ by {
                    lemma_remove_index(pre, i as int, x);
                    lemma_remove_index(pre, i as int, y);
                }
                assert forall|x: int| 0 <= x < cur.len() implies cur[x].id@ != id@ by {
                    lemma_remove_index(pre, i as int, x);
                    assert(pre[i as int].id@ == id@);
                }
            }
            Ok(())
        },
        None => Err(AppError::CommentNotFound(id.to_owned())),
    }
}

/// An element of a sequence with one index removed is an element of the
/// original, at the same or the following index.
proof fn lemma_remove_index(s: Seq<Comment>, i: int, x: int)
    requires
        0 <= i < s.len(),
        0 <= x < s.len() - 1,
    ensures
        s.remove(i)[x] == (if x < i {
            s[x]
        } else {
            s[x + 1]
        }),
{
}

/// What one publish does to the slot: the first publish fills it, a later
/// one changes nothing.
pub open spec fn publish_spec(slot: Option<ReviewData>, snap: ReviewData) -> Option<ReviewData> {
    match slot {
        Some(p) => Some(p),
        None => Some(snap),
    }
}

/// The one-shot slot that carries the final session snapshot to the
/// waiting caller.
pub struct CompletionGate {
    /// The snapshot of the first publish, once one happened.
    pub published: Option<ReviewData>,
}

impl CompletionGate {
    /// A gate that nothing was published to yet.
    pub fn new() -> (r: Self)
        ensures
            r.published is None,
    {
        CompletionGate { published: None }
    }

    /// Publish a snapshot; the first publish wins and later ones are
    /// discarded.
    pub fn publish(&mut self, snap: ReviewData)
        ensures
            final(self).published == publish_spec(old(self).published, snap),
    {
        match &self.published {
            Some(_) => {},
            None => {
                self.published = Some(snap);
            },
        }
    }

    /// The published snapshot; asking before any publish is the bypassed
    /// handshake, reported as a failure.
    pub fn snapshot(&self) -> (r: Result<ReviewData, AppError>)
        ensures
            match self.published {
                Some(p) => r matches Ok(s) && session_like(s, p),
                None => (r matches Err(e) && e matches AppError::Internal(m) && m@
                    == "Final data not available"@),
            },
    {
        match &self.published {
            Some(p) => Ok(p.clone()),
            None => Err(AppError::Internal(String::from_str("Final data not available"))),
        }
    }
}

/// Law: of two publishes in a row into a fresh gate, the first snapshot is
/// the one the slot keeps.
pub proof fn lemma_first_publish_wins(s1: ReviewData, s2: ReviewData)
    ensures
        publish_spec(publish_spec(None, s1), s2) == Some(s1),
{
}

/// Mark the review completed and publish a snapshot of the session as it
/// stands; the response counts the live store's comments.
pub fn complete_review(data: &mut ReviewData, gate: &mut CompletionGate) -> (r: CompletionResponse)
    ensures
        final(data).status == ReviewStatus::Completed,
        final(data).comments@ == old(data).comments@,
        final(data).input_type == old(data).input_type,
        final(data).input == old(data).input,
        final(data).created_at == old(data).created_at,
        r.comment_count == final(data).comments@.len(),
        r.message@ == "Review completed"@,
        (old(gate).published is Some ==> final(gate).published == old(gate).published),
        (old(gate).published is None ==> (final(gate).published matches Some(p) && session_like(
            p,
            *final(data),
        ))),
{
    data.status = ReviewStatus::Completed;
    let snap = data.clone();
    gate.publish(snap);
    let count = data.comments.len();
    CompletionResponse { message: String::from_str("Review completed"), comment_count: count }
}

/// Assemble the payload of a data request from the session and the freshly
/// regenerated file view.
pub fn build_data_response(data: &ReviewData, files: Vec<FileData>) -> (r: DataResponse)
    ensures
        r.input_type == data.input_type,
        r.files@ == files@,
        r.comments@ == data.comments@,
{
    let comments = data.comments.clone();
    proof {
        assert forall|i: int| 0 <= i < data.comments@.len() implies comments@[i]
            == data.comments@[i] by {
            assert(cloned::<Comment>(data.comments@[i], comments@[i]));
        }
        assert(comments@ =~= data.comments@);
    }
    DataResponse { input_type: data.input_type.clone(), files, comments }
}

} // verus!
