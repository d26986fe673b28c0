//! The data model of a review: the subject under review, the classified
//! diff lines of its file view, the comments, and the session record that
//! holds them.

use vstd::prelude::*;

verus! {

/// The subject under review: one commit, one plain file, or the changes in
/// the working tree.
pub enum InputType {
    /// Review the diff introduced by one commit.
    CommitDiff { commit: String },
    /// Review the content of one file as it stands.
    FileContent { path: String },
    /// Review the staged and unstaged changes of the working tree.
    WorkingTreeDiff,
}

impl InputType {
    /// The title shown for this subject.
    pub open spec fn spec_display_title(&self) -> Seq<char> {
        match self {
            InputType::CommitDiff { commit } => "Commit: "@ + commit@,
            InputType::FileContent { path } => "File: "@ + path@,
            InputType::WorkingTreeDiff => "Current Changes"@,
        }
    }

    /// Render the title shown for this subject.
    pub fn display_title(&self) -> (r: String)
        ensures
            r@ == self.spec_display_title(),
    {
        match self {
            InputType::CommitDiff { commit } => String::from_str("Commit: ").concat(
                commit.as_str(),
            ),
            InputType::FileContent { path } => String::from_str("File: ").concat(path.as_str()),
            InputType::WorkingTreeDiff => String::from_str("Current Changes"),
        }
    }
}

impl Clone for InputType {
    fn clone(&self) -> (r: Self)
        ensures
            r == *self,
    {
        match self {
            InputType::CommitDiff { commit } => InputType::CommitDiff { commit: commit.clone() },
            InputType::FileContent { path } => InputType::FileContent { path: path.clone() },
            InputType::WorkingTreeDiff => InputType::WorkingTreeDiff,
        }
    }
}

/// Whether the review is still open or has been completed.
#[derive(Clone, Copy, PartialEq, Eq, Structural, Debug)]
pub enum ReviewStatus {
    InProgress,
    Completed,
}

/// One comment of the session. `file` and `line` both absent means a
/// comment on the whole review.
pub struct Comment {
    /// Unique id within the session.
    pub id: String,
    /// Path of the file the comment targets, if any.
    pub file: Option<String>,
    /// Line number the comment targets, if any.
    pub line: Option<u32>,
    /// The comment text.
    pub text: String,
    /// Creation time, in milliseconds since the Unix epoch.
    pub created_at: i64,
}

impl Clone for Comment {
    fn clone(&self) -> (r: Self)
        ensures
            r == *self,
    {
        Comment {
            id: self.id.clone(),
            file: match &self.file {
                Some(f) => Some(f.clone()),
                None => None,
            },
            line: self.line,
            text: self.text.clone(),
            created_at: self.created_at,
        }
    }
}

/// No two comments of a session share an id.
pub open spec fn distinct_ids(cs: Seq<Comment>) -> bool {
    forall|i: int, j: int| 0 <= i < j < cs.len() ==> cs[i].id@ != cs[j].id@
}

/// The one review session of a process run.
pub struct ReviewData {
    /// The subject under review.
    pub input_type: InputType,
    /// The title shown for the subject.
    pub input: String,
    /// The comments made so far, in creation order.
    pub comments: Vec<Comment>,
    /// Creation time of the session, in milliseconds since the Unix epoch.
    pub created_at: i64,
    /// Whether the review is still open.
    pub status: ReviewStatus,
}

impl ReviewData {
    /// Session well-formedness: comment ids are pairwise distinct.
    pub open spec fn wf(&self) -> bool {
        distinct_ids(self.comments@)
    }
}

/// Two session records hold the same subject, title, comments, creation time
/// and status. This is equality up to the identity of the comment vector's
/// backing storage.
pub open spec fn session_like(a: ReviewData, b: ReviewData) -> bool {
    &&& a.input_type == b.input_type
    &&& a.input == b.input
    &&& a.comments@ == b.comments@
    &&& a.created_at == b.created_at
    &&& a.status == b.status
}

impl Clone for ReviewData {
    fn clone(&self) -> (r: Self)
        ensures
            session_like(r, *self),
    {
        let comments = self.comments.clone();
        proof {
            assert forall|i: int| 0 <= i < self.comments@.len() implies comments@[i]
                == self.comments@[i] by {
                assert(cloned::<Comment>(self.comments@[i], comments@[i]));
            }
            assert(comments@ =~= self.comments@);
        }
        ReviewData {
            input_type: self.input_type.clone(),
            input: self.input.clone(),
            comments,
            created_at: self.created_at,
            status: self.status,
        }
    }
}

/// One classified diff line. For a removed line `number` addresses the
/// pre-image, otherwise the post-image.
pub struct LineData {
    /// 1-based line number; 0 when the underlying diff gave none.
    pub number: u32,
    /// The line's text with trailing whitespace removed; never empty.
    pub content: String,
    /// `"added"`, `"removed"`, or absent for a context or plain-view line.
    pub kind: Option<String>,
}

impl Clone for LineData {
    fn clone(&self) -> (r: Self)
        ensures
            r == *self,
    {
        LineData {
            number: self.number,
            content: self.content.clone(),
            kind: match &self.kind {
                Some(k) => Some(k.clone()),
                None => None,
            },
        }
    }
}

/// One file touched by the subject, with its classified lines.
pub struct FileData {
    /// The path the lines are keyed under.
    pub path: String,
    /// `"added"`, `"deleted"`, `"modified"` or `"view"`.
    pub status: String,
    /// The classified lines, in diff order.
    pub lines: Vec<LineData>,
}

/// Two file entries hold the same path, status and lines.
pub open spec fn file_like(a: FileData, b: FileData) -> bool {
    &&& a.path == b.path
    &&& a.status == b.status
    &&& a.lines@ == b.lines@
}

impl Clone for FileData {
    fn clone(&self) -> (r: Self)
        ensures
            file_like(r, *self),
    {
        let lines = self.lines.clone();
        proof {
            assert forall|i: int| 0 <= i < self.lines@.len() implies lines@[i]
                == self.lines@[i] by {
                assert(cloned::<LineData>(self.lines@[i], lines@[i]));
            }
            assert(lines@ =~= self.lines@);
        }
        FileData { path: self.path.clone(), status: self.status.clone(), lines }
    }
}

/// The payload answered to a data request: the subject, the regenerated file
/// view, and the comments.
pub struct DataResponse {
    pub input_type: InputType,
    pub files: Vec<FileData>,
    pub comments: Vec<Comment>,
}

/// The fields a caller supplies to create a comment.
pub struct AddCommentRequest {
    pub file: Option<String>,
    pub line: Option<u32>,
    pub text: String,
}

/// The fields a caller supplies to update a comment.
pub struct UpdateCommentRequest {
    pub text: Option<String>,
}

/// The payload answered when the review is marked complete.
pub struct CompletionResponse {
    pub message: String,
    pub comment_count: usize,
}

/// A failure reported to a caller of the review operations.
#[derive(Debug)]
pub enum AppError {
    /// No comment carries the given id.
    CommentNotFound(String),
    /// Any other failure, with its description.
    Internal(String),
}

impl AppError {
    /// The HTTP status code this failure maps to.
    pub fn status_code(&self) -> (r: u16)
        ensures
            self is CommentNotFound ==> r == 404,
            self is Internal ==> r == 500,
    {
        match self {
            AppError::CommentNotFound(_) => 404,
            AppError::Internal(_) => 500,
        }
    }

    /// The message shown for this failure.
    pub open spec fn spec_message(&self) -> Seq<char> {
        match self {
            AppError::CommentNotFound(id) => "Comment not found: "@ + id@,
            AppError::Internal(m) => m@,
        }
    }

    /// Render the message shown for this failure.
    pub fn message(&self) -> (r: String)
        ensures
            r@ == self.spec_message(),
    {
        match self {
            AppError::CommentNotFound(id) => String::from_str("Comment not found: ").concat(
                id.as_str(),
            ),
            AppError::Internal(m) => m.clone(),
        }
    }
}

} // verus!
