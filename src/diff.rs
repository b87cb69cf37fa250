//! Deciding whether two snapshots of a file differ.
//!
//! Unified diffs are given for text files. Following Git's example,
//! non-text binary files can only be detected as differing or the same.
use vstd::prelude::*;
use vstd::slice::slice_to_vec;
use vstd::utf8::{encode_utf8, valid_utf8};

verus! {

/// The number of unchanged lines shown around each change of a text diff.
pub const CONTEXT_RADIUS: usize = 5;

/// The unified diff of `old` against `new` with `radius` lines of context,
/// under the file headers `old_header` and `new_header`.
pub uninterp spec fn unified_diff_of(
    old: Seq<char>,
    new: Seq<char>,
    radius: nat,
    old_header: Seq<char>,
    new_header: Seq<char>,
) -> Seq<char>;

/// Relies on `String::from_utf8`: `Ok` exactly for valid UTF-8, holding that
/// text; otherwise the error hands back the bytes it was given.
#[verifier::external_body]
fn utf8_text(bytes: Vec<u8>) -> (r: Result<String, Vec<u8>>)
    ensures
        r is Ok <==> valid_utf8(bytes@),
        r matches Ok(s) ==> encode_utf8(s@) == bytes@,
        r matches Err(b) ==> b@ == bytes@,
{
    String::from_utf8(bytes).map_err(|e| e.into_bytes())
}

/// Relies on `similar::TextDiff::from_lines` and `iter_all_changes`: some
/// change of the line diff is not `ChangeTag::Equal` exactly when the texts
/// differ, as the line split keeps every character (line ends included).
#[verifier::external_body]
fn lines_changed(old: &str, new: &str) -> (r: bool)
    ensures
        r == (old@ != new@),
{
    let diff = similar::TextDiff::from_lines(old, new);
    !diff.iter_all_changes().all(|change| change.tag() == similar::ChangeTag::Equal)
}

/// Relies on `similar::TextDiff::from_lines` and `unified_diff` with
/// `context_radius` and `header`: the rendering of the line diff. Grouping
/// the changes doubles the radius, so it must not overflow.
#[verifier::external_body]
fn render_unified(old: &str, new: &str, radius: usize, old_header: &str, new_header: &str) -> (r:
    String)
    requires
        radius <= usize::MAX / 2,
    ensures
        r@ == unified_diff_of(old@, new@, radius as nat, old_header@, new_header@),
{
    let diff = similar::TextDiff::from_lines(old, new);
    diff.unified_diff().context_radius(radius).header(old_header, new_header).to_string()
}

/// The content of one side of a comparison.
#[derive(Debug, PartialEq, Eq)]
pub enum FileContent {
    /// Content that is valid UTF-8 text.
    Text(String),
    /// Any other content.
    Binary(Vec<u8>),
    /// The file does not exist.
    Missing,
}

/// How two snapshots differ.
#[derive(Debug, PartialEq, Eq)]
pub enum Diff {
    /// Text content differs. Contains the generated unified diff.
    Text(String),
    /// Binary content differs. Also occurs if a file changes between text and binary formats.
    Binary,
    /// Content is the same, but permissions (as mode bits) differ.
    Permissions(u32, u32),
    /// The left file did not exist, but the right one did.
    LeftNotExists,
    /// The left file existed, but the right one did not.
    RightNotExists,
}

/// The bytes of a snapshot's content (none for a missing file).
pub open spec fn content_bytes(c: FileContent) -> Seq<u8> {
    match c {
        FileContent::Text(s) => encode_utf8(s@),
        FileContent::Binary(b) => b@,
        FileContent::Missing => Seq::empty(),
    }
}

/// Whether `a` and `b` differ at some position that both have.
///
/// Only the common prefix is compared: contents whose sole difference is
/// that one extends the other count as equal here. This gap is kept on
/// purpose, as the intended treatment of a pure length difference is open;
/// a length check would close it.
pub open spec fn differs_in_overlap(a: Seq<u8>, b: Seq<u8>) -> bool {
    exists|k: int| 0 <= k < a.len() && k < b.len() && a[k] != b[k]
}

/// The permission change between two sides, when both exist and their modes differ.
pub open spec fn permission_change(left: Option<u32>, right: Option<u32>) -> Option<Diff> {
    match (left, right) {
        (Some(a), Some(b)) => if a != b {
            Some(Diff::Permissions(a, b))
        } else {
            None
        },
        _ => None,
    }
}

/// The verdict on two snapshots, given `text`: for two texts, their unified
/// diff when some line changed, and `None` when none did.
pub open spec fn verdict(
    left: FileContent,
    left_mode: Option<u32>,
    right: FileContent,
    right_mode: Option<u32>,
    text: Option<String>,
) -> Option<Diff> {
    match (left, right) {
        (FileContent::Missing, FileContent::Missing) => None,
        (FileContent::Missing, _) => Some(Diff::LeftNotExists),
        (_, FileContent::Missing) => Some(Diff::RightNotExists),
        (FileContent::Text(_), FileContent::Text(_)) => match text {
            Some(u) => Some(Diff::Text(u)),
            None => permission_change(left_mode, right_mode),
        },
        _ => if differs_in_overlap(content_bytes(left), content_bytes(right)) {
            Some(Diff::Binary)
        } else {
            permission_change(left_mode, right_mode)
        },
    }
}

/// What comparing two snapshots gives: for two different texts, their
/// unified diff under the headers `left_name` and `right_name`.
pub open spec fn diff_outcome(
    left: FileContent,
    left_mode: Option<u32>,
    right: FileContent,
    right_mode: Option<u32>,
    left_name: Seq<char>,
    right_name: Seq<char>,
    r: Option<Diff>,
) -> bool {
    match (left, right) {
        (FileContent::Text(a), FileContent::Text(b)) => if a@ != b@ {
            r matches Some(Diff::Text(u)) && u@ == unified_diff_of(
                a@,
                b@,
                CONTEXT_RADIUS as nat,
                left_name,
                right_name,
            )
        } else {
            r == permission_change(left_mode, right_mode)
        },
        _ => r == verdict(left, left_mode, right, right_mode, None),
    }
}

impl FileContent {
    /// Classifies read bytes: `Text` when they are valid UTF-8, else `Binary`.
    pub fn from_bytes(bytes: Vec<u8>) -> (r: FileContent)
        ensures
            valid_utf8(bytes@) ==> r is Text,
            !valid_utf8(bytes@) ==> r is Binary,
            content_bytes(r) == bytes@,
    {
        match utf8_text(bytes) {
            Ok(s) => FileContent::Text(s),
            Err(b) => FileContent::Binary(b),
        }
    }

    /// The bytes of this content, or `None` for a missing file.
    pub fn into_bytes(self) -> (r: Option<Vec<u8>>)
        ensures
            self is Missing <==> r is None,
            r matches Some(v) ==> v@ == content_bytes(self),
    {
        match self {
            FileContent::Text(s) => Some(slice_to_vec(s.as_str().as_bytes())),
            FileContent::Binary(v) => Some(v),
            FileContent::Missing => None,
        }
    }
}

/// Whether two byte slices differ at some position that both have.
fn overlap_differs(a: &[u8], b: &[u8]) -> (r: bool)
    ensures
        r == differs_in_overlap(a@, b@),
{
    let mut i: usize = 0;
    while i < a.len() && i < b.len()
        invariant
            i <= a@.len(),
            i <= b@.len(),
            forall|k: int| 0 <= k < i ==> a@[k] == b@[k],
        decreases a@.len() - i,
    {
        if a[i] != b[i] {
            return true;
        }
        i = i + 1;
    }
    false
}

fn permissions_diff(left_mode: Option<u32>, right_mode: Option<u32>) -> (r: Option<Diff>)
    ensures
        r == permission_change(left_mode, right_mode),
{
    match (left_mode, right_mode) {
        (Some(a), Some(b)) => if a != b {
            Some(Diff::Permissions(a, b))
        } else {
            None
        },
        _ => None,
    }
}

/// Decides the verdict on two snapshots, given `text`: for two texts, their
/// unified diff when some line changed, and `None` when none did.
pub fn decide(
    left: FileContent,
    left_mode: Option<u32>,
    right: FileContent,
    right_mode: Option<u32>,
    text: Option<String>,
) -> (r: Option<Diff>)
    ensures
        r == verdict(left, left_mode, right, right_mode, text),
{
    let permissions = permissions_diff(left_mode, right_mode);
    match (left, right) {
        (FileContent::Missing, FileContent::Missing) => None,
        (FileContent::Missing, _) => Some(Diff::LeftNotExists),
        (_, FileContent::Missing) => Some(Diff::RightNotExists),
        (FileContent::Text(a), FileContent::Text(b)) => match text {
            Some(u) => Some(Diff::Text(u)),
            None => permissions,
        },
        (l, r) => {
            let lb = match l.into_bytes() {
                Some(v) => v,
                None => Vec::new(),
            };
            let rb = match r.into_bytes() {
                Some(v) => v,
                None => Vec::new(),
            };
            if overlap_differs(lb.as_slice(), rb.as_slice()) {
                Some(Diff::Binary)
            } else {
                permissions
            }
        },
    }
}

/// Compares two snapshots, each with its permission mode when the file
/// exists. Two texts are diffed line by line; a change is reported as a
/// unified diff with `CONTEXT_RADIUS` lines of context under the headers
/// `left_name` and `right_name`.
pub fn diff_contents(
    left: FileContent,
    left_mode: Option<u32>,
    right: FileContent,
    right_mode: Option<u32>,
    left_name: &str,
    right_name: &str,
) -> (r: Option<Diff>)
    ensures
        diff_outcome(left, left_mode, right, right_mode, left_name@, right_name@, r),
{
    let text = match (&left, &right) {
        (FileContent::Text(a), FileContent::Text(b)) => {
            if lines_changed(a.as_str(), b.as_str()) {
                Some(render_unified(a.as_str(), b.as_str(), CONTEXT_RADIUS, left_name, right_name))
            } else {
                None
            }
        },
        _ => None,
    };
    decide(left, left_mode, right, right_mode, text)
}

/// Comparing a snapshot with itself, with unchanged permissions, finds no difference.
pub proof fn lemma_same_snapshot_no_diff(
    c: FileContent,
    mode: Option<u32>,
    name_a: Seq<char>,
    name_b: Seq<char>,
    r: Option<Diff>,
)
    requires
        diff_outcome(c, mode, c, mode, name_a, name_b, r),
    ensures
        r is None,
{
}

/// Two missing files do not differ; a missing side on the left or the right
/// alone is reported as such.
pub proof fn lemma_missing_sides(
    left: FileContent,
    left_mode: Option<u32>,
    right: FileContent,
    right_mode: Option<u32>,
    name_a: Seq<char>,
    name_b: Seq<char>,
    r: Option<Diff>,
)
    requires
        diff_outcome(left, left_mode, right, right_mode, name_a, name_b, r),
    ensures
        left is Missing && right is Missing ==> r is None,
        left is Missing && !(right is Missing) ==> r == Some(Diff::LeftNotExists),
        !(left is Missing) && right is Missing ==> r == Some(Diff::RightNotExists),
{
}

} // verus!
