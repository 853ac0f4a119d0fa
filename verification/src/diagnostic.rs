//! What a validation rule finds, and where.

use vstd::prelude::*;
use vstd::string::*;

verus! {

/// How grave a finding is.
#[derive(Debug, Clone, Copy, PartialEq, Eq, Structural)]
pub enum Severity {
    Error,
    Warning,
    Info,
}

/// One step of the way from the root to an element: the element's name.
pub type PathSegment = String;

/// A finding of a rule on an element.
#[derive(Debug)]
pub struct Diagnostic {
    pub rule_name: String,
    pub message: String,
    pub element_path: Vec<PathSegment>,
    pub element_index: u32,
    pub severity: Severity,
}

/// A path as text: its segments with a slash between each two.
pub open spec fn path_text(path: Seq<PathSegment>) -> Seq<char>
    decreases path.len(),
{
    if path.len() == 0 {
        Seq::empty()
    } else if path.len() == 1 {
        path[0]@
    } else {
        path_text(path.drop_last()) + "/"@ + path.last()@
    }
}

/// Writes a path as text, its segments with a slash between each two.
pub fn format_path(path: &[PathSegment]) -> (text: String)
    ensures
        text@ == path_text(path@),
{
    let mut text = String::new();
    let mut i: usize = 0;
    while i < path.len()
        invariant
            i <= path@.len(),
            text@ == path_text(path@.take(i as int)),
        decreases path@.len() - i,
    {
        if i > 0 {
            text.append("/");
        }
        text.append(path[i].as_str());
        assert(path@.take(i + 1).drop_last() == path@.take(i as int));
        i = i + 1;
    }
    assert(path@.take(i as int) == path@);
    text
}

/// The text of a path in two parts is that of the one, a slash, and that of the
/// other, wherever the path is cut; the text of one segment is the segment, and
/// an empty path has no text.
pub proof fn lemma_path_text_joins(a: Seq<PathSegment>, b: Seq<PathSegment>)
    ensures
        a.len() == 0 ==> path_text(a).len() == 0,
        a.len() == 1 ==> path_text(a) == a[0]@,
        a.len() > 0 && b.len() > 0 ==> path_text(a + b) == path_text(a) + "/"@ + path_text(b),
        a.len() == 0 ==> path_text(a + b) == path_text(b),
        b.len() == 0 ==> path_text(a + b) == path_text(a),
    decreases b.len(),
{
    if a.len() == 0 {
        assert(a + b == b);
    }
    if b.len() == 0 {
        assert(a + b == a);
    }
    if a.len() > 0 && b.len() > 0 {
        assert((a + b).drop_last() == a + b.drop_last());
        if b.len() == 1 {
            assert(a + b.drop_last() == a);
        } else {
            lemma_path_text_joins(a, b.drop_last());
            assert(path_text(a + b) == path_text(a) + "/"@ + path_text(b));
        }
    }
}

/// What is written of a path keeps all of it: each segment in full, and one
/// slash fewer than there are segments.
pub proof fn lemma_path_text_length(path: Seq<PathSegment>, lengths: Seq<nat>)
    requires
        lengths.len() == path.len(),
        forall|i: int| 0 <= i < path.len() ==> #[trigger] path[i]@.len() == lengths[i],
    ensures
        path.len() > 0 ==> path_text(path).len() == lengths.fold_left(
            0,
            |sum: int, length: nat| sum + length,
        ) + path.len() - 1,
    decreases path.len(),
{
    reveal_strlit("/");
    if path.len() == 1 {
        reveal_with_fuel(Seq::fold_left, 2);
        assert(path[0]@.len() == lengths[0]);
    } else if path.len() > 1 {
        assert forall|i: int| 0 <= i < path.len() - 1 implies #[trigger] path.drop_last()[i]@.len()
            == lengths.drop_last()[i] by {
            assert(path[i]@.len() == lengths[i]);
        }
        lemma_path_text_length(path.drop_last(), lengths.drop_last());
        assert(path[path.len() - 1]@.len() == lengths[lengths.len() - 1]);
    }
}

/// Of two paths that are written in one piece, and of the whole that they make:
/// the text of the whole is the two texts with a slash between.
pub proof fn lemma_written_paths_join(
    a: &[PathSegment],
    b: &[PathSegment],
    whole: &[PathSegment],
    text_a: String,
    text_b: String,
    text: String,
)
    requires
        a@.len() > 0,
        b@.len() > 0,
        whole@ == a@ + b@,
        call_ensures(format_path, (a,), text_a),
        call_ensures(format_path, (b,), text_b),
        call_ensures(format_path, (whole,), text),
    ensures
        text@ == text_a@ + "/"@ + text_b@,
        a@.len() == 1 ==> text_a@ == a@[0]@,
{
    lemma_path_text_joins(a@, b@);
}

} // verus!
