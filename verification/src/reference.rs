//! Comparing what a test has put out with what it is expected to put out,
//! line by line.

use vstd::prelude::*;

verus! {

/// One step of the way from one text to another.
pub enum LineDiff {
    /// A line that only the first text has.
    Left(String),
    /// A line that both texts have.
    Both(String, String),
    /// A line that only the second text has.
    Right(String),
}

/// A `LineDiff` as a mathematical value.
pub enum LineDiffView {
    Left(Seq<char>),
    Both(Seq<char>, Seq<char>),
    Right(Seq<char>),
}

impl View for LineDiff {
    type V = LineDiffView;

    open spec fn view(&self) -> LineDiffView {
        match self {
            LineDiff::Left(line) => LineDiffView::Left(line@),
            LineDiff::Both(left, right) => LineDiffView::Both(left@, right@),
            LineDiff::Right(line) => LineDiffView::Right(line@),
        }
    }
}

/// The steps `diffs` as mathematical values.
pub open spec fn line_views(diffs: Seq<LineDiff>) -> Seq<LineDiffView> {
    Seq::new(diffs.len(), |i: int| diffs[i]@)
}

/// The way that `diff::lines` finds from the text `left` to the text
/// `right`.
pub uninterp spec fn diff_lines(left: Seq<char>, right: Seq<char>) -> Seq<LineDiffView>;

/// `diff::lines`: the steps from `left` to `right`, line by line. The
/// function fills a table of numbers with one cell for each pair of lines
/// that differ, so the texts must be short enough for such a table to be
/// laid out.
#[verifier::external_body]
fn lines(left: &str, right: &str) -> (diffs: Vec<LineDiff>)
    requires
        comparable(left@, right@),
    ensures
        line_views(diffs@) == diff_lines(left@, right@),
{
    diff::lines(left, right)
        .into_iter()
        .map(
            |step|
                match step {
                    diff::Result::Left(l) => LineDiff::Left(l.to_string()),
                    diff::Result::Both(l, r) => LineDiff::Both(l.to_string(), r.to_string()),
                    diff::Result::Right(r) => LineDiff::Right(r.to_string()),
                },
        )
        .collect()
}

/// Whether the texts `left` and `right` are short enough to be compared:
/// whether a table with a cell of four bytes for each pair of their lines,
/// and a row and a column more, can be laid out in memory.
pub open spec fn comparable(left: Seq<char>, right: Seq<char>) -> bool {
    (left.len() + 2) * (right.len() + 2) * 8 <= usize::MAX
}

/// The number of the first of `diffs` that is not a line of both texts,
/// counted from 1, if there is one.
pub open spec fn first_difference(diffs: Seq<LineDiffView>) -> Option<usize> {
    if exists|i: int| 0 <= i < diffs.len() && !(#[trigger] diffs[i] is Both) {
        let first = choose|i: int|
            0 <= i < diffs.len() && !(#[trigger] diffs[i] is Both) && forall|j: int|
                0 <= j < i ==> #[trigger] diffs[j] is Both;
        Some((first + 1) as usize)
    } else {
        None
    }
}

/// How a step is shown: a line of the first text alone after `-`, a line of
/// the second alone after `+`, and a line of both after a blank.
pub open spec fn shown(diff: LineDiffView) -> Seq<char> {
    match diff {
        LineDiffView::Left(line) => seq!['-'] + line,
        LineDiffView::Both(line, _) => seq![' '] + line,
        LineDiffView::Right(line) => seq!['+'] + line,
    }
}

/// How two texts differ.
pub struct Difference {
    /// The steps from the expected text to the actual one, each as it is
    /// shown.
    pub lines: Vec<String>,
    /// The number of the first step at which the texts differ, counted from
    /// 1.
    pub first_diff: Option<usize>,
}

impl Difference {
    /// Whether this is how the steps `diffs` are described.
    pub open spec fn describes(&self, diffs: Seq<LineDiffView>) -> bool {
        &&& self.first_diff == first_difference(diffs)
        &&& self.lines@.len() == diffs.len()
        &&& forall|i: int| 0 <= i < diffs.len() ==> (#[trigger] self.lines@[i])@ == shown(diffs[i])
    }
}

/// Describes the steps `diffs`: how each is shown, and where the first
/// difference is.
pub fn describe(diffs: &Vec<LineDiff>) -> (difference: Difference)
    ensures
        difference.describes(line_views(diffs@)),
{
    let ghost views = line_views(diffs@);
    let mut lines: Vec<String> = Vec::new();
    let mut first_diff: Option<usize> = None;
    let mut i: usize = 0;
    proof {
        reveal_strlit("-");
        reveal_strlit(" ");
        reveal_strlit("+");
    }
    assert(diffs@.len() == diffs.len());
    while i < diffs.len()
        invariant
            i <= diffs@.len() <= usize::MAX,
            views == line_views(diffs@),
            "-"@ == seq!['-'],
            " "@ == seq![' '],
            "+"@ == seq!['+'],
            lines@.len() == i,
            forall|k: int| 0 <= k < i ==> (#[trigger] lines@[k])@ == shown(views[k]),
            match first_diff {
                Some(first) => {
                    &&& 1 <= first <= i
                    &&& !(views[first - 1] is Both)
                    &&& forall|j: int| 0 <= j < first - 1 ==> #[trigger] views[j] is Both
                },
                None => forall|j: int| 0 <= j < i ==> #[trigger] views[j] is Both,
            },
        decreases diffs@.len() - i,
    {
        let line = match &diffs[i] {
            LineDiff::Left(l) => String::from_str("-").concat(l.as_str()),
            LineDiff::Both(l, _) => String::from_str(" ").concat(l.as_str()),
            LineDiff::Right(r) => String::from_str("+").concat(r.as_str()),
        };
        lines.push(line);
        if first_diff.is_none() {
            match &diffs[i] {
                LineDiff::Left(_) => {
                    first_diff = Some(i + 1);
                },
                LineDiff::Right(_) => {
                    first_diff = Some(i + 1);
                },
                LineDiff::Both(_, _) => {},
            }
        }
        i += 1;
    }
    proof {
        match first_diff {
            Some(first) => {
                let at = first - 1;
                assert(0 <= at < views.len() && !(views[at] is Both));
                let chosen = choose|i: int|
                    0 <= i < views.len() && !(#[trigger] views[i] is Both) && forall|j: int|
                        0 <= j < i ==> #[trigger] views[j] is Both;
                assert(0 <= chosen < views.len() && !(views[chosen] is Both) && forall|j: int|
                    0 <= j < chosen ==> #[trigger] views[j] is Both);
                if chosen < at {
                    assert(views[chosen] is Both);
                }
                if at < chosen {
                    assert(views[at] is Both);
                }
            },
            None => {},
        }
    }
    Difference { lines, first_diff }
}

/// Compares the text `actual` with the text `reference` that is expected.
/// The result is nothing where they are the same, and else how they differ,
/// as `diff::lines` finds it.
pub fn compare(reference: &str, actual: &str) -> (difference: Option<Difference>)
    requires
        comparable(reference@, actual@),
    ensures
        match difference {
            None => actual@ == reference@,
            Some(difference) => actual@ != reference@ && difference.describes(
                diff_lines(reference@, actual@),
            ),
        },
{
    if actual.to_owned() == reference.to_owned() {
        return None;
    }
    let diffs = lines(reference, actual);
    Some(describe(&diffs))
}

} // verus!
