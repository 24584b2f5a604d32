//! What an edit changes in a text.
use vstd::prelude::*;

use crate::activity::{concat, error_detail, Activity};
use crate::lines::{trim_end, trimmed_end};
use crate::text::{decimal, decimal_digits, decimal_text, optional_str_view};

verus! {

pub const CONTEXT_RADIUS: usize = 3;

/// What became of one line.
#[derive(Clone, Copy, Debug, PartialEq, Eq, Structural)]
pub enum LineChange {
    Equal,
    Insert,
    Delete,
}

/// What became of each line, as `TextDiff` finds it.
pub uninterp spec fn line_changes(old_text: Seq<char>, new_text: Seq<char>) -> Seq<LineChange>;

/// The changes as a unified diff with some lines of context, as `UnifiedDiff` writes it.
pub uninterp spec fn unified_diff(old_text: Seq<char>, new_text: Seq<char>, radius: int) -> Seq<char>;

/// `TextDiff::iter_all_changes` goes through the lines of both texts, without a deadline. Which of
/// them it pairs is not said here, only that this depends on the two texts alone, and that no line
/// is inserted or deleted where the texts are the same. It numbers the lines that differ by `u32`.
#[verifier::external_body]
fn compare_lines(old_text: &str, new_text: &str) -> (changes: Vec<LineChange>)
    requires
        old_text@.len() + new_text@.len() <= u32::MAX,
    ensures
        changes@ == line_changes(old_text@, new_text@),
        old_text@ == new_text@ ==> forall|i: int|
            0 <= i < changes@.len() ==> (#[trigger] changes@[i]) == LineChange::Equal,
{
    similar::TextDiff::from_lines(old_text, new_text)
        .iter_all_changes()
        .map(|change| match change.tag() {
            similar::ChangeTag::Equal => LineChange::Equal,
            similar::ChangeTag::Insert => LineChange::Insert,
            similar::ChangeTag::Delete => LineChange::Delete,
        })
        .collect()
}

/// `UnifiedDiff` writes the changed lines with some lines around them. What it writes is not said
/// here, only that it depends on the two texts and the number of lines alone, and that it is nothing
/// where the texts are the same. It numbers the lines that differ by `u32`, and doubles the number
/// of lines around a change.
#[verifier::external_body]
fn unified_text(old_text: &str, new_text: &str, radius: usize) -> (text: String)
    requires
        old_text@.len() + new_text@.len() <= u32::MAX,
        radius <= usize::MAX / 2,
    ensures
        text@ == unified_diff(old_text@, new_text@, radius as int),
        old_text@ == new_text@ ==> text@.len() == 0,
{
    similar::TextDiff::from_lines(old_text, new_text)
        .unified_diff()
        .context_radius(radius)
        .to_string()
}

/// How many lines have a certain change.
pub open spec fn count_of(changes: Seq<LineChange>, change: LineChange) -> int
    decreases changes.len(),
{
    if changes.len() == 0 {
        0
    } else {
        count_of(changes.drop_last(), change) + if changes.last() == change {
            1int
        } else {
            0
        }
    }
}

/// How many lines were inserted, and how many deleted.
pub fn edit_counts(changes: &Vec<LineChange>) -> (counts: (usize, usize))
    ensures
        counts.0 == count_of(changes@, LineChange::Insert),
        counts.1 == count_of(changes@, LineChange::Delete),
{
    let mut added: usize = 0;
    let mut removed: usize = 0;
    let mut index: usize = 0;
    proof {
        assert(changes@.take(0) =~= Seq::<LineChange>::empty());
    }
    while index < changes.len()
        invariant
            index <= changes@.len(),
            added == count_of(changes@.take(index as int), LineChange::Insert),
            removed == count_of(changes@.take(index as int), LineChange::Delete),
            added <= index,
            removed <= index,
        decreases changes@.len() - index,
    {
        proof {
            assert(changes@.take(index + 1).drop_last() =~= changes@.take(index as int));
        }
        match changes[index] {
            LineChange::Insert => {
                added = added + 1;
            },
            LineChange::Delete => {
                removed = removed + 1;
            },
            LineChange::Equal => {},
        }
        index = index + 1;
    }
    proof {
        assert(changes@.take(index as int) =~= changes@);
    }
    (added, removed)
}

proof fn lemma_all_equal(changes: Seq<LineChange>)
    requires
        forall|i: int| 0 <= i < changes.len() ==> (#[trigger] changes[i]) == LineChange::Equal,
    ensures
        count_of(changes, LineChange::Insert) == 0,
        count_of(changes, LineChange::Delete) == 0,
    decreases changes.len(),
{
    if changes.len() > 0 {
        lemma_all_equal(changes.drop_last());
    }
}

/// How many lines an edit inserts and deletes, and the changes themselves; none where it leaves
/// the text as it is. Lines are numbered by `u32`, so that no more characters can be taken.
pub fn render_diff(old_text: &str, new_text: &str) -> (shown: (usize, usize, String))
    requires
        old_text@.len() + new_text@.len() <= u32::MAX,
    ensures
        shown.0 == count_of(line_changes(old_text@, new_text@), LineChange::Insert),
        shown.1 == count_of(line_changes(old_text@, new_text@), LineChange::Delete),
        shown.2@ == trimmed_end(unified_diff(old_text@, new_text@, CONTEXT_RADIUS as int)),
        old_text@ == new_text@ ==> shown.0 == 0 && shown.1 == 0 && shown.2@.len() == 0,
{
    let changes: Vec<LineChange> = compare_lines(old_text, new_text);
    let (added, removed): (usize, usize) = edit_counts(&changes);
    let text: String = unified_text(old_text, new_text, CONTEXT_RADIUS);
    proof {
        if old_text@ == new_text@ {
            lemma_all_equal(changes@);
        }
    }
    (added, removed, trim_end(text.as_str()))
}

/// The activity of an edit: the file, how many lines were inserted and deleted, and below it the
/// changes, or the error where the edit failed.
pub open spec fn edit_activity(
    file: Seq<char>,
    added: int,
    removed: int,
    diff: Seq<char>,
    error: Option<Seq<char>>,
) -> (Seq<char>, Option<Seq<char>>) {
    (
        "Edited "@ + file + " (+"@ + decimal_digits(added as nat) + " -"@ + decimal_digits(
            removed as nat,
        ) + ")"@,
        match error {
            Some(message) => Some(error_detail(message)),
            None => if diff.len() == 0 {
                None
            } else {
                Some(diff)
            },
        },
    )
}

/// The activity of an edit.
pub fn report_edit(
    file: &str,
    added: usize,
    removed: usize,
    diff: String,
    error: Option<&str>,
) -> (activity: Activity)
    ensures
        activity@ == edit_activity(
            file@,
            added as int,
            removed as int,
            diff@,
            optional_str_view(error),
        ),
{
    let mut title: String = concat("Edited ", file);
    title.append(" (+");
    title.append(decimal_text(added as u128).as_str());
    title.append(" -");
    title.append(decimal_text(removed as u128).as_str());
    title.append(")");
    let detail: Option<String> = match error {
        Some(message) => Some(concat("└ Error: ", message)),
        None => if diff.as_str().is_empty() {
            None
        } else {
            Some(diff)
        },
    };
    Activity { title, detail }
}

/// The lines with a change are counted one by one.
pub proof fn law_changes_are_counted(changes: Seq<LineChange>, change: LineChange)
    ensures
        count_of(changes, change) == changes.to_multiset().count(change),
        count_of(changes, LineChange::Insert) + count_of(changes, LineChange::Delete) + count_of(
            changes,
            LineChange::Equal,
        ) == changes.len(),
    decreases changes.len(),
{
    broadcast use vstd::seq_lib::group_to_multiset_ensures;

    if changes.len() > 0 {
        let front = changes.drop_last();
        law_changes_are_counted(front, change);
        assert(front.push(changes.last()) =~= changes);
        assert(changes.to_multiset() =~= front.to_multiset().insert(changes.last()));
    }
}

/// The activity of an edit names the file and says how many lines it added and took away, in this order; below
/// it stand the changes, but where the edit failed, the error.
pub proof fn law_edits_are_reported(
    file: Seq<char>,
    added: int,
    removed: int,
    diff: Seq<char>,
    error: Option<Seq<char>>,
)
    requires
        0 <= added,
        0 <= removed,
    ensures
        ({
            let (title, detail) = edit_activity(file, added, removed, diff, error);
            &&& title == "Edited "@ + file + " (+"@ + decimal(added) + " -"@ + decimal(removed) + ")"@
            &&& error matches Some(message) ==> detail == Some("└ Error: "@ + message)
            &&& error is None && diff.len() > 0 ==> detail == Some(diff)
            &&& error is None && diff.len() == 0 ==> detail is None
        }),
{
}

} // verus!
