//! What the conversation is told of a finished review.
use vstd::prelude::*;

use crate::auto_review::areas::ReviewArea;
use crate::auto_review::changes::ReviewableChange;
use crate::order;
use crate::text;

verus! {

/// How many characters a notification has at most, before the note that it was cut.
pub const MAX_NOTIFICATION_CHARS: usize = 3_200;

/// What a notification ends with if it was cut.
pub const NOTIFICATION_TRUNCATED: &'static str = "\n\n[AutoReview truncated]";

/// What a report starts with if the review found nothing.
pub const NO_REVIEW_NEEDED: &'static str = "NO_REVIEW_NEEDED:";

/// How many paths a summary names at most.
pub const SUMMARY_PATHS: usize = 4;

/// How a notification ends if it was not cut.
pub const NOTIFICATION_ADVICE: &'static str = "\n\nDecide whether these findings are worth applying; ignore this note if the concern is already addressed.";

/// The paths of the changed files.
pub open spec fn paths_of(changes: Seq<ReviewableChange>) -> Seq<Seq<char>> {
    changes.map_values(|c: ReviewableChange| c.relative_path@)
}

/// The paths in order: the first few by name, the others by their number.
pub open spec fn path_summary(paths: Seq<Seq<char>>) -> Seq<char> {
    let sorted = order::in_order(paths);
    if paths.len() > SUMMARY_PATHS {
        text::joined(sorted.take(SUMMARY_PATHS as int), ", "@) + " and "@ + text::decimal(
            (paths.len() - SUMMARY_PATHS) as nat,
        ) + " more file(s)"@
    } else {
        text::joined(sorted, ", "@)
    }
}

/// Whether a report has nothing to tell: it is blank, or it says that no review was needed.
pub open spec fn has_nothing_to_tell(report: Seq<char>) -> bool {
    ||| text::trimmed(report).len() == 0
    ||| NO_REVIEW_NEEDED@.is_prefix_of(text::trimmed(report))
}

/// What a notification says before it is cut to size.
pub open spec fn full_notification(
    area: ReviewArea,
    changes: Seq<ReviewableChange>,
    report: Seq<char>,
) -> Seq<char> {
    "[AutoReview/"@ + area.id_text() + "] Findings for "@ + path_summary(paths_of(changes))
        + ".\n\n"@ + text::trimmed(report) + NOTIFICATION_ADVICE@
}

/// The notification of a report that has something to tell.
pub open spec fn notification(
    area: ReviewArea,
    changes: Seq<ReviewableChange>,
    report: Seq<char>,
) -> Seq<char> {
    text::capped(
        full_notification(area, changes, report),
        MAX_NOTIFICATION_CHARS as int,
        NOTIFICATION_TRUNCATED@,
    )
}

/// The paths of the changed files in order: the first few by name, the others by their number.
pub fn summarize_paths(changes: &[ReviewableChange]) -> (summary: String)
    ensures
        summary@ == path_summary(paths_of(changes@)),
{
    let mut paths: Vec<&str> = Vec::new();
    let mut i: usize = 0;
    while i < changes.len()
        invariant
            i <= changes@.len(),
            text::views(paths@) == paths_of(changes@).take(i as int),
        decreases changes@.len() - i,
    {
        let ghost before = text::views(paths@);
        paths.push(changes[i].relative_path.as_str());
        proof {
            assert(text::views(paths@) =~= before.push(changes@[i as int].relative_path@));
            assert(paths_of(changes@).take(i + 1) =~= before.push(paths_of(changes@)[i as int]));
        }
        i = i + 1;
    }
    assert(paths_of(changes@).take(changes@.len() as int) =~= paths_of(changes@));
    let mut preview = order::sort_texts(&paths);
    proof {
        order::law_text_order_is_total();
        paths_of(changes@).lemma_sort_by_ensures(order::text_order());
        vstd::seq_lib::to_multiset_len(paths_of(changes@));
        vstd::seq_lib::to_multiset_len(order::in_order(paths_of(changes@)));
        assert(text::views(preview@).len() == preview@.len());
    }
    let count: usize = changes.len();
    if count > SUMMARY_PATHS {
        let ghost sorted = text::views(preview@);
        preview.truncate(SUMMARY_PATHS);
        assert(text::views(preview@) =~= sorted.take(SUMMARY_PATHS as int));
        let mut summary = text::join_text(preview.as_slice(), ", ");
        summary.append(" and ");
        text::append_decimal(&mut summary, count - SUMMARY_PATHS);
        summary.append(" more file(s)");
        summary
    } else {
        text::join_text(preview.as_slice(), ", ")
    }
}

/// What the conversation is told of a report on the changes in one area, or nothing if the report
/// has nothing to tell.
pub fn build_completion_notification(
    area: &ReviewArea,
    changes: &[ReviewableChange],
    report: &str,
) -> (note: Option<String>)
    ensures
        note is None <==> has_nothing_to_tell(report@),
        note matches Some(text) ==> text@ == notification(*area, changes@, report@),
{
    let findings = text::trim(report);
    if findings.is_empty() || text::starts_with(findings, NO_REVIEW_NEEDED) {
        return None;
    }
    let mut note = String::from_str("[AutoReview/");
    note.append(area.id());
    note.append("] Findings for ");
    note.append(summarize_paths(changes).as_str());
    note.append(".\n\n");
    note.append(findings);
    note.append(NOTIFICATION_ADVICE);
    Some(text::cap_chars(note, MAX_NOTIFICATION_CHARS, NOTIFICATION_TRUNCATED))
}

/// The summary of paths does not depend on the order in which the changes were made.
pub proof fn law_summary_forgets_the_order(a: Seq<Seq<char>>, b: Seq<Seq<char>>)
    requires
        a.to_multiset() == b.to_multiset(),
    ensures
        path_summary(a) == path_summary(b),
{
    order::law_order_forgets_the_list(a, b);
    vstd::seq_lib::to_multiset_len(a);
    vstd::seq_lib::to_multiset_len(b);
}

/// A notification has no more characters than the limit and the note that it was cut.
pub proof fn law_notification_is_bounded(
    area: ReviewArea,
    changes: Seq<ReviewableChange>,
    report: Seq<char>,
)
    ensures
        notification(area, changes, report).len() <= MAX_NOTIFICATION_CHARS
            + NOTIFICATION_TRUNCATED@.len(),
{
}

/// The conversation is told of a report unless the report is blank or starts with the mark of a
/// review that found nothing. It is told which area and which files the report is about, and the
/// report without the whitespace around it.
pub proof fn law_what_is_told(
    area: ReviewArea,
    changes: Seq<ReviewableChange>,
    before: Seq<char>,
    core: Seq<char>,
    after: Seq<char>,
)
    requires
        text::is_blank(before),
        text::is_blank(after),
        core.len() > 0 ==> !text::is_white(core[0]) && !text::is_white(core.last()),
    ensures
        has_nothing_to_tell(before + core + after) <==> core.len() == 0
            || "NO_REVIEW_NEEDED:"@.is_prefix_of(core),
        full_notification(area, changes, before + core + after) == "[AutoReview/"@ + area.id_text()
            + "] Findings for "@ + path_summary(paths_of(changes)) + ".\n\n"@ + core
            + "\n\nDecide whether these findings are worth applying; ignore this note if the concern is already addressed."@,
{
    text::law_trimming(before, core, after);
}

/// A notification is the whole of it as long as it has no more than 3200 characters, and else its
/// first 3200 characters and a note.
pub proof fn law_notification_is_cut_to_size(
    area: ReviewArea,
    changes: Seq<ReviewableChange>,
    report: Seq<char>,
)
    ensures
        ({
            let full = full_notification(area, changes, report);
            &&& full.len() <= 3200 ==> notification(area, changes, report) == full
            &&& full.len() > 3200 ==> notification(area, changes, report) == full.take(3200)
                + "\n\n[AutoReview truncated]"@
        }),
{
}

/// A summary names the first four paths in order, and tells how many others there are; with four
/// paths or fewer it names them all and tells no more.
pub proof fn law_summary_of_paths(paths: Seq<Seq<char>>)
    ensures
        paths.len() <= 4 ==> path_summary(paths) == text::joined(order::in_order(paths), ", "@),
        paths.len() > 4 ==> path_summary(paths) == text::joined(
            order::in_order(paths).take(4),
            ", "@,
        ) + " and "@ + text::decimal((paths.len() - 4) as nat) + " more file(s)"@,
{
}

/// The paths in a summary are those of the changes, one for each.
pub proof fn law_paths_of_changes(changes: Seq<ReviewableChange>)
    ensures
        paths_of(changes).len() == changes.len(),
        forall|i: int|
            0 <= i < changes.len() ==> paths_of(changes)[i] == (
            #[trigger] changes[i]).relative_path@,
{
}

} // verus!
