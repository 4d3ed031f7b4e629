//! What a review agent is told.
use vstd::prelude::*;

use crate::auto_review::areas::ReviewArea;
use crate::auto_review::changes::ReviewableChange;
use crate::text;

verus! {

/// What a review agent is told of its role.
pub const AUTO_REVIEW_SYSTEM_PROMPT: &'static str = "You are a background code review agent. Review only the provided code changes and the current files they reference. Ignore style nits, speculative advice, and anything not grounded in the changed code. If this is a false positive, a docs-only change, or there is no actionable issue, respond exactly as `NO_REVIEW_NEEDED: <one sentence>`. Otherwise respond with terse findings only, each including severity, file path, and the concrete risk. Do not suggest writing code or running write tools.";

/// How a prompt opens.
pub const PROMPT_OPENING: &'static str = "Review the following code changes. You may inspect the current files with read-only tools before deciding. If there is no real issue, respond with NO_REVIEW_NEEDED exactly as instructed.\n\n";

/// How a prompt ends.
pub const PROMPT_RULES: &'static str = "Response rules:\n- Use only findings grounded in these changes and the current files.\n- Prefer real regressions or risks over speculative nits.\n- Keep the response concise.\n";

/// The system prompt of a review agent for one area.
pub open spec fn system_prompt_for(area: ReviewArea) -> Seq<char> {
    AUTO_REVIEW_SYSTEM_PROMPT@ + "\n\nReview focus: "@ + area.focus_text()
}

/// One line for each changed file.
pub open spec fn file_list(changes: Seq<ReviewableChange>) -> Seq<char>
    decreases changes.len(),
{
    if changes.len() == 0 {
        seq![]
    } else {
        file_list(changes.drop_last()) + "- "@ + changes.last().relative_path@ + seq!['\n']
    }
}

/// The excerpts of the changes, each under the path of its file.
pub open spec fn excerpt_list(changes: Seq<ReviewableChange>) -> Seq<char>
    decreases changes.len(),
{
    if changes.len() == 0 {
        seq![]
    } else {
        excerpt_list(changes.drop_last()) + "File: "@ + changes.last().relative_path@ + seq!['\n']
            + changes.last().excerpt@ + "\n\n"@
    }
}

/// The prompt for a review of the changes in one area.
pub open spec fn review_prompt(area: ReviewArea, changes: Seq<ReviewableChange>) -> Seq<char> {
    PROMPT_OPENING@ + "Focus area: "@ + area.label_text() + "\n"@ + area.focus_text()
        + "\n\nChanged files:\n"@ + file_list(changes) + "\nChange excerpts:\n\n"@ + excerpt_list(
        changes,
    ) + PROMPT_RULES@
}

/// The system prompt of a review agent for one area.
pub fn review_system_prompt(area: &ReviewArea) -> (prompt: String)
    ensures
        prompt@ == system_prompt_for(*area),
{
    let mut prompt = String::from_str(AUTO_REVIEW_SYSTEM_PROMPT);
    prompt.append("\n\nReview focus: ");
    prompt.append(area.focus());
    prompt
}

/// The prompt for a review of the changes in one area.
pub fn build_review_prompt(area: &ReviewArea, changes: &[ReviewableChange]) -> (prompt: String)
    ensures
        prompt@ == review_prompt(*area, changes@),
{
    let mut prompt = String::from_str(PROMPT_OPENING);
    prompt.append("Focus area: ");
    prompt.append(area.label());
    prompt.append("\n");
    prompt.append(area.focus());
    prompt.append("\n\nChanged files:\n");

    let ghost opening = prompt@;
    let mut i: usize = 0;
    assert(changes@.take(0) =~= seq![]);
    assert(prompt@ =~= opening + file_list(changes@.take(0)));
    while i < changes.len()
        invariant
            i <= changes@.len(),
            prompt@ == opening + file_list(changes@.take(i as int)),
        decreases changes@.len() - i,
    {
        prompt.append("- ");
        prompt.append(changes[i].relative_path.as_str());
        prompt.push('\n');
        proof {
            let longer = changes@.take(i + 1);
            assert(longer.drop_last() =~= changes@.take(i as int));
            assert(longer.last() == changes@[i as int]);
            assert(prompt@ =~= opening + file_list(longer));
        }
        i = i + 1;
    }
    assert(changes@.take(changes@.len() as int) =~= changes@);

    prompt.append("\nChange excerpts:\n\n");
    let ghost listed = prompt@;
    let mut k: usize = 0;
    assert(prompt@ =~= listed + excerpt_list(changes@.take(0)));
    while k < changes.len()
        invariant
            k <= changes@.len(),
            prompt@ == listed + excerpt_list(changes@.take(k as int)),
        decreases changes@.len() - k,
    {
        prompt.append("File: ");
        prompt.append(changes[k].relative_path.as_str());
        prompt.push('\n');
        prompt.append(changes[k].excerpt.as_str());
        prompt.append("\n\n");
        proof {
            let longer = changes@.take(k + 1);
            assert(longer.drop_last() =~= changes@.take(k as int));
            assert(longer.last() == changes@[k as int]);
            assert(prompt@ =~= listed + excerpt_list(longer));
        }
        k = k + 1;
    }

    prompt.append(PROMPT_RULES);
    assert(prompt@ =~= review_prompt(*area, changes@));
    prompt
}

proof fn lemma_lists_show_changes(changes: Seq<ReviewableChange>, i: int)
    requires
        0 <= i < changes.len(),
    ensures
        text::has_text(file_list(changes), changes[i].relative_path@),
        text::has_text(excerpt_list(changes), changes[i].relative_path@),
        text::has_text(excerpt_list(changes), changes[i].excerpt@),
    decreases changes.len(),
{
    let shorter = changes.drop_last();
    let last = changes.last();
    let feed = seq!['\n'];
    let path = last.relative_path@;
    let files = file_list(shorter);
    let excerpts = excerpt_list(shorter);
    if i < shorter.len() {
        lemma_lists_show_changes(shorter, i);
        let none = Seq::<char>::empty();
        let file = "- "@ + path + feed;
        let excerpt = "File: "@ + path + feed + last.excerpt@ + "\n\n"@;
        assert(file_list(changes) =~= none + files + file);
        assert(excerpt_list(changes) =~= none + excerpts + excerpt);
        text::lemma_has_text_within(none, files, file, changes[i].relative_path@);
        text::lemma_has_text_within(none, excerpts, excerpt, changes[i].relative_path@);
        text::lemma_has_text_within(none, excerpts, excerpt, changes[i].excerpt@);
    } else {
        lemma_has_itself(path);
        lemma_has_itself(last.excerpt@);
        assert(file_list(changes) =~= (files + "- "@) + path + feed);
        text::lemma_has_text_within(files + "- "@, path, feed, path);
        let rest = feed + last.excerpt@ + "\n\n"@;
        assert(excerpt_list(changes) =~= (excerpts + "File: "@) + path + rest);
        text::lemma_has_text_within(excerpts + "File: "@, path, rest, path);
        let head = excerpts + "File: "@ + path + feed;
        assert(excerpt_list(changes) =~= head + last.excerpt@ + "\n\n"@);
        text::lemma_has_text_within(head, last.excerpt@, "\n\n"@, last.excerpt@);
    }
}

proof fn lemma_has_itself(s: Seq<char>)
    ensures
        text::has_text(s, s),
{
    assert(s.subrange(0, s.len() as int) =~= s);
    assert(text::occurs_at(s, s, 0));
}

/// A prompt names its area and what to look for there, and shows the path and the excerpt of
/// every change.
pub proof fn law_prompt_shows_every_change(area: ReviewArea, changes: Seq<ReviewableChange>)
    ensures
        text::has_text(review_prompt(area, changes), area.label_text()),
        text::has_text(review_prompt(area, changes), area.focus_text()),
        forall|i: int|
            0 <= i < changes.len() ==> text::has_text(
                review_prompt(area, changes),
                (#[trigger] changes[i]).relative_path@,
            ) && text::has_text(review_prompt(area, changes), changes[i].excerpt@),
{
    let whole = review_prompt(area, changes);
    let label = area.label_text();
    let focus = area.focus_text();
    let after_files = "\nChange excerpts:\n\n"@ + excerpt_list(changes) + PROMPT_RULES@;
    let after_focus = "\n\nChanged files:\n"@ + file_list(changes) + after_files;
    let before_label = PROMPT_OPENING@ + "Focus area: "@;
    let before_focus = before_label + label + "\n"@;
    let before_excerpts = before_focus + focus + "\n\nChanged files:\n"@ + file_list(changes)
        + "\nChange excerpts:\n\n"@;
    assert(whole =~= before_label + label + ("\n"@ + focus + after_focus));
    assert(whole =~= before_focus + focus + after_focus);
    assert(whole =~= before_excerpts + excerpt_list(changes) + PROMPT_RULES@);
    lemma_has_itself(label);
    lemma_has_itself(focus);
    text::lemma_has_text_within(before_label, label, "\n"@ + focus + after_focus, label);
    text::lemma_has_text_within(before_focus, focus, after_focus, focus);
    assert forall|i: int| 0 <= i < changes.len() implies text::has_text(
        whole,
        (#[trigger] changes[i]).relative_path@,
    ) && text::has_text(whole, changes[i].excerpt@) by {
        lemma_lists_show_changes(changes, i);
        text::lemma_has_text_within(
            before_excerpts,
            excerpt_list(changes),
            PROMPT_RULES@,
            changes[i].relative_path@,
        );
        text::lemma_has_text_within(
            before_excerpts,
            excerpt_list(changes),
            PROMPT_RULES@,
            changes[i].excerpt@,
        );
    }
}

/// The lists of a prompt are made change by change, in the order of the changes.
pub proof fn law_lists_of_parts(
    a: Seq<ReviewableChange>,
    b: Seq<ReviewableChange>,
    change: ReviewableChange,
)
    ensures
        file_list(a + b) == file_list(a) + file_list(b),
        excerpt_list(a + b) == excerpt_list(a) + excerpt_list(b),
        file_list(seq![change]) == "- "@ + change.relative_path@ + "\n"@,
        excerpt_list(seq![change]) == "File: "@ + change.relative_path@ + "\n"@ + change.excerpt@
            + "\n\n"@,
    decreases b.len(),
{
    reveal_strlit("\n");
    assert("\n"@ =~= seq!['\n']);
    assert(seq![change].drop_last() =~= seq![]);
    reveal_with_fuel(file_list, 2);
    reveal_with_fuel(excerpt_list, 2);
    assert(file_list(seq![change]) =~= "- "@ + change.relative_path@ + "\n"@);
    assert(excerpt_list(seq![change]) =~= "File: "@ + change.relative_path@ + "\n"@
        + change.excerpt@ + "\n\n"@);
    if b.len() == 0 {
        assert(a + b =~= a);
        assert(file_list(a) + file_list(b) =~= file_list(a));
        assert(excerpt_list(a) + excerpt_list(b) =~= excerpt_list(a));
    } else {
        assert((a + b).drop_last() =~= a + b.drop_last());
        law_lists_of_parts(a, b.drop_last(), change);
        assert(file_list(a + b) =~= file_list(a) + file_list(b));
        assert(excerpt_list(a + b) =~= excerpt_list(a) + excerpt_list(b));
    }
}

/// What a review agent is told: its role, its focus, the files, their excerpts, and the rules for
/// its answer.
pub proof fn law_prompt_texts(area: ReviewArea, changes: Seq<ReviewableChange>)
    ensures
        system_prompt_for(area)
            == "You are a background code review agent. Review only the provided code changes and the current files they reference. Ignore style nits, speculative advice, and anything not grounded in the changed code. If this is a false positive, a docs-only change, or there is no actionable issue, respond exactly as `NO_REVIEW_NEEDED: <one sentence>`. Otherwise respond with terse findings only, each including severity, file path, and the concrete risk. Do not suggest writing code or running write tools."@
            + "\n\nReview focus: "@ + area.focus_text(),
        review_prompt(area, changes)
            == "Review the following code changes. You may inspect the current files with read-only tools before deciding. If there is no real issue, respond with NO_REVIEW_NEEDED exactly as instructed.\n\n"@
            + "Focus area: "@ + area.label_text() + "\n"@ + area.focus_text()
            + "\n\nChanged files:\n"@ + file_list(changes) + "\nChange excerpts:\n\n"@
            + excerpt_list(changes)
            + "Response rules:\n- Use only findings grounded in these changes and the current files.\n- Prefer real regressions or risks over speculative nits.\n- Keep the response concise.\n"@,
{
}

} // verus!
