//! The areas that a review looks into.
use vstd::prelude::*;

use crate::auto_review::changes::ReviewableChange;

verus! {

/// An area that a review looks into.
#[derive(Clone, Copy, Debug, PartialEq, Eq, Structural)]
pub enum ReviewArea {
    Correctness,
    Security,
    Architecture,
}

/// All review areas.
pub const REVIEW_AREAS: [ReviewArea; 3] = [
    ReviewArea::Correctness,
    ReviewArea::Security,
    ReviewArea::Architecture,
];

impl ReviewArea {
    /// The area's name in identifiers.
    pub open spec fn id_text(self) -> Seq<char> {
        match self {
            ReviewArea::Correctness => "correctness"@,
            ReviewArea::Security => "security"@,
            ReviewArea::Architecture => "architecture"@,
        }
    }

    /// The area's name in identifiers.
    pub fn id(&self) -> (text: &'static str)
        ensures
            text@ == self.id_text(),
    {
        match self {
            ReviewArea::Correctness => "correctness",
            ReviewArea::Security => "security",
            ReviewArea::Architecture => "architecture",
        }
    }

    /// The area's name in headings.
    pub open spec fn label_text(self) -> Seq<char> {
        match self {
            ReviewArea::Correctness => "Correctness"@,
            ReviewArea::Security => "Security"@,
            ReviewArea::Architecture => "Architecture"@,
        }
    }

    /// The area's name in headings.
    pub fn label(&self) -> (text: &'static str)
        ensures
            text@ == self.label_text(),
    {
        match self {
            ReviewArea::Correctness => "Correctness",
            ReviewArea::Security => "Security",
            ReviewArea::Architecture => "Architecture",
        }
    }

    /// What a review of the area looks for.
    pub open spec fn focus_text(self) -> Seq<char> {
        match self {
            ReviewArea::Correctness => "Look for behavioral regressions, broken control flow, edge cases introduced by the change, and mismatches between the apparent intent and the final code."@,
            ReviewArea::Security => "Look for unsafe input handling, auth/permission gaps, injection risks, unsafe filesystem or process usage, secret exposure, and missing validation at boundaries."@,
            ReviewArea::Architecture => "Look for violations of local architecture boundaries, missing validation/tests around the changed slice, surprising coupling, or changes that are harder to maintain than necessary."@,
        }
    }

    /// What a review of the area looks for.
    pub fn focus(&self) -> (text: &'static str)
        ensures
            text@ == self.focus_text(),
    {
        match self {
            ReviewArea::Correctness => "Look for behavioral regressions, broken control flow, edge cases introduced by the change, and mismatches between the apparent intent and the final code.",
            ReviewArea::Security => "Look for unsafe input handling, auth/permission gaps, injection risks, unsafe filesystem or process usage, secret exposure, and missing validation at boundaries.",
            ReviewArea::Architecture => "Look for violations of local architecture boundaries, missing validation/tests around the changed slice, surprising coupling, or changes that are harder to maintain than necessary.",
        }
    }
}

/// The areas that a review of the changes looks into: security only if one of the changed files
/// is one that runs.
pub open spec fn areas_for(changes: Seq<ReviewableChange>) -> Seq<ReviewArea> {
    if exists|i: int| 0 <= i < changes.len() && (#[trigger] changes[i]).executable {
        seq![ReviewArea::Correctness, ReviewArea::Security, ReviewArea::Architecture]
    } else {
        seq![ReviewArea::Correctness, ReviewArea::Architecture]
    }
}

/// The areas that a review of the changes looks into: security only if one of the changed files
/// is one that runs.
pub fn selected_review_areas(changes: &[ReviewableChange]) -> (areas: Vec<ReviewArea>)
    ensures
        areas@ == areas_for(changes@),
{
    let mut areas: Vec<ReviewArea> = Vec::new();
    areas.push(REVIEW_AREAS[0]);
    areas.push(REVIEW_AREAS[2]);
    let mut i: usize = 0;
    while i < changes.len()
        invariant
            i <= changes@.len(),
            areas@ == seq![ReviewArea::Correctness, ReviewArea::Architecture],
            forall|j: int| 0 <= j < i ==> !(#[trigger] changes@[j]).executable,
        decreases changes@.len() - i,
    {
        if changes[i].executable {
            areas.insert(1, REVIEW_AREAS[1]);
            assert(changes@[i as int].executable);
            assert(areas@ =~= areas_for(changes@));
            return areas;
        }
        i = i + 1;
    }
    areas
}

/// A review always looks into correctness first and architecture last, into no area twice, and
/// into security exactly if a changed file is one that runs.
pub proof fn law_selected_areas(changes: Seq<ReviewableChange>)
    ensures
        areas_for(changes).len() >= 2,
        areas_for(changes).first() == ReviewArea::Correctness,
        areas_for(changes).last() == ReviewArea::Architecture,
        areas_for(changes).no_duplicates(),
        areas_for(changes).contains(ReviewArea::Security) <==> exists|i: int|
            0 <= i < changes.len() && (#[trigger] changes[i]).executable,
{
    if exists|i: int| 0 <= i < changes.len() && (#[trigger] changes[i]).executable {
        assert(areas_for(changes)[1] == ReviewArea::Security);
    }
}

/// What the areas are called, and what a review of each looks for.
pub proof fn law_area_texts(area: ReviewArea)
    ensures
        area == ReviewArea::Correctness ==> area.id_text() == "correctness"@ && area.label_text()
            == "Correctness"@ && area.focus_text()
            == "Look for behavioral regressions, broken control flow, edge cases introduced by the change, and mismatches between the apparent intent and the final code."@,
        area == ReviewArea::Security ==> area.id_text() == "security"@ && area.label_text()
            == "Security"@ && area.focus_text()
            == "Look for unsafe input handling, auth/permission gaps, injection risks, unsafe filesystem or process usage, secret exposure, and missing validation at boundaries."@,
        area == ReviewArea::Architecture ==> area.id_text() == "architecture"@ && area.label_text()
            == "Architecture"@ && area.focus_text()
            == "Look for violations of local architecture boundaries, missing validation/tests around the changed slice, surprising coupling, or changes that are harder to maintain than necessary."@,
{
}

/// The order of the changes plays no part in which areas a review looks into, and a further change
/// never takes an area away.
pub proof fn law_more_changes_more_areas(a: Seq<ReviewableChange>, b: Seq<ReviewableChange>)
    ensures
        areas_for(a + b) == areas_for(b + a),
        forall|area: ReviewArea|
            areas_for(a + b).contains(area) <==> #[trigger] areas_for(a).contains(area)
                || areas_for(b).contains(area),
{
    law_selected_areas(a);
    law_selected_areas(b);
    law_selected_areas(a + b);
    if exists|i: int| 0 <= i < a.len() && (#[trigger] a[i]).executable {
        let i = choose|i: int| 0 <= i < a.len() && (#[trigger] a[i]).executable;
        assert((a + b)[i].executable);
        assert((b + a)[b.len() + i].executable);
    }
    if exists|i: int| 0 <= i < b.len() && (#[trigger] b[i]).executable {
        let i = choose|i: int| 0 <= i < b.len() && (#[trigger] b[i]).executable;
        assert((a + b)[a.len() + i].executable);
        assert((b + a)[i].executable);
    }
    if exists|i: int| 0 <= i < (a + b).len() && (#[trigger] (a + b)[i]).executable {
        let i = choose|i: int| 0 <= i < (a + b).len() && (#[trigger] (a + b)[i]).executable;
        if i < a.len() {
            assert(a[i].executable);
        } else {
            assert(b[i - a.len()].executable);
        }
    }
    if exists|i: int| 0 <= i < (b + a).len() && (#[trigger] (b + a)[i]).executable {
        let i = choose|i: int| 0 <= i < (b + a).len() && (#[trigger] (b + a)[i]).executable;
        if i < b.len() {
            assert(b[i].executable);
        } else {
            assert(a[i - b.len()].executable);
        }
    }
    let few = seq![ReviewArea::Correctness, ReviewArea::Architecture];
    let many = seq![ReviewArea::Correctness, ReviewArea::Security, ReviewArea::Architecture];
    assert(few[0] == ReviewArea::Correctness && few[1] == ReviewArea::Architecture);
    assert(many[0] == ReviewArea::Correctness && many[1] == ReviewArea::Security && many[2]
        == ReviewArea::Architecture);
    assert forall|area: ReviewArea|
        areas_for(a + b).contains(area) <==> #[trigger] areas_for(a).contains(area) || areas_for(
            b,
        ).contains(area) by {
        assert(few.contains(ReviewArea::Correctness) && few.contains(ReviewArea::Architecture));
        assert(many.contains(ReviewArea::Correctness) && many.contains(ReviewArea::Architecture)
            && many.contains(ReviewArea::Security));
    }
}

} // verus!
