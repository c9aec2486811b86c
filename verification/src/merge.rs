//! The three-way merge: two comparisons against the ancestor, the decision
//! which side to build on, and the overlay of the other side's changes.

use crate::classify::{
    any_meta_change, classify, lemma_line_of, lemma_report_lines, lemma_sorted_lines_distinct,
    line_of, line_views, lines_have, lines_map, name_views, pixel_changed_names, report_lines,
    status_of, Report,
};
use crate::overlay::{blocked, first_blocked, overlay, overlay_grid, OverlayError};
use crate::sheet::{names_unique, Sheet, SheetView};
use crate::status::FragmentStatus;
use vstd::prelude::*;

verus! {

/// One of the two edited versions.
#[derive(Debug, PartialEq, Eq, Clone, Copy, Structural)]
pub enum Side {
    Ours,
    Theirs,
}

/// Whether both reports record a pixel change for the state `name`.
pub open spec fn pixel_conflict(
    ours: Map<Seq<char>, FragmentStatus>,
    theirs: Map<Seq<char>, FragmentStatus>,
    name: Seq<char>,
) -> bool {
    &&& ours.contains_key(name)
    &&& theirs.contains_key(name)
    &&& ours[name].spec_has_pixel_change()
    &&& theirs[name].spec_has_pixel_change()
}

/// Whether both reports record a pixel change for one and the same state.
pub open spec fn any_pixel_conflict(
    ours: Map<Seq<char>, FragmentStatus>,
    theirs: Map<Seq<char>, FragmentStatus>,
) -> bool {
    exists|name: Seq<char>| pixel_conflict(ours, theirs, name)
}

/// Whether line `k` of our report is the first whose state both sides
/// changed the pixels of.
pub open spec fn first_conflict(
    ours: Seq<(Seq<char>, FragmentStatus)>,
    theirs: Map<Seq<char>, FragmentStatus>,
    k: int,
) -> bool {
    &&& 0 <= k < ours.len()
    &&& pixel_conflict(lines_map(ours), theirs, ours[k].0)
    &&& forall|j: int|
        0 <= j < k ==> !pixel_conflict(lines_map(ours), theirs, (#[trigger] ours[j]).0)
}

/// Why two edits cannot be merged.
#[derive(Debug, Clone, PartialEq, Eq)]
pub enum MergeFailure {
    /// Both sides changed the pixels of the named state.
    PixelConflict(String),
    /// Both sides changed metadata.
    MetaConflict,
    /// The side built upon holds the named state in frames of another size
    /// than the side that changed its pixels.
    FrameMismatch(String),
}

pub enum FailureView {
    PixelConflict(Seq<char>),
    MetaConflict,
    FrameMismatch(Seq<char>),
}

impl View for MergeFailure {
    type V = FailureView;

    open spec fn view(&self) -> FailureView {
        match self {
            MergeFailure::PixelConflict(name) => FailureView::PixelConflict(name@),
            MergeFailure::MetaConflict => FailureView::MetaConflict,
            MergeFailure::FrameMismatch(name) => FailureView::FrameMismatch(name@),
        }
    }
}

/// How a merge ended.
#[derive(Debug)]
pub enum MergeOutcome {
    /// The merged sheet, and the side whose sheet it was built on.
    Succeeded { sheet: Sheet, base: Side },
    Failed(MergeFailure),
}

pub enum OutcomeView {
    Succeeded { sheet: SheetView, base: Side },
    Failed(FailureView),
}

impl View for MergeOutcome {
    type V = OutcomeView;

    open spec fn view(&self) -> OutcomeView {
        match self {
            MergeOutcome::Succeeded { sheet, base } => OutcomeView::Succeeded {
                sheet: sheet@,
                base: *base,
            },
            MergeOutcome::Failed(failure) => OutcomeView::Failed(failure@),
        }
    }
}

/// A merge: what each side changed, and how the merge ended.
#[derive(Debug)]
pub struct Merge {
    pub report_ours: Report,
    pub report_theirs: Report,
    pub outcome: MergeOutcome,
}

/// The side to build on, given the lines of the two reports. A state whose
/// pixels both sides changed rules the merge out, and so do metadata changes
/// on both sides. Else the side with a metadata change is built on, and ours
/// where neither has one.
pub open spec fn base_choice(
    ours: Seq<(Seq<char>, FragmentStatus)>,
    theirs: Seq<(Seq<char>, FragmentStatus)>,
) -> Result<Side, FailureView> {
    if any_pixel_conflict(lines_map(ours), lines_map(theirs)) {
        Err(
            FailureView::PixelConflict(
                ours[choose|k: int| first_conflict(ours, lines_map(theirs), k)].0,
            ),
        )
    } else if any_meta_change(ours) && any_meta_change(theirs) {
        Err(FailureView::MetaConflict)
    } else if any_meta_change(theirs) {
        Ok(Side::Theirs)
    } else {
        Ok(Side::Ours)
    }
}

/// The outcome of building on `base`, named by `side`: each of the named
/// states takes the pixels that `inc` holds for it, and the catalogue is the
/// base's. The first state that cannot be overlaid rules the merge out.
pub open spec fn overlay_outcome(
    base: SheetView,
    inc: SheetView,
    names: Seq<Seq<char>>,
    side: Side,
) -> OutcomeView {
    if exists|k: int| first_blocked(base, inc, names, k) {
        OutcomeView::Failed(
            FailureView::FrameMismatch(names[choose|k: int| first_blocked(base, inc, names, k)]),
        )
    } else {
        OutcomeView::Succeeded {
            sheet: SheetView {
                grid: overlay_grid(base, inc, names, names.len()),
                entries: base.entries,
            },
            base: side,
        }
    }
}

/// The outcome of merging `ours` and `theirs`, two edits of `ancestor`. On
/// the side that `base_choice` gives, the states whose pixels the other side
/// changed take that side's pixels.
pub open spec fn merge_outcome(
    ancestor: SheetView,
    ours: SheetView,
    theirs: SheetView,
) -> OutcomeView {
    let lines_ours = report_lines(ancestor, ours);
    let lines_theirs = report_lines(ancestor, theirs);
    match base_choice(lines_ours, lines_theirs) {
        Err(failure) => OutcomeView::Failed(failure),
        Ok(Side::Ours) => overlay_outcome(
            ours,
            theirs,
            pixel_changed_names(lines_theirs, lines_theirs.len()),
            Side::Ours,
        ),
        Ok(Side::Theirs) => overlay_outcome(
            theirs,
            ours,
            pixel_changed_names(lines_ours, lines_ours.len()),
            Side::Theirs,
        ),
    }
}

/// Decides from the two reports which side to build on, or why the edits
/// cannot be merged.
pub fn select_base(ours: &Report, theirs: &Report) -> (r: Result<Side, MergeFailure>)
    requires
        ours.wf(),
        theirs.wf(),
    ensures
        match r {
            Ok(side) => base_choice(ours.lines(), theirs.lines()) == Ok::<Side, FailureView>(side),
            Err(failure) => base_choice(ours.lines(), theirs.lines()) == Err::<Side, FailureView>(
                failure@,
            ),
        },
{
    let mine = ours.entries();
    let ghost lines = ours.lines();
    let mut k: usize = 0;
    while k < mine.len()
        invariant
            k <= mine@.len(),
            ours.wf(),
            theirs.wf(),
            lines == ours.lines(),
            line_views(mine@) == lines,
            forall|j: int| 0 <= j < k ==> !pixel_conflict(ours@, theirs@, (#[trigger] lines[j]).0),
        decreases mine@.len() - k,
    {
        proof {
            lemma_sorted_lines_distinct(lines);
            lemma_line_of(lines, k as int);
        }
        if mine[k].status.has_pixel_change() {
            let other = theirs.get(&mine[k].name);
            let clash = match other {
                Some(status) => status.has_pixel_change(),
                None => false,
            };
            if clash {
                let name = mine[k].name.clone();
                proof {
                    assert(pixel_conflict(ours@, theirs@, lines[k as int].0));
                    assert(first_conflict(lines, theirs@, k as int));
                    let c = choose|c: int| first_conflict(lines, theirs@, c);
                    assert(first_conflict(lines, theirs@, c));
                    if c < k {
                        assert(!pixel_conflict(ours@, theirs@, lines[c].0));
                    } else if k < c {
                        assert(!pixel_conflict(ours@, theirs@, lines[k as int].0));
                    }
                }
                return Err(MergeFailure::PixelConflict(name));
            }
        }
        k += 1;
    }
    proof {
        assert forall|name: Seq<char>| !pixel_conflict(ours@, theirs@, name) by {
            if ours@.contains_key(name) {
                let i = line_of(lines, name);
                assert(lines[i].0 == name);
            }
        }
    }
    let meta_ours = ours.has_meta_change();
    let meta_theirs = theirs.has_meta_change();
    if meta_ours && meta_theirs {
        Err(MergeFailure::MetaConflict)
    } else if meta_theirs {
        Ok(Side::Theirs)
    } else {
        Ok(Side::Ours)
    }
}

/// Every name that `pixel_changed_names` holds is the name of a line whose
/// status has a pixel change.
pub proof fn lemma_pixel_changed_names(lines: Seq<(Seq<char>, FragmentStatus)>, n: nat)
    requires
        n <= lines.len(),
    ensures
        forall|a: int|
            0 <= a < pixel_changed_names(lines, n).len() ==> exists|k: int|
                0 <= k < n && (#[trigger] lines[k]).0 == #[trigger] pixel_changed_names(lines, n)[a]
                    && lines[k].1.spec_has_pixel_change(),
    decreases n,
{
    if n > 0 {
        lemma_pixel_changed_names(lines, (n - 1) as nat);
        let before = pixel_changed_names(lines, (n - 1) as nat);
        let now = pixel_changed_names(lines, n);
        assert forall|a: int| 0 <= a < now.len() implies exists|k: int|
            0 <= k < n && (#[trigger] lines[k]).0 == #[trigger] now[a]
                && lines[k].1.spec_has_pixel_change() by {
            if a < before.len() {
                let k = choose|k: int|
                    0 <= k < n - 1 && (#[trigger] lines[k]).0 == before[a]
                        && lines[k].1.spec_has_pixel_change();
                assert(lines[k].0 == now[a]);
            } else {
                assert(lines[n - 1].0 == now[a]);
            }
        }
    }
}

/// Where the two reports have no pixel conflict and the other side has no
/// metadata change, every state whose pixels the other side changed is a
/// state of the ancestor, of the other side and of the base: a merge never
/// asks for the overlay of a state that the base lacks.
pub proof fn lemma_overlaid_states_known(
    ancestor: SheetView,
    base: SheetView,
    inc: SheetView,
    name: Seq<char>,
)
    requires
        names_unique(ancestor.entries),
        names_unique(base.entries),
        names_unique(inc.entries),
        !any_pixel_conflict(
            lines_map(report_lines(ancestor, base)),
            lines_map(report_lines(ancestor, inc)),
        ),
        !any_meta_change(report_lines(ancestor, inc)),
        pixel_changed_names(
            report_lines(ancestor, inc),
            report_lines(ancestor, inc).len(),
        ).contains(name),
    ensures
        ancestor.has(name),
        base.has(name),
        inc.has(name),
        status_of(ancestor, inc, name) == FragmentStatus::ChangedPixels,
{
    let lines = report_lines(ancestor, inc);
    let names = pixel_changed_names(lines, lines.len());
    lemma_pixel_changed_names(lines, lines.len());
    let a = choose|a: int| 0 <= a < names.len() && names[a] == name;
    let k = choose|k: int|
        0 <= k < lines.len() && (#[trigger] lines[k]).0 == names[a]
            && lines[k].1.spec_has_pixel_change();
    lemma_report_lines(ancestor, inc);
    lemma_report_lines(ancestor, base);
    assert(lines[k].1 == status_of(ancestor, inc, name));
    assert(!lines[k].1.spec_has_meta_change());
    let theirs = lines_map(lines);
    let mine = lines_map(report_lines(ancestor, base));
    assert(theirs[name] == status_of(ancestor, inc, name));
    assert(mine[name] == status_of(ancestor, base, name));
    assert(!pixel_conflict(mine, theirs, name));
}

/// Where building on `base` fails for a state, all three sheets have that
/// state: what stands in the way is the size of its frames.
pub proof fn lemma_mismatch_is_of_a_known_state(
    ancestor: SheetView,
    base: SheetView,
    inc: SheetView,
    side: Side,
)
    requires
        names_unique(ancestor.entries),
        names_unique(base.entries),
        names_unique(inc.entries),
        !any_pixel_conflict(
            lines_map(report_lines(ancestor, base)),
            lines_map(report_lines(ancestor, inc)),
        ),
        !any_meta_change(report_lines(ancestor, inc)),
    ensures
        overlay_outcome(
            base,
            inc,
            pixel_changed_names(
                report_lines(ancestor, inc),
                report_lines(ancestor, inc).len(),
            ),
            side,
        ) matches OutcomeView::Failed(FailureView::FrameMismatch(name)) ==> ancestor.has(name)
            && base.has(name) && inc.has(name),
{
    let lines = report_lines(ancestor, inc);
    let names = pixel_changed_names(lines, lines.len());
    if exists|k: int| first_blocked(base, inc, names, k) {
        let k = choose|k: int| first_blocked(base, inc, names, k);
        assert(names.contains(names[k]));
        lemma_overlaid_states_known(ancestor, base, inc, names[k]);
    }
}

/// Builds on `base`, the sheet of `side`: overlays the states whose pixels
/// the other side changed, as `changes`, its report, records them.
fn build_on(base: &Sheet, inc: &Sheet, changes: &Report, side: Side) -> (outcome: MergeOutcome)
    requires
        base.wf(),
        inc.wf(),
    ensures
        outcome@ == overlay_outcome(
            base@,
            inc@,
            pixel_changed_names(changes.lines(), changes.lines().len()),
            side,
        ),
        outcome matches MergeOutcome::Succeeded { sheet, .. } ==> sheet.wf(),
{
    let names = changes.pixel_changed();
    let ghost wanted = name_views(names@);
    match overlay(base, inc, &names) {
        Ok(grid) => {
            assert(!exists|k: int| first_blocked(base@, inc@, wanted, k));
            MergeOutcome::Succeeded { sheet: base.regrid(grid), base: side }
        },
        Err(e) => {
            let at: usize = e.index();
            let name = names[at].clone();
            proof {
                assert(first_blocked(base@, inc@, wanted, at as int));
                let c = choose|c: int| first_blocked(base@, inc@, wanted, c);
                assert(first_blocked(base@, inc@, wanted, c));
                if c < at {
                    assert(!blocked(base@, inc@, wanted[c]));
                } else if at < c {
                    assert(!blocked(base@, inc@, wanted[at as int]));
                }
                assert(name@ == wanted[at as int]);
            }
            MergeOutcome::Failed(MergeFailure::FrameMismatch(name))
        },
    }
}

/// Merges `ours` and `theirs`, two edits of `ancestor`. Both are compared
/// with the ancestor; where the edits do not collide, the side with a
/// metadata change (ours, when there is none) is built on, and each state
/// whose pixels the other side changed takes that side's pixels. States that
/// the other side left alone are not copied: the base keeps its own pixels
/// for them.
pub fn merge(ancestor: &Sheet, ours: &Sheet, theirs: &Sheet) -> (m: Merge)
    requires
        ancestor.wf(),
        ours.wf(),
        theirs.wf(),
    ensures
        m.report_ours.wf(),
        m.report_theirs.wf(),
        m.report_ours.lines() == report_lines(ancestor@, ours@),
        m.report_theirs.lines() == report_lines(ancestor@, theirs@),
        m.outcome@ == merge_outcome(ancestor@, ours@, theirs@),
        m.outcome matches MergeOutcome::Succeeded { sheet, .. } ==> sheet.wf(),
        m.outcome matches MergeOutcome::Failed(MergeFailure::FrameMismatch(name))
            ==> ancestor@.has(name@) && ours@.has(name@) && theirs@.has(name@),
{
    let report_ours = classify(ancestor, ours);
    let report_theirs = classify(ancestor, theirs);
    let ghost mine = lines_map(report_lines(ancestor@, ours@));
    let ghost other = lines_map(report_lines(ancestor@, theirs@));
    let outcome = match select_base(&report_ours, &report_theirs) {
        Err(failure) => MergeOutcome::Failed(failure),
        Ok(Side::Ours) => {
            proof {
                lemma_mismatch_is_of_a_known_state(ancestor@, ours@, theirs@, Side::Ours);
            }
            build_on(ours, theirs, &report_theirs, Side::Ours)
        },
        Ok(Side::Theirs) => {
            proof {
                assert forall|name: Seq<char>| !pixel_conflict(other, mine, name) by {
                    assert(!pixel_conflict(mine, other, name));
                }
                lemma_mismatch_is_of_a_known_state(ancestor@, theirs@, ours@, Side::Theirs);
            }
            build_on(theirs, ours, &report_ours, Side::Theirs)
        },
    };
    Merge { report_ours, report_theirs, outcome }
}

/// A merge is determined by its inputs: sheets with the same content give
/// the same outcome, the same merged sheet included.
pub proof fn lemma_merge_deterministic(
    ancestor: Sheet,
    ours: Sheet,
    theirs: Sheet,
    ancestor_again: Sheet,
    ours_again: Sheet,
    theirs_again: Sheet,
)
    requires
        ancestor@ == ancestor_again@,
        ours@ == ours_again@,
        theirs@ == theirs_again@,
    ensures
        merge_outcome(ancestor@, ours@, theirs@) == merge_outcome(
            ancestor_again@,
            ours_again@,
            theirs_again@,
        ),
{
}

} // verus!
