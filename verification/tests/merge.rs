use dmi_merge::classify::{classify, Report};
use dmi_merge::dirs::{Dir, Dirs};
use dmi_merge::grid::{Color, PixelGrid, Rect};
use dmi_merge::merge::{merge, select_base, Merge, MergeFailure, MergeOutcome, Side};
use dmi_merge::overlay::{overlay, OverlayError};
use dmi_merge::sheet::{Offset, Sheet, State, StateEntry};
use dmi_merge::status::FragmentStatus;

const RED: Color = (255, 0, 0, 255);
const GREEN: Color = (0, 255, 0, 255);
const BLUE: Color = (0, 0, 255, 255);
const GREY: Color = (9, 9, 9, 128);
const CLEAR: Color = (0, 0, 0, 0);

/// A state of one direction and one frame, drawn as one tile.
struct Tile {
    name: &'static str,
    delay: u32,
    offset: (i32, i32),
    colour: Color,
}

fn tile(name: &'static str, colour: Color) -> Tile {
    Tile { name, delay: 1, offset: (0, 0), colour }
}

/// Lays the tiles out in one row, each `size` pixels square.
fn sized_sheet(size: usize, states: &[Tile]) -> Sheet {
    let width = size * states.len().max(1);
    let mut pixels = vec![CLEAR; width * size];
    let mut entries = Vec::new();
    for (i, s) in states.iter().enumerate() {
        for y in 0..size {
            for x in 0..size {
                pixels[y * width + size * i + x] = s.colour;
            }
        }
        entries.push(StateEntry {
            name: s.name.to_string(),
            state: State {
                dirs: Dirs::One,
                delays: vec![s.delay],
                offset: Offset { x: s.offset.0, y: s.offset.1 },
            },
            frames: vec![vec![Rect {
                x: (size * i) as u32,
                y: 0,
                width: size as u32,
                height: size as u32,
            }]],
        });
    }
    Sheet::new(PixelGrid::from_pixels(width, size, &pixels).unwrap(), entries).unwrap()
}

fn sheet(states: &[Tile]) -> Sheet {
    sized_sheet(2, states)
}

/// The colour that a sheet shows for a state: the top left pixel of its
/// only frame.
fn colour_of(sheet: &Sheet, name: &str) -> Color {
    let r = sheet.rect_of(&name.to_string(), Dir::South, 0).unwrap();
    sheet.grid().get(r.x, r.y).unwrap()
}

fn succeeded(m: Merge) -> (Sheet, Side) {
    match m.outcome {
        MergeOutcome::Succeeded { sheet, base } => (sheet, base),
        MergeOutcome::Failed(_) => panic!("the merge failed"),
    }
}

fn failed(m: Merge) -> MergeFailure {
    match m.outcome {
        MergeOutcome::Failed(failure) => failure,
        MergeOutcome::Succeeded { .. } => panic!("the merge succeeded"),
    }
}

fn lines(report: &Report) -> Vec<(String, FragmentStatus)> {
    report.entries().iter().map(|e| (e.name.clone(), e.status)).collect()
}

#[test]
fn pixel_changes_to_different_states_are_both_kept() {
    let ancestor = sheet(&[tile("idle", RED), tile("walk", RED)]);
    let ours = sheet(&[tile("idle", GREEN), tile("walk", RED)]);
    let theirs = sheet(&[tile("idle", RED), tile("walk", BLUE)]);
    let m = merge(&ancestor, &ours, &theirs);
    assert_eq!(
        lines(&m.report_ours),
        vec![
            ("idle".to_string(), FragmentStatus::ChangedPixels),
            ("walk".to_string(), FragmentStatus::Unchanged),
        ]
    );
    assert_eq!(
        lines(&m.report_theirs),
        vec![
            ("idle".to_string(), FragmentStatus::Unchanged),
            ("walk".to_string(), FragmentStatus::ChangedPixels),
        ]
    );
    let (merged, base) = succeeded(m);
    assert_eq!(base, Side::Ours);
    assert_eq!(colour_of(&merged, "idle"), GREEN);
    assert_eq!(colour_of(&merged, "walk"), BLUE);
    assert_eq!(merged.entries().len(), 2);
    for (kept, was) in merged.entries().iter().zip(ancestor.entries().iter()) {
        assert_eq!(kept.name, was.name);
        assert_eq!(kept.state.dirs, was.state.dirs);
        assert_eq!(kept.state.delays, was.state.delays);
        assert_eq!(kept.state.offset, was.state.offset);
        assert_eq!(kept.frames, was.frames);
    }
    let whole = merged.grid().to_samples();
    let mut expected = Vec::new();
    for _row in 0..2 {
        for colour in [GREEN, GREEN, BLUE, BLUE] {
            expected.extend_from_slice(&[colour.0, colour.1, colour.2, colour.3]);
        }
    }
    assert_eq!(whole, expected);
}

#[test]
fn pixel_changes_to_the_same_state_fail() {
    let ancestor = sheet(&[tile("idle", RED), tile("walk", RED)]);
    let ours = sheet(&[tile("idle", GREEN), tile("walk", RED)]);
    let theirs = sheet(&[tile("idle", BLUE), tile("walk", RED)]);
    match failed(merge(&ancestor, &ours, &theirs)) {
        MergeFailure::PixelConflict(name) => assert_eq!(name, "idle"),
        _ => panic!("expected a pixel conflict"),
    }
}

#[test]
fn the_same_pixel_change_on_both_sides_is_still_a_conflict() {
    let ancestor = sheet(&[tile("idle", RED)]);
    let ours = sheet(&[tile("idle", GREEN)]);
    let theirs = sheet(&[tile("idle", GREEN)]);
    assert!(matches!(
        failed(merge(&ancestor, &ours, &theirs)),
        MergeFailure::PixelConflict(name) if name == "idle"
    ));
}

#[test]
fn the_first_conflicting_state_of_our_report_is_named() {
    let ancestor = sheet(&[tile("a", RED), tile("b", RED), tile("c", RED)]);
    let ours = sheet(&[tile("a", GREEN), tile("b", GREEN), tile("c", GREEN)]);
    let theirs = sheet(&[tile("c", BLUE), tile("b", BLUE), tile("a", RED)]);
    assert!(matches!(
        failed(merge(&ancestor, &ours, &theirs)),
        MergeFailure::PixelConflict(name) if name == "b"
    ));
}

#[test]
fn the_named_conflict_is_the_first_by_name_wherever_the_states_lie() {
    let ancestor = sheet(&[tile("z", RED), tile("m", RED), tile("a", RED)]);
    let ours = sheet(&[tile("z", GREEN), tile("m", GREEN), tile("a", RED)]);
    let theirs = sheet(&[tile("m", BLUE), tile("z", BLUE), tile("a", RED)]);
    assert!(matches!(
        failed(merge(&ancestor, &ours, &theirs)),
        MergeFailure::PixelConflict(name) if name == "m"
    ));
}

#[test]
fn an_offset_change_is_built_on_and_takes_the_other_sides_pixels() {
    let ancestor = sheet(&[tile("idle", RED), tile("walk", GREY)]);
    let ours = sheet(&[Tile { offset: (3, -2), ..tile("idle", RED) }, tile("walk", GREY)]);
    let theirs = sheet(&[tile("idle", BLUE), tile("walk", GREY)]);
    let m = merge(&ancestor, &ours, &theirs);
    let idle = "idle".to_string();
    let ours_idle = m.report_ours.get(&idle).unwrap();
    let theirs_idle = m.report_theirs.get(&idle).unwrap();
    assert_eq!(ours_idle, FragmentStatus::ChangedOffsetOnly);
    assert!(ours_idle.has_meta_change());
    assert!(!ours_idle.has_pixel_change());
    assert_eq!(theirs_idle, FragmentStatus::ChangedPixels);
    assert!(theirs_idle.has_pixel_change());
    let (merged, base) = succeeded(m);
    assert_eq!(base, Side::Ours);
    assert_eq!(colour_of(&merged, "idle"), BLUE);
    assert_eq!(colour_of(&merged, "walk"), GREY);
    assert_eq!(merged.entry(&idle).unwrap().state.offset, Offset { x: 3, y: -2 });
}

#[test]
fn a_state_added_by_them_is_kept_and_never_asked_of_our_sheet() {
    let ancestor = sheet(&[tile("idle", RED)]);
    let ours = sheet(&[tile("idle", GREEN)]);
    let theirs = sheet(&[tile("idle", RED), tile("new", BLUE)]);
    let m = merge(&ancestor, &ours, &theirs);
    let new = "new".to_string();
    assert_eq!(m.report_theirs.get(&new), Some(FragmentStatus::Added));
    assert_eq!(m.report_ours.get(&new), None);
    let (merged, base) = succeeded(m);
    assert_eq!(base, Side::Theirs);
    assert_eq!(merged.entries().len(), 2);
    assert_eq!(colour_of(&merged, "idle"), GREEN);
    assert_eq!(colour_of(&merged, "new"), BLUE);
}

#[test]
fn the_overlay_of_a_state_added_by_them_onto_our_sheet_is_refused_without_a_fault() {
    let ours = sheet(&[tile("idle", GREEN)]);
    let theirs = sheet(&[tile("idle", RED), tile("new", BLUE)]);
    let asked = vec!["new".to_string()];
    assert_eq!(
        overlay(&ours, &theirs, &asked).err(),
        Some(OverlayError::UnknownStateReference(0))
    );
    assert_eq!(colour_of(&ours, "idle"), GREEN);
}

#[test]
fn a_state_removed_by_them_stays_removed() {
    let ancestor = sheet(&[tile("idle", RED), tile("old", RED)]);
    let ours = sheet(&[tile("idle", GREEN), tile("old", RED)]);
    let theirs = sheet(&[tile("idle", RED)]);
    let (merged, base) = succeeded(merge(&ancestor, &ours, &theirs));
    assert_eq!(base, Side::Theirs);
    assert_eq!(merged.entries().len(), 1);
    assert_eq!(colour_of(&merged, "idle"), GREEN);
}

#[test]
fn a_state_removed_by_them_and_repainted_by_us_is_a_conflict() {
    let ancestor = sheet(&[tile("idle", RED), tile("old", RED)]);
    let ours = sheet(&[tile("idle", RED), tile("old", GREEN)]);
    let theirs = sheet(&[tile("idle", RED)]);
    assert!(matches!(
        failed(merge(&ancestor, &ours, &theirs)),
        MergeFailure::PixelConflict(name) if name == "old"
    ));
}

#[test]
fn metadata_changes_on_both_sides_fail() {
    let ancestor = sheet(&[tile("idle", RED), tile("walk", RED)]);
    let ours = sheet(&[Tile { offset: (1, 0), ..tile("idle", RED) }, tile("walk", RED)]);
    let theirs = sheet(&[tile("idle", RED), Tile { offset: (0, 1), ..tile("walk", RED) }]);
    assert!(matches!(failed(merge(&ancestor, &ours, &theirs)), MergeFailure::MetaConflict));
}

#[test]
fn a_timing_change_by_them_makes_their_sheet_the_base() {
    let ancestor = sheet(&[tile("idle", RED), tile("walk", RED)]);
    let ours = sheet(&[tile("idle", GREEN), tile("walk", RED)]);
    let theirs = sheet(&[tile("idle", RED), Tile { delay: 4, ..tile("walk", RED) }]);
    let (merged, base) = succeeded(merge(&ancestor, &ours, &theirs));
    assert_eq!(base, Side::Theirs);
    assert_eq!(colour_of(&merged, "idle"), GREEN);
    assert_eq!(merged.entry(&"walk".to_string()).unwrap().state.delays, vec![4]);
}

#[test]
fn two_unchanged_sides_give_our_sheet() {
    let ancestor = sheet(&[tile("idle", RED), tile("walk", GREY)]);
    let ours = sheet(&[tile("idle", RED), tile("walk", GREY)]);
    let theirs = sheet(&[tile("idle", RED), tile("walk", GREY)]);
    let (merged, base) = succeeded(merge(&ancestor, &ours, &theirs));
    assert_eq!(base, Side::Ours);
    assert_eq!(merged.grid().to_samples(), ours.grid().to_samples());
}

#[test]
fn states_that_they_left_alone_keep_our_pixels() {
    let ancestor = sheet(&[tile("a", RED), tile("b", RED), tile("c", RED)]);
    let ours = sheet(&[tile("a", GREEN), tile("b", GREEN), tile("c", RED)]);
    let theirs = sheet(&[tile("a", RED), tile("b", RED), tile("c", BLUE)]);
    let (merged, _) = succeeded(merge(&ancestor, &ours, &theirs));
    assert_eq!(colour_of(&merged, "a"), GREEN);
    assert_eq!(colour_of(&merged, "b"), GREEN);
    assert_eq!(colour_of(&merged, "c"), BLUE);
}

#[test]
fn frames_of_another_size_on_the_other_side_fail() {
    let ancestor = sized_sheet(2, &[tile("idle", RED)]);
    let ours = sized_sheet(2, &[tile("idle", RED)]);
    let theirs = sized_sheet(1, &[tile("idle", RED)]);
    let m = merge(&ancestor, &ours, &theirs);
    assert_eq!(m.report_theirs.get(&"idle".to_string()), Some(FragmentStatus::ChangedPixels));
    assert!(matches!(
        failed(m),
        MergeFailure::FrameMismatch(name) if name == "idle"
    ));
}

#[test]
fn merging_twice_gives_the_same_outcome() {
    let ancestor = sheet(&[tile("idle", RED), tile("walk", RED), tile("run", GREY)]);
    let ours = sheet(&[tile("idle", GREEN), tile("walk", RED), tile("run", GREY)]);
    let theirs = sheet(&[tile("idle", RED), tile("walk", BLUE), tile("run", GREY)]);
    let (first, first_base) = succeeded(merge(&ancestor, &ours, &theirs));
    let (second, second_base) = succeeded(merge(&ancestor, &ours, &theirs));
    assert_eq!(first_base, second_base);
    assert_eq!(first.grid().to_samples(), second.grid().to_samples());
    assert_eq!(first.entries().len(), second.entries().len());
    for (a, b) in first.entries().iter().zip(second.entries().iter()) {
        assert_eq!(a.name, b.name);
        assert_eq!(a.state.delays, b.state.delays);
        assert_eq!(a.frames, b.frames);
    }
    let conflict = sheet(&[tile("idle", BLUE), tile("walk", RED), tile("run", GREY)]);
    for _ in 0..2 {
        assert!(matches!(
            failed(merge(&ancestor, &ours, &conflict)),
            MergeFailure::PixelConflict(name) if name == "idle"
        ));
    }
}

#[test]
fn select_base_follows_the_metadata_change() {
    let ancestor = sheet(&[tile("idle", RED), tile("walk", RED)]);
    let same = sheet(&[tile("idle", RED), tile("walk", RED)]);
    let painted = sheet(&[tile("idle", GREEN), tile("walk", RED)]);
    let moved = sheet(&[tile("idle", RED), Tile { offset: (1, 1), ..tile("walk", RED) }]);
    let pixels = classify(&ancestor, &painted);
    let meta = classify(&ancestor, &moved);
    let none = classify(&ancestor, &same);
    assert_eq!(select_base(&none, &none).ok(), Some(Side::Ours));
    assert_eq!(select_base(&pixels, &none).ok(), Some(Side::Ours));
    assert_eq!(select_base(&none, &pixels).ok(), Some(Side::Ours));
    assert_eq!(select_base(&meta, &pixels).ok(), Some(Side::Ours));
    assert_eq!(select_base(&pixels, &meta).ok(), Some(Side::Theirs));
    assert!(matches!(select_base(&meta, &meta), Err(MergeFailure::MetaConflict)));
    assert!(matches!(
        select_base(&pixels, &pixels),
        Err(MergeFailure::PixelConflict(name)) if name == "idle"
    ));
}

#[test]
fn a_pixel_conflict_is_reported_before_a_metadata_conflict() {
    let ancestor = sheet(&[tile("idle", RED), tile("walk", RED)]);
    let ours = sheet(&[tile("idle", GREEN), Tile { offset: (1, 0), ..tile("walk", RED) }]);
    let theirs = sheet(&[tile("idle", BLUE), Tile { offset: (2, 0), ..tile("walk", RED) }]);
    assert!(matches!(
        failed(merge(&ancestor, &ours, &theirs)),
        MergeFailure::PixelConflict(name) if name == "idle"
    ));
}
