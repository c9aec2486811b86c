use dmi_merge::classify::{classify, classify_state, Report};
use dmi_merge::dirs::Dirs;
use dmi_merge::grid::{Color, PixelGrid, Rect};
use dmi_merge::sheet::{Offset, Sheet, State, StateEntry};
use dmi_merge::status::FragmentStatus;

const RED: Color = (255, 0, 0, 255);
const GREEN: Color = (0, 255, 0, 255);
const BLUE: Color = (0, 0, 255, 255);
const GREY: Color = (9, 9, 9, 128);

/// A state to draw: its name, directions, timings, offset, and the colour of
/// each of its tiles, direction by direction.
struct Drawn {
    name: &'static str,
    dirs: Dirs,
    delays: Vec<u32>,
    offset: (i32, i32),
    tiles: Vec<Color>,
}

fn still(name: &'static str, colour: Color) -> Drawn {
    Drawn { name, dirs: Dirs::One, delays: vec![1], offset: (0, 0), tiles: vec![colour] }
}

/// Lays the tiles of the states out in one row, each two pixels square.
fn sheet(states: &[Drawn]) -> Sheet {
    let count: usize = states.iter().map(|s| s.tiles.len()).sum();
    let width = 2 * count.max(1);
    let mut pixels = vec![(0, 0, 0, 0); width * 2];
    let mut entries = Vec::new();
    let mut next = 0usize;
    for s in states {
        let mut frames = Vec::new();
        let per_dir = s.delays.len();
        for d in 0..s.dirs.count() {
            let mut row = Vec::new();
            for f in 0..per_dir {
                let colour = s.tiles[d * per_dir + f];
                for y in 0..2 {
                    for x in 0..2 {
                        pixels[y * width + 2 * next + x] = colour;
                    }
                }
                row.push(Rect { x: 2 * next as u32, y: 0, width: 2, height: 2 });
                next += 1;
            }
            frames.push(row);
        }
        entries.push(StateEntry {
            name: s.name.to_string(),
            state: State {
                dirs: s.dirs,
                delays: s.delays.clone(),
                offset: Offset { x: s.offset.0, y: s.offset.1 },
            },
            frames,
        });
    }
    Sheet::new(PixelGrid::from_pixels(width, 2, &pixels).unwrap(), entries).unwrap()
}

fn lines(report: &Report) -> Vec<(String, FragmentStatus)> {
    report.entries().iter().map(|e| (e.name.clone(), e.status)).collect()
}

fn line(name: &str, status: FragmentStatus) -> (String, FragmentStatus) {
    (name.to_string(), status)
}

#[test]
fn a_sheet_compared_with_itself_is_unchanged_throughout() {
    let a = sheet(&[
        still("idle", RED),
        Drawn {
            name: "walk",
            dirs: Dirs::Four,
            delays: vec![1, 2],
            offset: (1, 1),
            tiles: vec![RED, GREEN, BLUE, GREY, RED, RED, GREEN, GREEN],
        },
    ]);
    let report = classify(&a, &a);
    assert_eq!(
        lines(&report),
        vec![line("idle", FragmentStatus::Unchanged), line("walk", FragmentStatus::Unchanged)]
    );
}

#[test]
fn a_state_only_in_the_later_sheet_is_added() {
    let a = sheet(&[still("idle", RED)]);
    let b = sheet(&[still("idle", RED), still("walk", GREEN)]);
    let report = classify(&a, &b);
    assert_eq!(report.get(&"walk".to_string()), Some(FragmentStatus::Added));
    assert_eq!(report.get(&"idle".to_string()), Some(FragmentStatus::Unchanged));
}

#[test]
fn a_state_only_in_the_earlier_sheet_is_removed() {
    let a = sheet(&[still("idle", RED), still("walk", GREEN)]);
    let b = sheet(&[still("idle", RED)]);
    let report = classify(&a, &b);
    assert_eq!(report.get(&"walk".to_string()), Some(FragmentStatus::Removed));
}

#[test]
fn a_name_of_neither_sheet_is_not_in_the_report() {
    let a = sheet(&[still("idle", RED)]);
    let report = classify(&a, &a);
    assert_eq!(report.get(&"walk".to_string()), None);
    assert_eq!(report.entries().len(), 1);
}

#[test]
fn a_moved_offset_alone_is_changed_offset_only() {
    let a = sheet(&[still("idle", RED)]);
    let b = sheet(&[Drawn { offset: (0, 1), ..still("idle", RED) }]);
    assert_eq!(classify_state(&a, &b, &"idle".to_string()), FragmentStatus::ChangedOffsetOnly);
}

#[test]
fn a_changed_pixel_alone_is_changed_pixels() {
    let a = sheet(&[still("idle", RED)]);
    let b = sheet(&[still("idle", GREEN)]);
    assert_eq!(classify_state(&a, &b, &"idle".to_string()), FragmentStatus::ChangedPixels);
}

#[test]
fn a_changed_alpha_alone_is_changed_pixels() {
    let a = sheet(&[still("idle", (1, 2, 3, 4))]);
    let b = sheet(&[still("idle", (1, 2, 3, 5))]);
    assert_eq!(classify_state(&a, &b, &"idle".to_string()), FragmentStatus::ChangedPixels);
}

#[test]
fn a_moved_offset_with_changed_pixels_is_changed_meta() {
    let a = sheet(&[still("idle", RED)]);
    let b = sheet(&[Drawn { offset: (2, 0), ..still("idle", GREEN) }]);
    assert_eq!(classify_state(&a, &b, &"idle".to_string()), FragmentStatus::ChangedMeta);
}

#[test]
fn a_change_in_the_last_frame_of_the_last_direction_is_seen() {
    let walk = |last: Color| Drawn {
        name: "walk",
        dirs: Dirs::Four,
        delays: vec![1, 1],
        offset: (0, 0),
        tiles: vec![RED, RED, RED, RED, RED, RED, RED, last],
    };
    let a = sheet(&[walk(RED)]);
    let b = sheet(&[walk(BLUE)]);
    assert_eq!(classify_state(&a, &b, &"walk".to_string()), FragmentStatus::ChangedPixels);
    assert_eq!(classify_state(&a, &a, &"walk".to_string()), FragmentStatus::Unchanged);
}

#[test]
fn other_directions_are_changed_meta_whatever_the_pixels() {
    let a = sheet(&[still("idle", RED)]);
    let b = sheet(&[Drawn {
        name: "idle",
        dirs: Dirs::Four,
        delays: vec![1],
        offset: (0, 0),
        tiles: vec![RED, RED, RED, RED],
    }]);
    assert_eq!(classify_state(&a, &b, &"idle".to_string()), FragmentStatus::ChangedMeta);
    assert_eq!(classify_state(&b, &a, &"idle".to_string()), FragmentStatus::ChangedMeta);
}

#[test]
fn other_timings_are_changed_meta_whatever_the_pixels() {
    let a = sheet(&[still("idle", RED)]);
    let slower = sheet(&[Drawn { delays: vec![2], ..still("idle", RED) }]);
    let repainted = sheet(&[Drawn { delays: vec![2], ..still("idle", GREEN) }]);
    assert_eq!(classify_state(&a, &slower, &"idle".to_string()), FragmentStatus::ChangedMeta);
    assert_eq!(classify_state(&a, &repainted, &"idle".to_string()), FragmentStatus::ChangedMeta);
}

#[test]
fn a_state_that_only_moved_in_the_grid_is_unchanged() {
    let a = sheet(&[still("idle", RED), still("walk", GREEN)]);
    let b = sheet(&[still("first", BLUE), still("idle", RED), still("walk", GREEN)]);
    let report = classify(&a, &b);
    assert_eq!(
        lines(&report),
        vec![
            line("first", FragmentStatus::Added),
            line("idle", FragmentStatus::Unchanged),
            line("walk", FragmentStatus::Unchanged),
        ]
    );
}

#[test]
fn the_report_lists_the_states_in_the_order_of_their_names() {
    let a = sheet(&[still("c", RED), still("a", RED)]);
    let b = sheet(&[still("z", RED), still("a", GREEN), still("b", RED)]);
    let report = classify(&a, &b);
    assert_eq!(
        lines(&report),
        vec![
            line("a", FragmentStatus::ChangedPixels),
            line("b", FragmentStatus::Added),
            line("c", FragmentStatus::Removed),
            line("z", FragmentStatus::Added),
        ]
    );
}

#[test]
fn the_order_of_the_report_is_that_of_the_bytes_of_the_names() {
    let a = sheet(&[still("b", RED), still("", RED), still("\u{e9}", RED), still("ab", RED)]);
    let b = sheet(&[still("a", RED), still("B", RED), still("abc", RED), still("b", RED)]);
    let names: Vec<String> = classify(&a, &b).entries().iter().map(|e| e.name.clone()).collect();
    assert_eq!(names, vec!["", "B", "a", "ab", "abc", "b", "\u{e9}"]);
    let mut sorted = names.clone();
    sorted.sort();
    assert_eq!(names, sorted);
}

#[test]
fn exchanging_the_sheets_exchanges_added_and_removed_only() {
    let a = sheet(&[
        still("gone", RED),
        still("same", RED),
        still("moved", RED),
        still("painted", RED),
        still("timed", RED),
    ]);
    let b = sheet(&[
        still("same", RED),
        Drawn { offset: (1, 0), ..still("moved", RED) },
        still("painted", BLUE),
        Drawn { delays: vec![7], ..still("timed", RED) },
        still("new", GREEN),
    ]);
    let forth = classify(&a, &b);
    let back = classify(&b, &a);
    let expected = [
        ("gone", FragmentStatus::Removed, FragmentStatus::Added),
        ("same", FragmentStatus::Unchanged, FragmentStatus::Unchanged),
        ("moved", FragmentStatus::ChangedOffsetOnly, FragmentStatus::ChangedOffsetOnly),
        ("painted", FragmentStatus::ChangedPixels, FragmentStatus::ChangedPixels),
        ("timed", FragmentStatus::ChangedMeta, FragmentStatus::ChangedMeta),
        ("new", FragmentStatus::Added, FragmentStatus::Removed),
    ];
    for (name, there, here) in expected {
        assert_eq!(forth.get(&name.to_string()), Some(there), "{}", name);
        assert_eq!(back.get(&name.to_string()), Some(here), "{}", name);
    }
    assert_eq!(forth.entries().len(), 6);
    assert_eq!(back.entries().len(), 6);
}

#[test]
fn classify_state_of_a_name_of_neither_sheet_is_added() {
    let a = sheet(&[still("idle", RED)]);
    assert_eq!(classify_state(&a, &a, &"walk".to_string()), FragmentStatus::Added);
}

#[test]
fn two_empty_sheets_give_an_empty_report() {
    let a = sheet(&[]);
    let report = classify(&a, &a);
    assert!(report.entries().is_empty());
    assert!(!report.has_meta_change());
    assert!(report.pixel_changed().is_empty());
}

#[test]
fn the_report_tells_which_states_to_show_and_which_to_copy() {
    let a = sheet(&[
        still("gone", RED),
        still("same", RED),
        still("moved", RED),
        still("painted", RED),
    ]);
    let b = sheet(&[
        still("same", RED),
        Drawn { offset: (1, 0), ..still("moved", RED) },
        still("painted", BLUE),
        still("new", GREEN),
    ]);
    let report = classify(&a, &b);
    let shown: Vec<(String, FragmentStatus)> =
        report.meaningful_changes().iter().map(|e| (e.name.clone(), e.status)).collect();
    assert_eq!(
        shown,
        vec![
            line("gone", FragmentStatus::Removed),
            line("new", FragmentStatus::Added),
            line("painted", FragmentStatus::ChangedPixels),
        ]
    );
    assert_eq!(report.pixel_changed(), vec!["gone", "new", "painted"]);
    assert!(report.has_meta_change());
}

#[test]
fn a_report_of_pixel_changes_only_has_no_meta_change() {
    let a = sheet(&[still("same", RED), still("painted", RED)]);
    let b = sheet(&[still("same", RED), still("painted", BLUE)]);
    let report = classify(&a, &b);
    assert!(!report.has_meta_change());
    assert_eq!(report.pixel_changed(), vec!["painted"]);
}

#[test]
fn an_offset_change_is_a_meta_change_but_not_shown() {
    let a = sheet(&[still("moved", RED)]);
    let b = sheet(&[Drawn { offset: (0, -3), ..still("moved", RED) }]);
    let report = classify(&a, &b);
    assert!(report.has_meta_change());
    assert!(report.meaningful_changes().is_empty());
    assert!(report.pixel_changed().is_empty());
}
