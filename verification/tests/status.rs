use dmi_merge::status::FragmentStatus;

const ALL: [FragmentStatus; 6] = [
    FragmentStatus::Added,
    FragmentStatus::Removed,
    FragmentStatus::Unchanged,
    FragmentStatus::ChangedOffsetOnly,
    FragmentStatus::ChangedMeta,
    FragmentStatus::ChangedPixels,
];

#[test]
fn meaningful_change_is_all_but_unchanged_and_offset_only() {
    let got: Vec<bool> = ALL.iter().map(|s| s.is_meaningful_change()).collect();
    assert_eq!(got, vec![true, true, false, false, true, true]);
}

#[test]
fn meta_change_is_all_but_unchanged_and_changed_pixels() {
    let got: Vec<bool> = ALL.iter().map(|s| s.has_meta_change()).collect();
    assert_eq!(got, vec![true, true, false, true, true, false]);
}

#[test]
fn pixel_change_is_all_but_unchanged_and_offset_only() {
    let got: Vec<bool> = ALL.iter().map(|s| s.has_pixel_change()).collect();
    assert_eq!(got, vec![true, true, false, false, true, true]);
}

#[test]
fn pixel_change_promotes_unchanged_to_changed_pixels() {
    let mut status = FragmentStatus::Unchanged;
    status.set_pixel_changed(true);
    assert_eq!(status, FragmentStatus::ChangedPixels);
}

#[test]
fn pixel_change_promotes_offset_only_to_changed_meta() {
    let mut status = FragmentStatus::ChangedOffsetOnly;
    status.set_pixel_changed(true);
    assert_eq!(status, FragmentStatus::ChangedMeta);
}
