//! The change status of one state, and the questions a merge asks of it.

use vstd::prelude::*;

verus! {

/// How one named state differs between an earlier and a later sheet.
#[derive(Debug, PartialEq, Eq, Clone, Copy, Structural)]
pub enum FragmentStatus {
    /// Only the later sheet has the state.
    Added,
    /// Only the earlier sheet has the state.
    Removed,
    /// Same metadata, same offset, same pixels.
    Unchanged,
    /// Only the offset differs; the pixels are the same.
    ChangedOffsetOnly,
    /// The metadata differs, and maybe the pixels too.
    ChangedMeta,
    /// Same metadata and offset, but some pixel differs.
    ChangedPixels,
}

impl FragmentStatus {
    /// The status that takes the place of `self` once a pixel difference has
    /// been seen.
    pub open spec fn promoted(self) -> FragmentStatus {
        match self {
            FragmentStatus::Unchanged => FragmentStatus::ChangedPixels,
            FragmentStatus::ChangedOffsetOnly => FragmentStatus::ChangedMeta,
            other => other,
        }
    }

    /// The status seen from the other end of the comparison: with the
    /// earlier and the later sheet exchanged, what was added is removed.
    pub open spec fn reversed(self) -> FragmentStatus {
        match self {
            FragmentStatus::Added => FragmentStatus::Removed,
            FragmentStatus::Removed => FragmentStatus::Added,
            other => other,
        }
    }

    /// Whether a status is still preliminary: pixels have not been found to
    /// differ, and the metadata other than the offset is equal.
    pub open spec fn is_preliminary(self) -> bool {
        self == FragmentStatus::Unchanged || self == FragmentStatus::ChangedOffsetOnly
    }

    pub open spec fn spec_is_meaningful_change(&self) -> bool {
        !(*self == FragmentStatus::Unchanged || *self == FragmentStatus::ChangedOffsetOnly)
    }

    pub open spec fn spec_has_meta_change(&self) -> bool {
        !(*self == FragmentStatus::Unchanged || *self == FragmentStatus::ChangedPixels)
    }

    pub open spec fn spec_has_pixel_change(&self) -> bool {
        !(*self == FragmentStatus::Unchanged || *self == FragmentStatus::ChangedOffsetOnly)
    }

    /// Records that a pixel difference was found in a state whose status was
    /// preliminary.
    pub fn set_pixel_changed(&mut self, changed: bool)
        requires
            changed,
            old(self).is_preliminary(),
        ensures
            *final(self) == old(self).promoted(),
    {
        match *self {
            FragmentStatus::Unchanged => {
                *self = FragmentStatus::ChangedPixels;
            },
            _ => {
                *self = FragmentStatus::ChangedMeta;
            },
        }
    }

    /// Whether the change is worth showing to a person.
    #[verifier::when_used_as_spec(spec_is_meaningful_change)]
    pub fn is_meaningful_change(&self) -> (r: bool)
        ensures
            r == self.spec_is_meaningful_change(),
    {
        match self {
            FragmentStatus::Unchanged | FragmentStatus::ChangedOffsetOnly => false,
            _ => true,
        }
    }

    /// Whether the catalogue entry of the state changed in any way.
    #[verifier::when_used_as_spec(spec_has_meta_change)]
    pub fn has_meta_change(&self) -> (r: bool)
        ensures
            r == self.spec_has_meta_change(),
    {
        match self {
            FragmentStatus::Unchanged | FragmentStatus::ChangedPixels => false,
            _ => true,
        }
    }

    /// Whether the pixels of the state may have changed.
    #[verifier::when_used_as_spec(spec_has_pixel_change)]
    pub fn has_pixel_change(&self) -> (r: bool)
        ensures
            r == self.spec_has_pixel_change(),
    {
        match self {
            FragmentStatus::Unchanged | FragmentStatus::ChangedOffsetOnly => false,
            _ => true,
        }
    }
}

} // verus!
