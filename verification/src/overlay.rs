//! Copying the frames of named states from one sheet onto another.

use crate::classify::name_views;
use crate::grid::{GridView, PixelGrid, Rect};
use crate::sheet::{EntryView, Sheet, SheetView, StateEntry};
use vstd::prelude::*;

verus! {

/// The rectangle of the increment that goes with frame `f` of direction `k`
/// of the base: the same frame of the same direction.
pub open spec fn source_rect(base: EntryView, inc: EntryView, k: int, f: int) -> Option<Rect> {
    inc.rect_of(base.state.dirs.dir_seq()[k], f)
}

/// Whether the increment has a rectangle for frame `f` of direction `k`, of
/// the size of the base's.
pub open spec fn frame_copyable(base: EntryView, inc: EntryView, k: int, f: int) -> bool {
    match source_rect(base, inc, k, f) {
        Some(from) => from.same_size(base.frames[k][f]),
        None => false,
    }
}

/// Whether every frame of the base state can take its pixels from the
/// increment.
pub open spec fn copyable(base: EntryView, inc: EntryView) -> bool {
    forall|k: int, f: int|
        0 <= k < base.frames.len() && 0 <= f < base.frames[k].len() ==> #[trigger] frame_copyable(
            base,
            inc,
            k,
            f,
        )
}

/// Whether the state `name` cannot be overlaid: the base lacks it, or the
/// increment lacks it or a frame of it, or has a frame in another size.
pub open spec fn blocked(base: SheetView, inc: SheetView, name: Seq<char>) -> bool {
    !base.has(name) || !inc.has(name) || !copyable(base.entry(name), inc.entry(name))
}

/// Whether `k` is the first place in `names` with a blocked name.
pub open spec fn first_blocked(
    base: SheetView,
    inc: SheetView,
    names: Seq<Seq<char>>,
    k: int,
) -> bool {
    &&& 0 <= k < names.len()
    &&& blocked(base, inc, names[k])
    &&& forall|j: int| 0 <= j < k ==> !blocked(base, inc, #[trigger] names[j])
}

/// The grid `g` after the first `n` frames of direction `k` of the base
/// state have taken their pixels from the increment.
pub open spec fn paste_row(
    g: GridView,
    base: EntryView,
    src: GridView,
    inc: EntryView,
    k: int,
    n: nat,
) -> GridView
    decreases n,
{
    if n == 0 {
        g
    } else {
        paste_row(g, base, src, inc, k, (n - 1) as nat).paste(
            base.frames[k][n - 1],
            src,
            source_rect(base, inc, k, n - 1).unwrap(),
        )
    }
}

/// The grid `g` after all frames of the first `n` directions of the base
/// state have taken their pixels from the increment.
pub open spec fn paste_state(
    g: GridView,
    base: EntryView,
    src: GridView,
    inc: EntryView,
    n: nat,
) -> GridView
    decreases n,
{
    if n == 0 {
        g
    } else {
        paste_row(
            paste_state(g, base, src, inc, (n - 1) as nat),
            base,
            src,
            inc,
            n - 1,
            base.frames[n - 1].len(),
        )
    }
}

/// The grid of the base after the first `n` of the named states have taken
/// their pixels from the increment, one state after the other.
pub open spec fn overlay_grid(
    base: SheetView,
    inc: SheetView,
    names: Seq<Seq<char>>,
    n: nat,
) -> GridView
    decreases n,
{
    if n == 0 {
        base.grid
    } else {
        let entry = base.entry(names[n - 1]);
        paste_state(
            overlay_grid(base, inc, names, (n - 1) as nat),
            entry,
            inc.grid,
            inc.entry(names[n - 1]),
            entry.frames.len(),
        )
    }
}

/// Why an overlay was not made. Each carries the place, in the list of
/// names, of the first state that could not be overlaid.
#[derive(Debug, PartialEq, Eq, Clone, Copy, Structural)]
pub enum OverlayError {
    /// The base has no state of that name.
    UnknownStateReference(usize),
    /// The increment lacks the state or a frame of it, or holds a frame in a
    /// size other than the base's.
    FrameMismatch(usize),
}

impl OverlayError {
    /// The place in the list of names of the state that was refused.
    pub open spec fn spec_index(&self) -> usize {
        match self {
            OverlayError::UnknownStateReference(k) => *k,
            OverlayError::FrameMismatch(k) => *k,
        }
    }

    /// The place in the list of names of the state that was refused.
    #[verifier::when_used_as_spec(spec_index)]
    pub fn index(&self) -> (k: usize)
        ensures
            k == self.spec_index(),
    {
        match self {
            OverlayError::UnknownStateReference(k) => *k,
            OverlayError::FrameMismatch(k) => *k,
        }
    }
}

/// Copies, for each of the named states in turn, every frame of the state
/// from `inc` into the place that `base` gives that frame, in a copy of the
/// grid of `base`. A state that the base does not have is not skipped: the
/// overlay is refused, and so it is for a state whose frames the increment
/// does not hold in the sizes of the base.
pub fn overlay(base: &Sheet, inc: &Sheet, state_names: &Vec<String>) -> (r: Result<
    PixelGrid,
    OverlayError,
>)
    requires
        base.wf(),
        inc.wf(),
    ensures
        match r {
            Ok(grid) => {
                &&& grid.wf()
                &&& grid@.width == base@.grid.width
                &&& grid@.height == base@.grid.height
                &&& forall|k: int|
                    0 <= k < state_names@.len() ==> !blocked(
                        base@,
                        inc@,
                        #[trigger] name_views(state_names@)[k],
                    )
                &&& grid@ == overlay_grid(
                    base@,
                    inc@,
                    name_views(state_names@),
                    state_names@.len(),
                )
            },
            Err(e) => {
                &&& first_blocked(base@, inc@, name_views(state_names@), e.spec_index() as int)
                &&& e is UnknownStateReference <==> !base@.has(
                    name_views(state_names@)[e.spec_index() as int],
                )
            },
        },
{
    let ghost names = name_views(state_names@);
    let src = inc.grid();
    let mut work = base.grid().duplicate();
    let mut n: usize = 0;
    while n < state_names.len()
        invariant
            n <= state_names@.len(),
            base.wf(),
            inc.wf(),
            names == name_views(state_names@),
            src@ == inc@.grid,
            work.wf(),
            work@.width == base@.grid.width,
            work@.height == base@.grid.height,
            work@ == overlay_grid(base@, inc@, names, n as nat),
            forall|j: int| 0 <= j < n ==> !blocked(base@, inc@, #[trigger] names[j]),
        decreases state_names@.len() - n,
    {
        let name = &state_names[n];
        assert(name@ == names[n as int]);
        let b: &StateEntry = match base.entry(name) {
            Some(e) => e,
            None => {
                return Err(OverlayError::UnknownStateReference(n));
            },
        };
        let i: &StateEntry = match inc.entry(name) {
            Some(e) => e,
            None => {
                return Err(OverlayError::FrameMismatch(n));
            },
        };
        proof {
            let p = base@.index_of(name@);
            let q = inc@.index_of(name@);
            assert(base@.entries[p].shaped() && base@.entries[p].within(
                base@.grid.width,
                base@.grid.height,
            ));
            assert(inc@.entries[q].shaped() && inc@.entries[q].within(
                inc@.grid.width,
                inc@.grid.height,
            ));
            b@.state.dirs.lemma_positions();
        }
        let ghost start = work@;
        let dirs = b.state.dirs.all_dirs();
        let mut k: usize = 0;
        while k < b.frames.len()
            invariant
                k <= b.frames@.len(),
                n < state_names@.len(),
                names == name_views(state_names@),
                name@ == names[n as int],
                base@.has(name@),
                inc@.has(name@),
                b@ == base@.entry(name@),
                i@ == inc@.entry(name@),
                b@.shaped(),
                i@.shaped(),
                b@.within(base@.grid.width, base@.grid.height),
                i@.within(inc@.grid.width, inc@.grid.height),
                dirs@ == b@.state.dirs.dir_seq(),
                dirs@.len() == b@.frames.len(),
                src@ == inc@.grid,
                work.wf(),
                work@.width == base@.grid.width,
                work@.height == base@.grid.height,
                work@ == paste_state(start, b@, src@, i@, k as nat),
                forall|j: int| 0 <= j < n ==> !blocked(base@, inc@, #[trigger] names[j]),
                forall|a: int, f: int|
                    0 <= a < k && 0 <= f < b@.frames[a].len() ==> #[trigger] frame_copyable(
                        b@,
                        i@,
                        a,
                        f,
                    ),
            decreases b.frames@.len() - k,
        {
            let row = &b.frames[k];
            let dir = dirs[k];
            assert(row@ == b@.frames[k as int]);
            let ghost row_start = work@;
            let mut f: usize = 0;
            while f < row.len()
                invariant
                    f <= row@.len(),
                    k < b.frames@.len(),
                    n < state_names@.len(),
                    names == name_views(state_names@),
                    name@ == names[n as int],
                    base@.has(name@),
                    inc@.has(name@),
                    b@ == base@.entry(name@),
                    i@ == inc@.entry(name@),
                    row@ == b@.frames[k as int],
                    dir == b@.state.dirs.dir_seq()[k as int],
                    i@.shaped(),
                    b@.within(base@.grid.width, base@.grid.height),
                    i@.within(inc@.grid.width, inc@.grid.height),
                    src@ == inc@.grid,
                    work.wf(),
                    work@.width == base@.grid.width,
                    work@.height == base@.grid.height,
                    work@ == paste_row(row_start, b@, src@, i@, k as int, f as nat),
                    forall|j: int| 0 <= j < n ==> !blocked(base@, inc@, #[trigger] names[j]),
                    forall|c: int| 0 <= c < f ==> #[trigger] frame_copyable(b@, i@, k as int, c),
                decreases row@.len() - f,
            {
                let at = row[f];
                assert(at == b@.frames[k as int][f as int]);
                assert(at.fits(base@.grid.width, base@.grid.height));
                let found = i.rect_of(dir, f);
                assert(found == source_rect(b@, i@, k as int, f as int));
                match found {
                    Some(from) => {
                        if from.width != at.width || from.height != at.height {
                            assert(!frame_copyable(b@, i@, k as int, f as int));
                            return Err(OverlayError::FrameMismatch(n));
                        }
                        proof {
                            i@.state.dirs.lemma_positions();
                            let d = i@.state.dirs.spec_position(dir).unwrap() as int;
                            assert(from == i@.frames[d][f as int]);
                            assert(from.fits(inc@.grid.width, inc@.grid.height));
                        }
                        work.paste(at, src, from);
                    },
                    None => {
                        assert(!frame_copyable(b@, i@, k as int, f as int));
                        return Err(OverlayError::FrameMismatch(n));
                    },
                }
                f += 1;
            }
            k += 1;
        }
        assert(copyable(b@, i@));
        n += 1;
    }
    Ok(work)
}

/// Whether two grids have the same size and a pixel at the same places.
pub open spec fn same_extent(g: GridView, h: GridView) -> bool {
    g.width == h.width && g.height == h.height && g.pixels.dom() == h.pixels.dom()
}

/// Whether `g2` and `h2` could have come from `g` and `h` by the same
/// copying: each keeps the extent of its origin, and at every place either
/// both are as their origins were, or both hold the same pixel.
pub open spec fn coupled(g: GridView, h: GridView, g2: GridView, h2: GridView) -> bool {
    &&& same_extent(g, g2)
    &&& same_extent(h, h2)
    &&& forall|c: (int, int)| #[trigger]
        g.pixels.contains_key(c) ==> (g2.pixels[c] == g.pixels[c] && h2.pixels[c] == h.pixels[c])
            || g2.pixels[c] == h2.pixels[c]
}

proof fn lemma_coupled_then(
    g: GridView,
    h: GridView,
    g1: GridView,
    h1: GridView,
    g2: GridView,
    h2: GridView,
)
    requires
        same_extent(g, h),
        coupled(g, h, g1, h1),
        coupled(g1, h1, g2, h2),
    ensures
        coupled(g, h, g2, h2),
{
    assert forall|c: (int, int)| #[trigger] g.pixels.contains_key(c) implies (g2.pixels[c]
        == g.pixels[c] && h2.pixels[c] == h.pixels[c]) || g2.pixels[c] == h2.pixels[c] by {
        assert(g1.pixels.contains_key(c));
    }
}

proof fn lemma_paste_coupled(g: GridView, h: GridView, at: Rect, src: GridView, from: Rect)
    requires
        same_extent(g, h),
    ensures
        coupled(g, h, g.paste(at, src, from), h.paste(at, src, from)),
{
    assert(g.paste(at, src, from).pixels.dom() =~= g.pixels.dom());
    assert(h.paste(at, src, from).pixels.dom() =~= h.pixels.dom());
    assert forall|c: (int, int)| #[trigger] g.pixels.contains_key(c) implies (g.paste(
        at,
        src,
        from,
    ).pixels[c] == g.pixels[c] && h.paste(at, src, from).pixels[c] == h.pixels[c]) || g.paste(
        at,
        src,
        from,
    ).pixels[c] == h.paste(at, src, from).pixels[c] by {
        assert(h.pixels.contains_key(c));
    }
}

proof fn lemma_paste_row_coupled(
    g: GridView,
    h: GridView,
    base: EntryView,
    src: GridView,
    inc: EntryView,
    k: int,
    n: nat,
)
    requires
        same_extent(g, h),
    ensures
        coupled(g, h, paste_row(g, base, src, inc, k, n), paste_row(h, base, src, inc, k, n)),
    decreases n,
{
    if n > 0 {
        let m = (n - 1) as nat;
        lemma_paste_row_coupled(g, h, base, src, inc, k, m);
        let g1 = paste_row(g, base, src, inc, k, m);
        let h1 = paste_row(h, base, src, inc, k, m);
        let at = base.frames[k][n - 1];
        let from = source_rect(base, inc, k, n - 1).unwrap();
        lemma_paste_coupled(g1, h1, at, src, from);
        lemma_coupled_then(g, h, g1, h1, g1.paste(at, src, from), h1.paste(at, src, from));
    }
}

proof fn lemma_paste_state_coupled(
    g: GridView,
    h: GridView,
    base: EntryView,
    src: GridView,
    inc: EntryView,
    n: nat,
)
    requires
        same_extent(g, h),
    ensures
        coupled(g, h, paste_state(g, base, src, inc, n), paste_state(h, base, src, inc, n)),
    decreases n,
{
    if n > 0 {
        let m = (n - 1) as nat;
        lemma_paste_state_coupled(g, h, base, src, inc, m);
        let g1 = paste_state(g, base, src, inc, m);
        let h1 = paste_state(h, base, src, inc, m);
        let len = base.frames[n - 1].len();
        lemma_paste_row_coupled(g1, h1, base, src, inc, n - 1, len);
        lemma_coupled_then(
            g,
            h,
            g1,
            h1,
            paste_row(g1, base, src, inc, n - 1, len),
            paste_row(h1, base, src, inc, n - 1, len),
        );
    }
}

/// The base with another grid under the same catalogue.
pub open spec fn regridded(base: SheetView, grid: GridView) -> SheetView {
    SheetView { grid, entries: base.entries }
}

proof fn lemma_overlay_coupled(
    base: SheetView,
    h: GridView,
    inc: SheetView,
    names: Seq<Seq<char>>,
    n: nat,
)
    requires
        same_extent(base.grid, h),
    ensures
        coupled(
            base.grid,
            h,
            overlay_grid(base, inc, names, n),
            overlay_grid(regridded(base, h), inc, names, n),
        ),
    decreases n,
{
    if n > 0 {
        let m = (n - 1) as nat;
        lemma_overlay_coupled(base, h, inc, names, m);
        let g1 = overlay_grid(base, inc, names, m);
        let h1 = overlay_grid(regridded(base, h), inc, names, m);
        let entry = base.entry(names[n - 1]);
        assert(regridded(base, h).entry(names[n - 1]) == entry);
        let other = inc.entry(names[n - 1]);
        lemma_paste_state_coupled(g1, h1, entry, inc.grid, other, entry.frames.len());
        lemma_coupled_then(
            base.grid,
            h,
            g1,
            h1,
            paste_state(g1, entry, inc.grid, other, entry.frames.len()),
            paste_state(h1, entry, inc.grid, other, entry.frames.len()),
        );
    }
}

/// An overlay leaves the size of the grid as it was.
pub proof fn lemma_overlay_keeps_extent(
    base: SheetView,
    inc: SheetView,
    names: Seq<Seq<char>>,
    n: nat,
)
    ensures
        same_extent(base.grid, overlay_grid(base, inc, names, n)),
{
    lemma_overlay_coupled(base, base.grid, inc, names, n);
}

/// Overlaying is idempotent: an overlay made a second time, on the grid
/// that the first one gave, gives that grid again.
pub proof fn lemma_overlay_idempotent(base: SheetView, inc: SheetView, names: Seq<Seq<char>>)
    ensures
        overlay_grid(
            regridded(base, overlay_grid(base, inc, names, names.len())),
            inc,
            names,
            names.len(),
        ) == overlay_grid(base, inc, names, names.len()),
{
    let once = overlay_grid(base, inc, names, names.len());
    let twice = overlay_grid(regridded(base, once), inc, names, names.len());
    lemma_overlay_keeps_extent(base, inc, names, names.len());
    lemma_overlay_coupled(base, once, inc, names, names.len());
    assert forall|c: (int, int)| once.pixels.contains_key(c) implies twice.pixels[c]
        == once.pixels[c] by {
        assert(base.grid.pixels.contains_key(c));
    }
    assert(twice.pixels =~= once.pixels);
}

} // verus!
