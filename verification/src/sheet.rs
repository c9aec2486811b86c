//! A decoded sheet: its pixel grid and its catalogue of named states.

use crate::dirs::{Dir, Dirs};
use crate::grid::{GridView, PixelGrid, Rect};
use vstd::prelude::*;

verus! {

/// Where a state is drawn relative to its tile. Display metadata: it does not
/// say where the state's frames lie in the grid.
#[derive(Debug, PartialEq, Eq, Clone, Copy, Structural)]
pub struct Offset {
    pub x: i32,
    pub y: i32,
}

/// The metadata of one state.
#[derive(Debug, Clone, PartialEq, Eq)]
pub struct State {
    /// The directions the state is drawn in.
    pub dirs: Dirs,
    /// The timing of each frame; there are as many frames as timings.
    pub delays: Vec<u32>,
    pub offset: Offset,
}

pub struct StateView {
    pub dirs: Dirs,
    pub delays: Seq<u32>,
    pub offset: Offset,
}

impl View for State {
    type V = StateView;

    open spec fn view(&self) -> StateView {
        StateView { dirs: self.dirs, delays: self.delays@, offset: self.offset }
    }
}

impl StateView {
    /// Whether every attribute but the offset is equal.
    pub open spec fn same_meta_ignoring_offset(self, other: StateView) -> bool {
        self.dirs == other.dirs && self.delays == other.delays
    }
}

impl State {
    /// Whether every attribute but the offset is equal.
    pub fn same_meta_ignoring_offset(&self, other: &State) -> (r: bool)
        ensures
            r == self@.same_meta_ignoring_offset(other@),
    {
        if self.dirs != other.dirs || self.delays.len() != other.delays.len() {
            return false;
        }
        let mut i: usize = 0;
        while i < self.delays.len()
            invariant
                i <= self.delays@.len(),
                self.delays@.len() == other.delays@.len(),
                forall|k: int| 0 <= k < i ==> self.delays@[k] == other.delays@[k],
            decreases self.delays@.len() - i,
        {
            if self.delays[i] != other.delays[i] {
                return false;
            }
            i += 1;
        }
        assert(self.delays@ =~= other.delays@);
        true
    }
}

/// One entry of a sheet's catalogue: a state under its name, and where
/// each of its frames lies in the sheet's grid.
#[derive(Debug, Clone, PartialEq, Eq)]
pub struct StateEntry {
    pub name: String,
    pub state: State,
    /// For each direction of the state, in order, the rectangle of each
    /// frame.
    pub frames: Vec<Vec<Rect>>,
}

pub struct EntryView {
    pub name: Seq<char>,
    pub state: StateView,
    pub frames: Seq<Seq<Rect>>,
}

impl View for StateEntry {
    type V = EntryView;

    open spec fn view(&self) -> EntryView {
        EntryView {
            name: self.name@,
            state: self.state@,
            frames: Seq::new(self.frames@.len(), |d: int| self.frames@[d]@),
        }
    }
}

impl EntryView {
    /// Whether the entry has a row of rectangles for each direction, and in
    /// each row a rectangle for each frame.
    pub open spec fn shaped(self) -> bool {
        &&& self.frames.len() == self.state.dirs.spec_count()
        &&& forall|d: int|
            0 <= d < self.frames.len() ==> (#[trigger] self.frames[d]).len()
                == self.state.delays.len()
    }

    /// Whether every rectangle of the entry lies within an area of the given
    /// size.
    pub open spec fn within(self, width: nat, height: nat) -> bool {
        forall|d: int, f: int|
            0 <= d < self.frames.len() && 0 <= f < self.frames[d].len()
                ==> (#[trigger] self.frames[d][f]).fits(width, height)
    }

    /// The rectangle of a frame of the state in a direction: the one that
    /// the table of frames holds in the row of the direction, at the place of
    /// the frame.
    pub open spec fn rect_of(self, dir: Dir, frame: int) -> Option<Rect> {
        match self.state.dirs.spec_position(dir) {
            Some(d) => if d < self.frames.len() && 0 <= frame < self.frames[d as int].len() {
                Some(self.frames[d as int][frame])
            } else {
                None
            },
            None => None,
        }
    }
}

impl StateEntry {
    /// The rectangle of a frame of the state in a direction; none when the
    /// state has no such direction or frame.
    pub fn rect_of(&self, dir: Dir, frame: usize) -> (r: Option<Rect>)
        ensures
            r == self@.rect_of(dir, frame as int),
    {
        match self.state.dirs.position(dir) {
            Some(d) => {
                if d < self.frames.len() && frame < self.frames[d].len() {
                    assert(self.frames@[d as int]@ == self@.frames[d as int]);
                    Some(self.frames[d][frame])
                } else {
                    None
                }
            },
            None => None,
        }
    }
}

/// The views of a vector of entries.
pub open spec fn entry_views(entries: Seq<StateEntry>) -> Seq<EntryView> {
    Seq::new(entries.len(), |i: int| entries[i]@)
}

/// Whether no name occurs twice.
pub open spec fn names_unique(entries: Seq<EntryView>) -> bool {
    forall|i: int, j: int|
        0 <= i < j < entries.len() ==> (#[trigger] entries[i]).name != (#[trigger] entries[j]).name
}

/// Whether every entry is `shaped`.
pub open spec fn all_shaped(entries: Seq<EntryView>) -> bool {
    forall|i: int| 0 <= i < entries.len() ==> (#[trigger] entries[i]).shaped()
}

/// Whether every entry lies `within` the area.
pub open spec fn all_within(entries: Seq<EntryView>, width: nat, height: nat) -> bool {
    forall|i: int| 0 <= i < entries.len() ==> (#[trigger] entries[i]).within(width, height)
}

pub struct SheetView {
    pub grid: GridView,
    pub entries: Seq<EntryView>,
}

impl SheetView {
    /// Whether the catalogue has a state of that name.
    pub open spec fn has(self, name: Seq<char>) -> bool {
        exists|i: int| 0 <= i < self.entries.len() && (#[trigger] self.entries[i]).name == name
    }

    /// The place in the catalogue of the state of that name.
    pub open spec fn index_of(self, name: Seq<char>) -> int {
        choose|i: int| 0 <= i < self.entries.len() && (#[trigger] self.entries[i]).name == name
    }

    /// The catalogue entry of that name.
    pub open spec fn entry(self, name: Seq<char>) -> EntryView {
        self.entries[self.index_of(name)]
    }

    /// A sheet is well formed when its grid is, no name occurs twice in its
    /// catalogue, every state has a rectangle for each direction and frame,
    /// and every rectangle lies within the grid.
    pub open spec fn wf(self) -> bool {
        &&& self.grid.wf()
        &&& names_unique(self.entries)
        &&& all_shaped(self.entries)
        &&& all_within(self.entries, self.grid.width, self.grid.height)
    }

    /// The rectangle of the grid that holds a frame of a state in a
    /// direction; none when the catalogue has no such state, direction or
    /// frame.
    pub open spec fn rect_of(self, name: Seq<char>, dir: Dir, frame: int) -> Option<Rect> {
        if self.has(name) {
            self.entry(name).rect_of(dir, frame)
        } else {
            None
        }
    }

    /// In a catalogue without repeated names, a name is found where it
    /// stands.
    pub proof fn lemma_index_of(self, i: int)
        requires
            names_unique(self.entries),
            0 <= i < self.entries.len(),
        ensures
            self.has(self.entries[i].name),
            self.index_of(self.entries[i].name) == i,
            self.entry(self.entries[i].name) == self.entries[i],
    {
        let name = self.entries[i].name;
        let k = self.index_of(name);
        assert(0 <= k < self.entries.len() && self.entries[k].name == name);
        if k < i {
            assert(self.entries[k].name != self.entries[i].name);
        } else if i < k {
            assert(self.entries[i].name != self.entries[k].name);
        }
    }
}

/// Why a grid and a catalogue do not make a sheet.
#[derive(Debug, PartialEq, Eq, Clone, Copy, Structural)]
pub enum SheetError {
    /// Two entries have the same name.
    DuplicateName,
    /// An entry lacks a row of rectangles for a direction, or a rectangle
    /// for a frame, or has one too many.
    FrameTable,
    /// A rectangle reaches beyond the grid.
    RectOutOfBounds,
}

/// A pixel grid with its catalogue of named states.
#[derive(Debug)]
pub struct Sheet {
    grid: PixelGrid,
    entries: Vec<StateEntry>,
}

impl View for Sheet {
    type V = SheetView;

    closed spec fn view(&self) -> SheetView {
        SheetView { grid: self.grid@, entries: entry_views(self.entries@) }
    }
}

fn check_names_unique(entries: &Vec<StateEntry>) -> (r: bool)
    ensures
        r == names_unique(entry_views(entries@)),
{
    let ghost views = entry_views(entries@);
    let mut j: usize = 0;
    while j < entries.len()
        invariant
            j <= entries@.len(),
            views == entry_views(entries@),
            forall|a: int, b: int| 0 <= a < b < j ==> views[a].name != views[b].name,
        decreases entries@.len() - j,
    {
        let mut i: usize = 0;
        while i < j
            invariant
                i <= j,
                j < entries@.len(),
                views == entry_views(entries@),
                forall|a: int| 0 <= a < i ==> views[a].name != views[j as int].name,
            decreases j - i,
        {
            if entries[i].name == entries[j].name {
                assert(views[i as int].name == views[j as int].name);
                return false;
            }
            i += 1;
        }
        j += 1;
    }
    true
}

fn check_shaped(entry: &StateEntry) -> (r: bool)
    ensures
        r == entry@.shaped(),
{
    if entry.frames.len() != entry.state.dirs.count() {
        return false;
    }
    let mut d: usize = 0;
    while d < entry.frames.len()
        invariant
            d <= entry.frames@.len(),
            entry@.frames.len() == entry@.state.dirs.spec_count(),
            forall|k: int| 0 <= k < d ==> (#[trigger] entry@.frames[k]).len() == entry@.state.delays.len(),
        decreases entry.frames@.len() - d,
    {
        if entry.frames[d].len() != entry.state.delays.len() {
            assert(entry@.frames[d as int].len() != entry@.state.delays.len());
            return false;
        }
        d += 1;
    }
    true
}

fn check_fits(r: Rect, width: u32, height: u32) -> (ok: bool)
    ensures
        ok == r.fits(width as nat, height as nat),
{
    r.x as u64 + r.width as u64 <= width as u64 && r.y as u64 + r.height as u64 <= height as u64
}

fn check_within(entry: &StateEntry, width: u32, height: u32) -> (r: bool)
    ensures
        r == entry@.within(width as nat, height as nat),
{
    let mut d: usize = 0;
    while d < entry.frames.len()
        invariant
            d <= entry.frames@.len(),
            forall|k: int, f: int|
                0 <= k < d && 0 <= f < entry@.frames[k].len() ==> (#[trigger] entry@.frames[k][f]).fits(
                    width as nat,
                    height as nat,
                ),
        decreases entry.frames@.len() - d,
    {
        let row = &entry.frames[d];
        assert(row@ == entry@.frames[d as int]);
        let mut f: usize = 0;
        while f < row.len()
            invariant
                f <= row@.len(),
                d < entry.frames@.len(),
                row@ == entry@.frames[d as int],
                forall|k: int| 0 <= k < f ==> (#[trigger] row@[k]).fits(width as nat, height as nat),
            decreases row@.len() - f,
        {
            if !check_fits(row[f], width, height) {
                assert(!entry@.frames[d as int][f as int].fits(width as nat, height as nat));
                return false;
            }
            f += 1;
        }
        d += 1;
    }
    true
}

impl Sheet {
    /// Every sheet that `new` hands out is well formed.
    pub open spec fn wf(&self) -> bool {
        self@.wf()
    }

    /// Pairs a grid with a catalogue, after checking that the catalogue is
    /// sound and fits the grid.
    pub fn new(grid: PixelGrid, entries: Vec<StateEntry>) -> (r: Result<Sheet, SheetError>)
        requires
            grid.wf(),
        ensures
            match r {
                Ok(sheet) => {
                    &&& sheet.wf()
                    &&& sheet@ == SheetView { grid: grid@, entries: entry_views(entries@) }
                },
                Err(SheetError::DuplicateName) => !names_unique(entry_views(entries@)),
                Err(SheetError::FrameTable) => {
                    &&& names_unique(entry_views(entries@))
                    &&& !all_shaped(entry_views(entries@))
                },
                Err(SheetError::RectOutOfBounds) => {
                    &&& names_unique(entry_views(entries@))
                    &&& all_shaped(entry_views(entries@))
                    &&& !all_within(entry_views(entries@), grid@.width, grid@.height)
                },
            },
    {
        let ghost views = entry_views(entries@);
        if !check_names_unique(&entries) {
            return Err(SheetError::DuplicateName);
        }
        let mut i: usize = 0;
        while i < entries.len()
            invariant
                i <= entries@.len(),
                views == entry_views(entries@),
                names_unique(views),
                forall|k: int| 0 <= k < i ==> (#[trigger] views[k]).shaped(),
            decreases entries@.len() - i,
        {
            if !check_shaped(&entries[i]) {
                assert(!views[i as int].shaped());
                return Err(SheetError::FrameTable);
            }
            i += 1;
        }
        let width: u32 = grid.width();
        let height: u32 = grid.height();
        let mut i: usize = 0;
        while i < entries.len()
            invariant
                i <= entries@.len(),
                views == entry_views(entries@),
                names_unique(views),
                all_shaped(views),
                width == grid@.width,
                height == grid@.height,
                forall|k: int| 0 <= k < i ==> (#[trigger] views[k]).within(width as nat, height as nat),
            decreases entries@.len() - i,
        {
            if !check_within(&entries[i], width, height) {
                assert(!views[i as int].within(width as nat, height as nat));
                return Err(SheetError::RectOutOfBounds);
            }
            i += 1;
        }
        Ok(Sheet { grid, entries })
    }

    /// The pixel grid.
    pub fn grid(&self) -> (g: &PixelGrid)
        ensures
            g@ == self@.grid,
    {
        &self.grid
    }

    /// The catalogue, in the order in which it was given.
    pub fn entries(&self) -> (e: &Vec<StateEntry>)
        ensures
            entry_views(e@) == self@.entries,
    {
        &self.entries
    }

    /// The place in the catalogue of the state of that name.
    pub fn find(&self, name: &String) -> (r: Option<usize>)
        requires
            self.wf(),
        ensures
            r is Some <==> self@.has(name@),
            r matches Some(i) ==> i == self@.index_of(name@) && i < self@.entries.len(),
    {
        let mut i: usize = 0;
        while i < self.entries.len()
            invariant
                i <= self.entries@.len(),
                self.wf(),
                forall|k: int| 0 <= k < i ==> (#[trigger] self@.entries[k]).name != name@,
            decreases self.entries@.len() - i,
        {
            if self.entries[i].name == *name {
                proof {
                    assert(self@.entries[i as int].name == name@);
                    self@.lemma_index_of(i as int);
                }
                return Some(i);
            }
            i += 1;
        }
        None
    }

    /// The catalogue entry of that name.
    pub fn entry(&self, name: &String) -> (r: Option<&StateEntry>)
        requires
            self.wf(),
        ensures
            r is Some <==> self@.has(name@),
            r matches Some(e) ==> e@ == self@.entry(name@),
    {
        match self.find(name) {
            Some(i) => Some(&self.entries[i]),
            None => None,
        }
    }

    /// The rectangle of the grid that holds a frame of a state in a
    /// direction; none when the catalogue has no such state, direction or
    /// frame.
    pub fn rect_of(&self, name: &String, dir: Dir, frame: usize) -> (r: Option<Rect>)
        requires
            self.wf(),
        ensures
            r == self@.rect_of(name@, dir, frame as int),
            r matches Some(rect) ==> self@.grid.contains_rect(rect),
    {
        match self.find(name) {
            Some(i) => {
                let entry = &self.entries[i];
                assert(entry@ == self@.entries[i as int]);
                assert(entry@.shaped());
                assert(entry@.within(self@.grid.width, self@.grid.height));
                proof {
                    entry@.state.dirs.lemma_positions();
                }
                entry.rect_of(dir, frame)
            },
            None => None,
        }
    }

    /// A sheet with the same catalogue over another grid of the same size;
    /// none when the size differs.
    pub fn with_grid(&self, grid: PixelGrid) -> (r: Option<Sheet>)
        requires
            self.wf(),
            grid.wf(),
        ensures
            r is Some <==> grid@.width == self@.grid.width && grid@.height == self@.grid.height,
            r matches Some(sheet) ==> sheet.wf() && sheet@ == (SheetView {
                grid: grid@,
                entries: self@.entries,
            }),
    {
        if grid.width() != self.grid.width() || grid.height() != self.grid.height() {
            return None;
        }
        Some(self.regrid(grid))
    }

    /// A sheet with the same catalogue over another grid of the same size.
    pub(crate) fn regrid(&self, grid: PixelGrid) -> (sheet: Sheet)
        requires
            self.wf(),
            grid.wf(),
            grid@.width == self@.grid.width,
            grid@.height == self@.grid.height,
        ensures
            sheet.wf(),
            sheet@ == (SheetView { grid: grid@, entries: self@.entries }),
    {
        let mut entries: Vec<StateEntry> = Vec::new();
        let mut i: usize = 0;
        while i < self.entries.len()
            invariant
                i <= self.entries@.len(),
                entries@.len() == i,
                forall|k: int| 0 <= k < i ==> (#[trigger] entries@[k])@ == self.entries@[k]@,
            decreases self.entries@.len() - i,
        {
            entries.push(duplicate_entry(&self.entries[i]));
            i += 1;
        }
        assert(entry_views(entries@) =~= entry_views(self.entries@));
        Sheet { grid, entries }
    }
}

/// A second entry with the same content.
fn duplicate_entry(entry: &StateEntry) -> (r: StateEntry)
    ensures
        r@ == entry@,
{
    let mut frames: Vec<Vec<Rect>> = Vec::new();
    let mut d: usize = 0;
    while d < entry.frames.len()
        invariant
            d <= entry.frames@.len(),
            frames@.len() == d,
            forall|k: int| 0 <= k < d ==> (#[trigger] frames@[k])@ == entry.frames@[k]@,
        decreases entry.frames@.len() - d,
    {
        let row = entry.frames[d].clone();
        assert(row@ =~= entry.frames@[d as int]@);
        frames.push(row);
        d += 1;
    }
    let delays = entry.state.delays.clone();
    assert(delays@ =~= entry.state.delays@);
    let r = StateEntry {
        name: entry.name.clone(),
        state: State { dirs: entry.state.dirs, delays, offset: entry.state.offset },
        frames,
    };
    assert(r@.frames =~= entry@.frames);
    r
}

} // verus!
