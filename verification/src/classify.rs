//! Comparing two versions of a sheet state by state.

use crate::grid::{rect_pixel, rect_pixels_equal, GridView, Rect};
use crate::order::{lemma_name_order, name_before, name_precedes};
use crate::sheet::{entry_views, names_unique, EntryView, Sheet, SheetView, StateEntry};
use crate::status::FragmentStatus;
use vstd::prelude::*;

verus! {

/// Whether frame `f` of direction `k` holds the same pixels in both entries,
/// each looked up in its own grid.
pub open spec fn frame_equal(
    src: GridView,
    s: EntryView,
    dst: GridView,
    d: EntryView,
    k: int,
    f: int,
) -> bool {
    rect_pixels_equal(src, s.frames[k][f], dst, d.frames[k][f])
}

/// Whether every frame of every direction holds the same pixels in both
/// entries.
pub open spec fn frames_match(src: GridView, s: EntryView, dst: GridView, d: EntryView) -> bool {
    forall|k: int, f: int|
        0 <= k < s.frames.len() && 0 <= f < s.frames[k].len() ==> #[trigger] frame_equal(
            src,
            s,
            dst,
            d,
            k,
            f,
        )
}

/// The status of the state `name` in a comparison of `src`, the earlier
/// sheet, with `dst`, the later one.
pub open spec fn status_of(src: SheetView, dst: SheetView, name: Seq<char>) -> FragmentStatus {
    if !src.has(name) {
        FragmentStatus::Added
    } else if !dst.has(name) {
        FragmentStatus::Removed
    } else {
        let s = src.entry(name);
        let d = dst.entry(name);
        if !s.state.same_meta_ignoring_offset(d.state) {
            FragmentStatus::ChangedMeta
        } else {
            let preliminary = if s.state.offset == d.state.offset {
                FragmentStatus::Unchanged
            } else {
                FragmentStatus::ChangedOffsetOnly
            };
            if frames_match(src.grid, s, dst.grid, d) {
                preliminary
            } else {
                preliminary.promoted()
            }
        }
    }
}

/// The names among the first `n` entries of `dst` that `src` does not have,
/// in order.
pub open spec fn added_names(src: SheetView, dst: SheetView, n: nat) -> Seq<Seq<char>>
    decreases n,
{
    if n == 0 {
        Seq::empty()
    } else {
        let before = added_names(src, dst, (n - 1) as nat);
        let name = dst.entries[n - 1].name;
        if src.has(name) {
            before
        } else {
            before.push(name)
        }
    }
}

/// The names of the catalogue, in order.
pub open spec fn catalogue_names(sheet: SheetView) -> Seq<Seq<char>> {
    Seq::new(sheet.entries.len(), |i: int| sheet.entries[i].name)
}

/// The names that a report on `src` and `dst` has a line for, as the two
/// catalogues give them: those of `src`, then those that only `dst` has.
pub open spec fn report_names(src: SheetView, dst: SheetView) -> Seq<Seq<char>> {
    catalogue_names(src) + added_names(src, dst, dst.entries.len())
}

/// Whether the lines stand in the order of their names, no name twice.
pub open spec fn lines_sorted(lines: Seq<(Seq<char>, FragmentStatus)>) -> bool {
    forall|i: int, j: int|
        0 <= i < j < lines.len() ==> name_before(
            (#[trigger] lines[i]).0,
            (#[trigger] lines[j]).0,
        )
}

/// The first place at or after `i` whose line does not come before `name`.
pub open spec fn place_from(lines: Seq<(Seq<char>, FragmentStatus)>, name: Seq<char>, i: int) -> int
    decreases lines.len() - i,
{
    if 0 <= i < lines.len() && name_before(lines[i].0, name) {
        place_from(lines, name, i + 1)
    } else {
        i
    }
}

/// The place of a line of that name among sorted lines: after the lines
/// that come before the name.
pub open spec fn place_of(lines: Seq<(Seq<char>, FragmentStatus)>, name: Seq<char>) -> int {
    place_from(lines, name, 0)
}

/// The lines with one more, put at its place.
pub open spec fn insert_line(
    lines: Seq<(Seq<char>, FragmentStatus)>,
    line: (Seq<char>, FragmentStatus),
) -> Seq<(Seq<char>, FragmentStatus)> {
    lines.insert(place_of(lines, line.0), line)
}

/// A line for each of the names, with its status, in the order of the
/// names.
pub open spec fn sorted_lines(src: SheetView, dst: SheetView, names: Seq<Seq<char>>) -> Seq<
    (Seq<char>, FragmentStatus),
>
    decreases names.len(),
{
    if names.len() == 0 {
        Seq::empty()
    } else {
        insert_line(
            sorted_lines(src, dst, names.drop_last()),
            (names.last(), status_of(src, dst, names.last())),
        )
    }
}

/// The lines of the report on `src` and `dst`: one for each state that
/// either sheet has, in the order of the names.
pub open spec fn report_lines(src: SheetView, dst: SheetView) -> Seq<(Seq<char>, FragmentStatus)> {
    sorted_lines(src, dst, report_names(src, dst))
}

/// Whether one of the first `n` entries of the catalogue has that name.
pub open spec fn named_before(sheet: SheetView, n: nat, name: Seq<char>) -> bool {
    exists|k: int| 0 <= k < n && k < sheet.entries.len() && (#[trigger] sheet.entries[k]).name == name
}

/// One line of a report.
#[derive(Debug, Clone, PartialEq, Eq)]
pub struct ReportEntry {
    pub name: String,
    pub status: FragmentStatus,
}

/// The statuses of all states of two sheets, one for each name.
#[derive(Debug)]
pub struct Report {
    entries: Vec<ReportEntry>,
}

/// The lines of a report as pairs of a name and a status.
pub open spec fn line_views(entries: Seq<ReportEntry>) -> Seq<(Seq<char>, FragmentStatus)> {
    Seq::new(entries.len(), |i: int| (entries[i].name@, entries[i].status))
}

/// Whether some line has that name.
pub open spec fn lines_have(lines: Seq<(Seq<char>, FragmentStatus)>, name: Seq<char>) -> bool {
    exists|i: int| 0 <= i < lines.len() && (#[trigger] lines[i]).0 == name
}

/// The place of a line of that name.
pub open spec fn line_of(lines: Seq<(Seq<char>, FragmentStatus)>, name: Seq<char>) -> int {
    choose|i: int| 0 <= i < lines.len() && (#[trigger] lines[i]).0 == name
}

/// Whether no two lines have the same name.
pub open spec fn lines_distinct(lines: Seq<(Seq<char>, FragmentStatus)>) -> bool {
    forall|i: int, j: int|
        0 <= i < j < lines.len() ==> (#[trigger] lines[i]).0 != (#[trigger] lines[j]).0
}

/// The mapping from names to statuses that the lines describe.
pub open spec fn lines_map(lines: Seq<(Seq<char>, FragmentStatus)>) -> Map<
    Seq<char>,
    FragmentStatus,
> {
    Map::new(|name: Seq<char>| lines_have(lines, name), |name: Seq<char>| lines[line_of(lines, name)].1)
}

/// Among lines with distinct names, a name is found where it stands.
pub proof fn lemma_line_of(lines: Seq<(Seq<char>, FragmentStatus)>, i: int)
    requires
        lines_distinct(lines),
        0 <= i < lines.len(),
    ensures
        lines_have(lines, lines[i].0),
        line_of(lines, lines[i].0) == i,
        lines_map(lines)[lines[i].0] == lines[i].1,
{
    let name = lines[i].0;
    let k = line_of(lines, name);
    assert(0 <= k < lines.len() && lines[k].0 == name);
    if k < i {
        assert(lines[k].0 != lines[i].0);
    } else if i < k {
        assert(lines[i].0 != lines[k].0);
    }
}

/// What `added_names` holds: names of `dst` that `src` lacks, all of them,
/// each once.
pub proof fn lemma_added_names(src: SheetView, dst: SheetView, n: nat)
    requires
        names_unique(dst.entries),
        n <= dst.entries.len(),
    ensures
        forall|a: int|
            0 <= a < added_names(src, dst, n).len() ==> !src.has(
                #[trigger] added_names(src, dst, n)[a],
            ) && named_before(dst, n, added_names(src, dst, n)[a]),
        forall|k: int|
            0 <= k < n ==> src.has((#[trigger] dst.entries[k]).name) || added_names(
                src,
                dst,
                n,
            ).contains(dst.entries[k].name),
        added_names(src, dst, n).no_duplicates(),
    decreases n,
{
    if n > 0 {
        let m = (n - 1) as nat;
        lemma_added_names(src, dst, m);
        let before = added_names(src, dst, m);
        let added = added_names(src, dst, n);
        let name = dst.entries[n - 1].name;
        assert forall|a: int| 0 <= a < before.len() implies named_before(
            dst,
            n,
            #[trigger] before[a],
        ) && before[a] != name by {
            assert(named_before(dst, m, before[a]));
            let k = choose|k: int|
                0 <= k < m && k < dst.entries.len() && (#[trigger] dst.entries[k]).name
                    == before[a];
            assert(dst.entries[k].name != dst.entries[n - 1].name);
        }
        if src.has(name) {
            assert(added == before);
        } else {
            assert(added == before.push(name));
            assert(named_before(dst, n, name)) by {
                assert(dst.entries[n - 1].name == name);
            }
            assert forall|k: int| 0 <= k < n implies src.has((#[trigger] dst.entries[k]).name)
                || added.contains(dst.entries[k].name) by {
                if k < m {
                    if !src.has(dst.entries[k].name) {
                        let a = choose|a: int|
                            0 <= a < before.len() && before[a] == dst.entries[k].name;
                        assert(added[a] == dst.entries[k].name);
                    }
                } else {
                    assert(added[before.len() as int] == name);
                }
            }
        }
    }
}

/// Sorted lines have no name twice.
pub proof fn lemma_sorted_lines_distinct(lines: Seq<(Seq<char>, FragmentStatus)>)
    requires
        lines_sorted(lines),
    ensures
        lines_distinct(lines),
{
    assert forall|i: int, j: int| 0 <= i < j < lines.len() implies (#[trigger] lines[i]).0 != (
    #[trigger] lines[j]).0 by {
        lemma_name_order(lines[i].0, lines[j].0, lines[j].0);
    }
}

proof fn lemma_place_from(lines: Seq<(Seq<char>, FragmentStatus)>, name: Seq<char>, i: int)
    requires
        0 <= i <= lines.len(),
        forall|k: int| 0 <= k < i ==> name_before((#[trigger] lines[k]).0, name),
    ensures
        i <= place_from(lines, name, i) <= lines.len(),
        forall|k: int|
            0 <= k < place_from(lines, name, i) ==> name_before((#[trigger] lines[k]).0, name),
        place_from(lines, name, i) < lines.len() ==> !name_before(
            lines[place_from(lines, name, i)].0,
            name,
        ),
    decreases lines.len() - i,
{
    if i < lines.len() && name_before(lines[i].0, name) {
        lemma_place_from(lines, name, i + 1);
    }
}

/// What putting a line at its place does: the lines before the place and
/// after it stay as they were, the names are those of before and the new
/// one, and sorted lines without that name stay sorted.
pub proof fn lemma_insert_line(
    lines: Seq<(Seq<char>, FragmentStatus)>,
    line: (Seq<char>, FragmentStatus),
)
    ensures
        0 <= place_of(lines, line.0) <= lines.len(),
        insert_line(lines, line).len() == lines.len() + 1,
        forall|i: int|
            0 <= i < insert_line(lines, line).len() ==> #[trigger] insert_line(lines, line)[i]
                == if i < place_of(lines, line.0) {
                lines[i]
            } else if i == place_of(lines, line.0) {
                line
            } else {
                lines[i - 1]
            },
        forall|name: Seq<char>|
            lines_have(insert_line(lines, line), name) <==> lines_have(lines, name) || name
                == line.0,
        lines_sorted(lines) && !lines_have(lines, line.0) ==> lines_sorted(
            insert_line(lines, line),
        ),
{
    let p = place_of(lines, line.0);
    let out = insert_line(lines, line);
    lemma_place_from(lines, line.0, 0);
    assert forall|i: int| 0 <= i < out.len() implies #[trigger] out[i] == if i < p {
        lines[i]
    } else if i == p {
        line
    } else {
        lines[i - 1]
    } by {}
    assert forall|name: Seq<char>| lines_have(out, name) implies lines_have(lines, name) || name
        == line.0 by {
        let i = line_of(out, name);
        if i < p {
            assert(lines[i].0 == name);
        } else if i > p {
            assert(lines[i - 1].0 == name);
        }
    }
    assert forall|name: Seq<char>| lines_have(lines, name) || name == line.0 implies lines_have(
        out,
        name,
    ) by {
        if name == line.0 {
            assert(out[p].0 == name);
        } else {
            let i = line_of(lines, name);
            if i < p {
                assert(out[i].0 == name);
            } else {
                assert(out[i + 1].0 == name);
            }
        }
    }
    if lines_sorted(lines) && !lines_have(lines, line.0) {
        assert forall|k: int| p <= k < lines.len() implies name_before(
            line.0,
            (#[trigger] lines[k]).0,
        ) by {
            lemma_name_order(lines[p].0, line.0, line.0);
            lemma_name_order(line.0, lines[p].0, lines[k].0);
        }
        assert forall|i: int, j: int| 0 <= i < j < out.len() implies name_before(
            (#[trigger] out[i]).0,
            (#[trigger] out[j]).0,
        ) by {
            if i < p {
                if j > p {
                    assert(name_before(lines[i].0, lines[j - 1].0));
                }
            } else if i == p {
                assert(name_before(line.0, lines[j - 1].0));
            } else {
                assert(name_before(lines[i - 1].0, lines[j - 1].0));
            }
        }
    }
}

/// What `sorted_lines` holds: a line for each of the names and for no other
/// name, each with the status of its name; and where no name is given
/// twice, the lines are sorted.
pub proof fn lemma_sorted_lines(src: SheetView, dst: SheetView, names: Seq<Seq<char>>)
    ensures
        sorted_lines(src, dst, names).len() == names.len(),
        forall|name: Seq<char>|
            lines_have(sorted_lines(src, dst, names), name) <==> names.contains(name),
        forall|i: int|
            0 <= i < names.len() ==> (#[trigger] sorted_lines(src, dst, names)[i]).1 == status_of(
                src,
                dst,
                sorted_lines(src, dst, names)[i].0,
            ),
        names.no_duplicates() ==> lines_sorted(sorted_lines(src, dst, names)),
    decreases names.len(),
{
    if names.len() > 0 {
        let rest = names.drop_last();
        let last = names.last();
        let before = sorted_lines(src, dst, rest);
        let line = (last, status_of(src, dst, last));
        let now = sorted_lines(src, dst, names);
        lemma_sorted_lines(src, dst, rest);
        lemma_insert_line(before, line);
        assert forall|name: Seq<char>| lines_have(now, name) <==> names.contains(name) by {
            if rest.contains(name) {
                let i = choose|i: int| 0 <= i < rest.len() && rest[i] == name;
                assert(names[i] == name);
            }
            if names.contains(name) {
                let i = choose|i: int| 0 <= i < names.len() && names[i] == name;
                if i < rest.len() {
                    assert(rest[i] == name);
                }
            }
        }
        if names.no_duplicates() {
            assert forall|i: int, j: int| 0 <= i < j < rest.len() implies rest[i] != rest[j] by {
                assert(names[i] != names[j]);
            }
            if rest.contains(last) {
                let i = choose|i: int| 0 <= i < rest.len() && rest[i] == last;
                assert(names[i] != names[names.len() - 1]);
            }
        }
    } else {
        assert forall|name: Seq<char>| !lines_have(sorted_lines(src, dst, names), name) by {}
    }
}

/// The names of a report: each name of either catalogue, once.
pub proof fn lemma_report_names(src: SheetView, dst: SheetView)
    requires
        names_unique(src.entries),
        names_unique(dst.entries),
    ensures
        report_names(src, dst).no_duplicates(),
        forall|name: Seq<char>|
            report_names(src, dst).contains(name) <==> src.has(name) || dst.has(name),
{
    let n = dst.entries.len();
    let base: int = src.entries.len() as int;
    let added = added_names(src, dst, n);
    let names = report_names(src, dst);
    lemma_added_names(src, dst, n);
    assert forall|i: int, j: int| 0 <= i < j < names.len() implies names[i] != names[j] by {
        if j < base {
            assert(src.entries[i].name != src.entries[j].name);
        } else if i < base {
            assert(src.entries[i].name == names[i]);
            assert(!src.has(added[j - base]));
        } else {
            assert(added[i - base] != added[j - base]);
        }
    }
    assert forall|name: Seq<char>| src.has(name) || dst.has(name) implies names.contains(
        name,
    ) by {
        if src.has(name) {
            let i = src.index_of(name);
            assert(names[i] == name);
        } else {
            let k = dst.index_of(name);
            assert(dst.entries[k].name == name);
            let a = choose|a: int| 0 <= a < added.len() && added[a] == name;
            assert(names[base + a] == name);
        }
    }
    assert forall|name: Seq<char>| names.contains(name) implies src.has(name) || dst.has(
        name,
    ) by {
        let i = choose|i: int| 0 <= i < names.len() && names[i] == name;
        if i < base {
            assert(src.entries[i].name == name);
        } else {
            assert(named_before(dst, n, added[i - base]));
        }
    }
}

/// A report is sorted by name, has one line for each name that either
/// sheet has and for no other name, and gives each of these names its
/// status.
pub proof fn lemma_report_lines(src: SheetView, dst: SheetView)
    requires
        names_unique(src.entries),
        names_unique(dst.entries),
    ensures
        lines_sorted(report_lines(src, dst)),
        lines_distinct(report_lines(src, dst)),
        forall|i: int|
            0 <= i < report_lines(src, dst).len() ==> (#[trigger] report_lines(src, dst)[i]).1
                == status_of(src, dst, report_lines(src, dst)[i].0),
        forall|name: Seq<char>|
            lines_map(report_lines(src, dst)).contains_key(name) <==> src.has(name) || dst.has(name),
        forall|name: Seq<char>|
            src.has(name) || dst.has(name) ==> #[trigger] lines_map(report_lines(src, dst))[name]
                == status_of(src, dst, name),
{
    let lines = report_lines(src, dst);
    lemma_report_names(src, dst);
    lemma_sorted_lines(src, dst, report_names(src, dst));
    lemma_sorted_lines_distinct(lines);
    assert forall|name: Seq<char>| src.has(name) || dst.has(name) implies #[trigger] lines_map(
        lines,
    )[name] == status_of(src, dst, name) by {
        let i = line_of(lines, name);
        lemma_line_of(lines, i);
    }
}

/// The names of those among the first `n` lines whose status has a pixel
/// change, in order.
pub open spec fn pixel_changed_names(lines: Seq<(Seq<char>, FragmentStatus)>, n: nat) -> Seq<
    Seq<char>,
>
    decreases n,
{
    if n == 0 {
        Seq::empty()
    } else {
        let before = pixel_changed_names(lines, (n - 1) as nat);
        if lines[n - 1].1.spec_has_pixel_change() {
            before.push(lines[n - 1].0)
        } else {
            before
        }
    }
}

/// Those among the first `n` lines whose status is a meaningful change, in
/// order.
pub open spec fn meaningful_lines(lines: Seq<(Seq<char>, FragmentStatus)>, n: nat) -> Seq<
    (Seq<char>, FragmentStatus),
>
    decreases n,
{
    if n == 0 {
        Seq::empty()
    } else {
        let before = meaningful_lines(lines, (n - 1) as nat);
        if lines[n - 1].1.spec_is_meaningful_change() {
            before.push(lines[n - 1])
        } else {
            before
        }
    }
}

/// Whether the status of some line has a metadata change.
pub open spec fn any_meta_change(lines: Seq<(Seq<char>, FragmentStatus)>) -> bool {
    exists|k: int| 0 <= k < lines.len() && (#[trigger] lines[k]).1.spec_has_meta_change()
}

/// The views of a vector of names.
pub open spec fn name_views(names: Seq<String>) -> Seq<Seq<char>> {
    Seq::new(names.len(), |i: int| names[i]@)
}

impl View for Report {
    type V = Map<Seq<char>, FragmentStatus>;

    open spec fn view(&self) -> Map<Seq<char>, FragmentStatus> {
        lines_map(self.lines())
    }
}

impl Report {
    /// The lines of the report, in order.
    pub closed spec fn lines(&self) -> Seq<(Seq<char>, FragmentStatus)> {
        line_views(self.entries@)
    }

    /// The lines of a report are sorted by name, so that it has one line
    /// for a name.
    pub open spec fn wf(&self) -> bool {
        lines_sorted(self.lines())
    }

    /// The lines of the report, in order.
    pub fn entries(&self) -> (e: &Vec<ReportEntry>)
        ensures
            line_views(e@) == self.lines(),
    {
        &self.entries
    }

    /// The status recorded for a name.
    pub fn get(&self, name: &String) -> (r: Option<FragmentStatus>)
        requires
            self.wf(),
        ensures
            r == if self@.contains_key(name@) {
                Some(self@[name@])
            } else {
                None
            },
    {
        let mut i: usize = 0;
        while i < self.entries.len()
            invariant
                i <= self.entries@.len(),
                self.wf(),
                forall|k: int| 0 <= k < i ==> (#[trigger] self.lines()[k]).0 != name@,
            decreases self.entries@.len() - i,
        {
            if self.entries[i].name == *name {
                proof {
                    assert(self.lines()[i as int].0 == name@);
                    lemma_sorted_lines_distinct(self.lines());
                    lemma_line_of(self.lines(), i as int);
                }
                return Some(self.entries[i].status);
            }
            i += 1;
        }
        None
    }

    /// Whether the status of some state has a metadata change.
    pub fn has_meta_change(&self) -> (r: bool)
        ensures
            r == any_meta_change(self.lines()),
    {
        let mut i: usize = 0;
        while i < self.entries.len()
            invariant
                i <= self.entries@.len(),
                forall|k: int| 0 <= k < i ==> !(#[trigger] self.lines()[k]).1.spec_has_meta_change(),
            decreases self.entries@.len() - i,
        {
            if self.entries[i].status.has_meta_change() {
                assert(self.lines()[i as int].1.spec_has_meta_change());
                return true;
            }
            i += 1;
        }
        false
    }

    /// The names of the states whose status has a pixel change, in the
    /// order of the report.
    pub fn pixel_changed(&self) -> (names: Vec<String>)
        ensures
            name_views(names@) == pixel_changed_names(self.lines(), self.lines().len()),
    {
        let mut names: Vec<String> = Vec::new();
        let mut i: usize = 0;
        while i < self.entries.len()
            invariant
                i <= self.entries@.len(),
                name_views(names@) == pixel_changed_names(self.lines(), i as nat),
            decreases self.entries@.len() - i,
        {
            if self.entries[i].status.has_pixel_change() {
                let ghost before = name_views(names@);
                let name = self.entries[i].name.clone();
                names.push(name);
                assert(name_views(names@) =~= before.push(self.lines()[i as int].0));
            }
            i += 1;
        }
        names
    }

    /// The lines worth showing to a person: those whose status is a
    /// meaningful change, in the order of the report.
    pub fn meaningful_changes(&self) -> (shown: Vec<ReportEntry>)
        ensures
            line_views(shown@) == meaningful_lines(self.lines(), self.lines().len()),
    {
        let mut shown: Vec<ReportEntry> = Vec::new();
        let mut i: usize = 0;
        while i < self.entries.len()
            invariant
                i <= self.entries@.len(),
                line_views(shown@) == meaningful_lines(self.lines(), i as nat),
            decreases self.entries@.len() - i,
        {
            if self.entries[i].status.is_meaningful_change() {
                let ghost before = line_views(shown@);
                let name = self.entries[i].name.clone();
                shown.push(ReportEntry { name, status: self.entries[i].status });
                assert(line_views(shown@) =~= before.push(self.lines()[i as int]));
            }
            i += 1;
        }
        shown
    }
}

/// The status of one state in a comparison of `src`, the earlier sheet, with
/// `dst`, the later one.
pub fn classify_state(src: &Sheet, dst: &Sheet, name: &String) -> (status: FragmentStatus)
    requires
        src.wf(),
        dst.wf(),
    ensures
        status == status_of(src@, dst@, name@),
{
    let s: &StateEntry = match src.entry(name) {
        Some(e) => e,
        None => {
            return FragmentStatus::Added;
        },
    };
    let d: &StateEntry = match dst.entry(name) {
        Some(e) => e,
        None => {
            return FragmentStatus::Removed;
        },
    };
    if !s.state.same_meta_ignoring_offset(&d.state) {
        return FragmentStatus::ChangedMeta;
    }
    let mut status = if s.state.offset == d.state.offset {
        FragmentStatus::Unchanged
    } else {
        FragmentStatus::ChangedOffsetOnly
    };
    let sg = src.grid();
    let dg = dst.grid();
    proof {
        let i = src@.index_of(name@);
        let j = dst@.index_of(name@);
        assert(src@.entries[i].shaped() && src@.entries[i].within(sg@.width, sg@.height));
        assert(dst@.entries[j].shaped() && dst@.entries[j].within(dg@.width, dg@.height));
    }
    let mut k: usize = 0;
    while k < s.frames.len()
        invariant
            k <= s.frames@.len(),
            s@.shaped(),
            d@.shaped(),
            s@.within(sg@.width, sg@.height),
            d@.within(dg@.width, dg@.height),
            s@.state.same_meta_ignoring_offset(d@.state),
            src@.has(name@),
            dst@.has(name@),
            s@ == src@.entry(name@),
            d@ == dst@.entry(name@),
            sg@ == src@.grid,
            dg@ == dst@.grid,
            status == if s@.state.offset == d@.state.offset {
                FragmentStatus::Unchanged
            } else {
                FragmentStatus::ChangedOffsetOnly
            },
            status.is_preliminary(),
            forall|a: int, f: int|
                0 <= a < k && 0 <= f < s@.frames[a].len() ==> #[trigger] frame_equal(
                    sg@,
                    s@,
                    dg@,
                    d@,
                    a,
                    f,
                ),
        decreases s.frames@.len() - k,
    {
        let srow = &s.frames[k];
        let drow = &d.frames[k];
        assert(srow@ == s@.frames[k as int]);
        assert(drow@ == d@.frames[k as int]);
        let mut f: usize = 0;
        while f < srow.len()
            invariant
                f <= srow@.len(),
                k < s.frames@.len(),
                srow@ == s@.frames[k as int],
                drow@ == d@.frames[k as int],
                srow@.len() == drow@.len(),
                s@.within(sg@.width, sg@.height),
                d@.within(dg@.width, dg@.height),
                k < d@.frames.len(),
                s@.state.same_meta_ignoring_offset(d@.state),
                src@.has(name@),
                dst@.has(name@),
                s@ == src@.entry(name@),
                d@ == dst@.entry(name@),
                sg@ == src@.grid,
                dg@ == dst@.grid,
                status == if s@.state.offset == d@.state.offset {
                    FragmentStatus::Unchanged
                } else {
                    FragmentStatus::ChangedOffsetOnly
                },
                status.is_preliminary(),
                forall|b: int| 0 <= b < f ==> #[trigger] frame_equal(sg@, s@, dg@, d@, k as int, b),
            decreases srow@.len() - f,
        {
            assert(sg@.contains_rect(s@.frames[k as int][f as int]));
            assert(dg@.contains_rect(d@.frames[k as int][f as int]));
            if !sg.rect_equal(srow[f], dg, drow[f]) {
                assert(!frame_equal(sg@, s@, dg@, d@, k as int, f as int));
                status.set_pixel_changed(true);
                return status;
            }
            f += 1;
        }
        k += 1;
    }
    status
}

/// The place of a line of that name among the lines.
fn find_place(lines: &Vec<ReportEntry>, name: &String) -> (p: usize)
    ensures
        p == place_of(line_views(lines@), name@),
        p <= lines@.len(),
{
    let mut p: usize = 0;
    while p < lines.len()
        invariant
            p <= lines@.len(),
            place_of(line_views(lines@), name@) == place_from(line_views(lines@), name@, p as int),
        decreases lines@.len() - p,
    {
        if !name_precedes(&lines[p].name, name) {
            return p;
        }
        p += 1;
    }
    p
}

/// Puts a line at its place.
fn insert_sorted(lines: &mut Vec<ReportEntry>, entry: ReportEntry)
    ensures
        line_views(final(lines)@) == insert_line(
            line_views(old(lines)@),
            (entry.name@, entry.status),
        ),
{
    let p: usize = find_place(lines, &entry.name);
    let ghost before = line_views(lines@);
    let ghost line = (entry.name@, entry.status);
    lines.insert(p, entry);
    assert(line_views(lines@) =~= before.insert(p as int, line));
}

/// Compares `src`, the earlier sheet, with `dst`, the later one: the status
/// of every state that either of them has, in the order of the names.
/// Neither sheet is changed.
pub fn classify(src: &Sheet, dst: &Sheet) -> (report: Report)
    requires
        src.wf(),
        dst.wf(),
    ensures
        report.wf(),
        report.lines() == report_lines(src@, dst@),
        forall|name: Seq<char>| report@.contains_key(name) <==> src@.has(name) || dst@.has(name),
        forall|name: Seq<char>|
            src@.has(name) || dst@.has(name) ==> #[trigger] report@[name] == status_of(
                src@,
                dst@,
                name,
            ),
{
    let mut out: Vec<ReportEntry> = Vec::new();
    let from = src.entries();
    let to = dst.entries();
    let mut i: usize = 0;
    while i < from.len()
        invariant
            i <= from@.len(),
            src.wf(),
            dst.wf(),
            entry_views(from@) == src@.entries,
            line_views(out@) == sorted_lines(src@, dst@, catalogue_names(src@).take(i as int)),
        decreases from@.len() - i,
    {
        let name = from[i].name.clone();
        let status = classify_state(src, dst, &name);
        proof {
            let names = catalogue_names(src@).take(i + 1);
            assert(name@ == src@.entries[i as int].name);
            assert(names.drop_last() =~= catalogue_names(src@).take(i as int));
            assert(names.last() == name@);
        }
        insert_sorted(&mut out, ReportEntry { name, status });
        i += 1;
    }
    assert(catalogue_names(src@).take(i as int) =~= catalogue_names(src@) + added_names(
        src@,
        dst@,
        0,
    ));
    let mut j: usize = 0;
    while j < to.len()
        invariant
            j <= to@.len(),
            src.wf(),
            dst.wf(),
            entry_views(to@) == dst@.entries,
            line_views(out@) == sorted_lines(
                src@,
                dst@,
                catalogue_names(src@) + added_names(src@, dst@, j as nat),
            ),
        decreases to@.len() - j,
    {
        if src.find(&to[j].name).is_none() {
            let name = to[j].name.clone();
            proof {
                let names = catalogue_names(src@) + added_names(src@, dst@, (j + 1) as nat);
                assert(name@ == dst@.entries[j as int].name);
                assert(names.drop_last() =~= catalogue_names(src@) + added_names(
                    src@,
                    dst@,
                    j as nat,
                ));
                assert(names.last() == name@);
                assert(status_of(src@, dst@, name@) == FragmentStatus::Added);
            }
            insert_sorted(&mut out, ReportEntry { name, status: FragmentStatus::Added });
        } else {
            assert(src@.has(dst@.entries[j as int].name));
        }
        j += 1;
    }
    let report = Report { entries: out };
    proof {
        lemma_report_lines(src@, dst@);
    }
    report
}

/// Comparing rectangles does not depend on which of the two comes first.
pub proof fn lemma_rect_pixels_equal_symmetric(a: GridView, ra: Rect, b: GridView, rb: Rect)
    ensures
        rect_pixels_equal(a, ra, b, rb) == rect_pixels_equal(b, rb, a, ra),
{
    if rect_pixels_equal(a, ra, b, rb) {
        assert forall|i: int, j: int| 0 <= i < rb.width && 0 <= j < rb.height implies #[trigger] rect_pixel(
            b,
            rb,
            i,
            j,
        ) == rect_pixel(a, ra, i, j) by {
            assert(rect_pixel(a, ra, i, j) == rect_pixel(b, rb, i, j));
        }
    }
    if rect_pixels_equal(b, rb, a, ra) {
        assert forall|i: int, j: int| 0 <= i < ra.width && 0 <= j < ra.height implies #[trigger] rect_pixel(
            a,
            ra,
            i,
            j,
        ) == rect_pixel(b, rb, i, j) by {
            assert(rect_pixel(b, rb, i, j) == rect_pixel(a, ra, i, j));
        }
    }
}

/// Compared with itself, a sheet shows every one of its states unchanged.
pub proof fn lemma_classify_reflexive(sheet: SheetView, name: Seq<char>)
    requires
        sheet.has(name),
    ensures
        status_of(sheet, sheet, name) == FragmentStatus::Unchanged,
{
    let e = sheet.entry(name);
    assert forall|k: int, f: int|
        0 <= k < e.frames.len() && 0 <= f < e.frames[k].len() implies #[trigger] frame_equal(
        sheet.grid,
        e,
        sheet.grid,
        e,
        k,
        f,
    ) by {}
}

/// The report on a sheet and itself has one line for each state, and every
/// line says `Unchanged`.
pub proof fn lemma_self_report_unchanged(sheet: SheetView)
    ensures
        report_lines(sheet, sheet).len() == sheet.entries.len(),
        forall|name: Seq<char>| lines_have(report_lines(sheet, sheet), name) <==> sheet.has(name),
        forall|i: int|
            0 <= i < sheet.entries.len() ==> (#[trigger] report_lines(sheet, sheet)[i]).1
                == FragmentStatus::Unchanged,
{
    let names = report_names(sheet, sheet);
    let lines = report_lines(sheet, sheet);
    lemma_no_names_added(sheet, sheet.entries.len());
    assert(names =~= catalogue_names(sheet));
    lemma_sorted_lines(sheet, sheet, names);
    assert forall|name: Seq<char>| names.contains(name) <==> sheet.has(name) by {
        if names.contains(name) {
            let i = choose|i: int| 0 <= i < names.len() && names[i] == name;
            assert(sheet.entries[i].name == name);
        }
        if sheet.has(name) {
            assert(names[sheet.index_of(name)] == name);
        }
    }
    assert forall|i: int| 0 <= i < sheet.entries.len() implies (#[trigger] lines[i]).1
        == FragmentStatus::Unchanged by {
        assert(lines_have(lines, lines[i].0));
        lemma_classify_reflexive(sheet, lines[i].0);
    }
}

proof fn lemma_no_names_added(sheet: SheetView, n: nat)
    requires
        n <= sheet.entries.len(),
    ensures
        added_names(sheet, sheet, n).len() == 0,
    decreases n,
{
    if n > 0 {
        lemma_no_names_added(sheet, (n - 1) as nat);
        assert(sheet.has(sheet.entries[n - 1].name));
    }
}

/// Exchanging the earlier and the later sheet turns `Added` into `Removed`
/// and `Removed` into `Added`, and leaves every other status as it was.
pub proof fn lemma_classify_swapped(a: SheetView, b: SheetView, name: Seq<char>)
    requires
        a.wf(),
        b.wf(),
        a.has(name) || b.has(name),
    ensures
        status_of(b, a, name) == status_of(a, b, name).reversed(),
{
    if a.has(name) && b.has(name) {
        let s = a.entry(name);
        let d = b.entry(name);
        assert(a.entries[a.index_of(name)].shaped());
        assert(b.entries[b.index_of(name)].shaped());
        if s.state.same_meta_ignoring_offset(d.state) {
            assert(s.frames.len() == d.frames.len());
            assert forall|k: int, f: int| 0 <= k < s.frames.len() && 0 <= f < s.frames[k].len() implies (
            #[trigger] frame_equal(a.grid, s, b.grid, d, k, f)) == frame_equal(
                b.grid,
                d,
                a.grid,
                s,
                k,
                f,
            ) by {
                lemma_rect_pixels_equal_symmetric(a.grid, s.frames[k][f], b.grid, d.frames[k][f]);
            }
            if frames_match(a.grid, s, b.grid, d) {
                assert forall|k: int, f: int|
                    0 <= k < d.frames.len() && 0 <= f < d.frames[k].len() implies #[trigger] frame_equal(
                    b.grid,
                    d,
                    a.grid,
                    s,
                    k,
                    f,
                ) by {
                    assert(s.frames[k].len() == d.frames[k].len());
                    assert(frame_equal(a.grid, s, b.grid, d, k, f));
                }
            }
            if frames_match(b.grid, d, a.grid, s) {
                assert forall|k: int, f: int|
                    0 <= k < s.frames.len() && 0 <= f < s.frames[k].len() implies #[trigger] frame_equal(
                    a.grid,
                    s,
                    b.grid,
                    d,
                    k,
                    f,
                ) by {
                    assert(s.frames[k].len() == d.frames[k].len());
                    assert(frame_equal(b.grid, d, a.grid, s, k, f));
                }
            }
        }
    }
}

/// Where the two sheets give a state different directions or different
/// frame timings, its status is `ChangedMeta`, whatever the pixels are.
pub proof fn lemma_meta_difference_is_changed_meta(src: SheetView, dst: SheetView, name: Seq<char>)
    requires
        src.has(name),
        dst.has(name),
        src.entry(name).state.dirs != dst.entry(name).state.dirs || src.entry(name).state.delays
            != dst.entry(name).state.delays,
    ensures
        status_of(src, dst, name) == FragmentStatus::ChangedMeta,
{
}

} // verus!
