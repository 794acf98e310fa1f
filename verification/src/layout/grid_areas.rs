//! Named grid areas, line placement, and the styles that a grid asks of its
//! solver.

use vstd::prelude::*;

use crate::layout::flex::{
    align_items, align_items_in, axis_gap, gap_axis, grid_justify_in, inline_aligned, item_in,
    item_style, justify_content_grid, justify_items, justify_self, justify_self_in, AlignItems,
    ItemStyle, JustifyContent,
};
use crate::layout::grid::{axis_template, axis_tracks, quoted_in, quoted_rows, Track};
use crate::layout::length::Viewport;
use crate::layout::value::keyword;
use crate::number::{int_of, natural_of, parse_int, parse_natural};
use crate::scan::{
    after_prefix, cut_at, lower, same, same_ignoring_case, split_once, strip_prefix, text_of, texts,
    trim, trimmed, words, words_in,
};
use crate::style::{prop, ComputedStyle, StyleMap};

verus! {

/// The cells that an area covers: its first and last row and column.
#[derive(Debug, Clone, Copy, PartialEq, Eq, Structural)]
pub struct Area {
    pub row_start: usize,
    pub row_end: usize,
    pub col_start: usize,
    pub col_end: usize,
}

pub type AreaMapV = Map<Seq<char>, Area>;

/// An area grown to take in the cell `(r, c)`.
pub open spec fn grown_to(a: Area, r: usize, c: usize) -> Area {
    Area {
        row_start: if r < a.row_start {
            r
        } else {
            a.row_start
        },
        row_end: if r > a.row_end {
            r
        } else {
            a.row_end
        },
        col_start: if c < a.col_start {
            c
        } else {
            a.col_start
        },
        col_end: if c > a.col_end {
            c
        } else {
            a.col_end
        },
    }
}

/// The areas with one more named cell; `.` names none.
pub open spec fn with_cell(m: AreaMapV, name: Seq<char>, r: usize, c: usize) -> AreaMapV {
    if name == "."@ {
        m
    } else if m.contains_key(name) {
        m.insert(name, grown_to(m[name], r, c))
    } else {
        m.insert(name, Area { row_start: r, row_end: r, col_start: c, col_end: c })
    }
}

/// The areas with the first `k` cells of row `r`.
pub open spec fn with_row(m: AreaMapV, names: Seq<Seq<char>>, r: usize, k: nat) -> AreaMapV
    decreases k,
{
    if k == 0 || k > names.len() {
        m
    } else {
        with_cell(with_row(m, names, r, (k - 1) as nat), names[k - 1], r, (k - 1) as usize)
    }
}

/// The areas of the first `k` rows.
pub open spec fn areas_upto(rows: Seq<Seq<char>>, k: nat) -> AreaMapV
    decreases k,
{
    if k == 0 || k > rows.len() {
        Map::empty()
    } else {
        let names = words_in(rows[k - 1]);
        with_row(areas_upto(rows, (k - 1) as nat), names, (k - 1) as usize, names.len())
    }
}

/// The areas that a `grid-template-areas` value names.
pub open spec fn areas_named(v: Seq<char>) -> AreaMapV {
    let rows = quoted_in(v);
    areas_upto(rows, rows.len())
}

pub open spec fn area_entries(s: Seq<(String, Area)>) -> AreaMapV
    decreases s.len(),
{
    if s.len() == 0 {
        Map::empty()
    } else {
        area_entries(s.drop_last()).insert(s.last().0@, s.last().1)
    }
}

/// The named areas of a grid, each name once.
#[derive(Debug)]
pub struct AreaMap {
    entries: Vec<(String, Area)>,
}

impl View for AreaMap {
    type V = AreaMapV;

    closed spec fn view(&self) -> AreaMapV {
        area_entries(self.entries@)
    }
}

/// Whether the rows and columns of every area can be counted.
pub open spec fn countable(m: AreaMapV) -> bool {
    forall|n: Seq<char>| #[trigger]
        m.contains_key(n) ==> m[n].row_end < usize::MAX && m[n].col_end < usize::MAX
}

proof fn lemma_entries_keys(s: Seq<(String, Area)>)
    ensures
        forall|n: Seq<char>| #[trigger]
            area_entries(s).contains_key(n) <==> exists|i: int|
                0 <= i < s.len() && (#[trigger] s[i]).0@ == n,
    decreases s.len(),
{
    if s.len() > 0 {
        let t = s.drop_last();
        lemma_entries_keys(t);
        assert forall|n: Seq<char>| #[trigger]
            area_entries(s).contains_key(n) <==> exists|i: int|
                0 <= i < s.len() && (#[trigger] s[i]).0@ == n by {
            if area_entries(s).contains_key(n) {
                if n == s.last().0@ {
                    assert(s[s.len() - 1].0@ == n);
                } else {
                    assert(area_entries(t).contains_key(n));
                    let i = choose|i: int| 0 <= i < t.len() && (#[trigger] t[i]).0@ == n;
                    assert(s[i].0@ == n);
                }
            }
            if exists|i: int| 0 <= i < s.len() && (#[trigger] s[i]).0@ == n {
                let i = choose|i: int| 0 <= i < s.len() && (#[trigger] s[i]).0@ == n;
                if i < s.len() - 1 {
                    assert(t[i].0@ == n);
                    assert(area_entries(t).contains_key(n));
                }
            }
        }
    }
}

/// Whether the areas reach over `c` columns and no more.
pub open spec fn reaches_cols(m: AreaMapV, c: nat) -> bool {
    &&& forall|n: Seq<char>| #[trigger] m.contains_key(n) ==> m[n].col_end < c
    &&& c > 0 ==> exists|n: Seq<char>| #[trigger] m.contains_key(n) && m[n].col_end + 1 == c
}

/// Whether the areas reach over `r` rows and no more.
pub open spec fn reaches_rows(m: AreaMapV, r: nat) -> bool {
    &&& forall|n: Seq<char>| #[trigger] m.contains_key(n) ==> m[n].row_end < r
    &&& r > 0 ==> exists|n: Seq<char>| #[trigger] m.contains_key(n) && m[n].row_end + 1 == r
}

/// The number of columns that the areas reach over.
pub open spec fn area_cols(m: AreaMapV) -> nat {
    choose|c: nat| reaches_cols(m, c)
}

/// The number of rows that the areas reach over.
pub open spec fn area_rows(m: AreaMapV) -> nat {
    choose|r: nat| reaches_rows(m, r)
}

proof fn lemma_cols_are(m: AreaMapV, c: nat)
    requires
        reaches_cols(m, c),
    ensures
        area_cols(m) == c,
{
    let d = area_cols(m);
    assert(reaches_cols(m, d));
}

proof fn lemma_rows_are(m: AreaMapV, r: nat)
    requires
        reaches_rows(m, r),
    ensures
        area_rows(m) == r,
{
    let d = area_rows(m);
    assert(reaches_rows(m, d));
}

impl AreaMap {
    /// No areas.
    pub fn new() -> (r: AreaMap)
        ensures
            r@ == Map::<Seq<char>, Area>::empty(),
    {
        AreaMap { entries: Vec::new() }
    }

    /// The area of that name.
    pub fn get(&self, name: &str) -> (r: Option<Area>)
        ensures
            r == if self@.contains_key(name@) {
                Some(self@[name@])
            } else {
                None
            },
    {
        let mut i: usize = self.entries.len();
        proof {
            assert(self.entries@.take(i as int) =~= self.entries@);
        }
        while i > 0
            invariant
                i <= self.entries@.len(),
                self@.contains_key(name@) == area_entries(
                    self.entries@.take(i as int),
                ).contains_key(name@),
                self@.contains_key(name@) ==> self@[name@] == area_entries(
                    self.entries@.take(i as int),
                )[name@],
            decreases i,
        {
            let ghost t = self.entries@.take(i as int);
            proof {
                assert(t.drop_last() =~= self.entries@.take(i - 1));
                assert(t.last() == self.entries@[i - 1]);
            }
            i -= 1;
            if same(self.entries[i].0.as_str(), name) {
                return Some(self.entries[i].1);
            }
        }
        None
    }

    pub fn contains_key(&self, name: &str) -> (r: bool)
        ensures
            r == self@.contains_key(name@),
    {
        self.get(name).is_some()
    }

    fn insert(&mut self, name: &str, a: Area)
        ensures
            final(self)@ == old(self)@.insert(name@, a),
    {
        let entry = (name.to_owned(), a);
        proof {
            assert(self.entries@.push(entry).drop_last() =~= self.entries@);
        }
        self.entries.push(entry);
    }

    fn add_cell(&mut self, name: &str, r: usize, c: usize)
        requires
            r < usize::MAX,
            c < usize::MAX,
            countable(old(self)@),
        ensures
            final(self)@ == with_cell(old(self)@, name@, r, c),
            countable(final(self)@),
    {
        if same(name, ".") {
            return;
        }
        match self.get(name) {
            Some(a) => {
                let grown = Area {
                    row_start: if r < a.row_start {
                        r
                    } else {
                        a.row_start
                    },
                    row_end: if r > a.row_end {
                        r
                    } else {
                        a.row_end
                    },
                    col_start: if c < a.col_start {
                        c
                    } else {
                        a.col_start
                    },
                    col_end: if c > a.col_end {
                        c
                    } else {
                        a.col_end
                    },
                };
                self.insert(name, grown);
            },
            None => {
                self.insert(name, Area { row_start: r, row_end: r, col_start: c, col_end: c });
            },
        }
    }

    /// The number of columns that the areas reach over.
    pub fn cols(&self) -> (r: usize)
        requires
            countable(self@),
        ensures
            r == area_cols(self@),
    {
        let mut best: usize = 0;
        let mut i: usize = 0;
        proof {
            lemma_entries_keys(self.entries@);
        }
        while i < self.entries.len()
            invariant
                i <= self.entries@.len(),
                countable(self@),
                forall|n: Seq<char>| #[trigger]
                    self@.contains_key(n) <==> exists|j: int|
                        0 <= j < self.entries@.len() && (#[trigger] self.entries@[j]).0@ == n,
                forall|j: int|
                    0 <= j < i ==> self@[(#[trigger] self.entries@[j]).0@].col_end < best,
                best > 0 ==> exists|n: Seq<char>| #[trigger]
                    self@.contains_key(n) && self@[n].col_end + 1 == best,
            decreases self.entries@.len() - i,
        {
            proof {
                assert(self@.contains_key(self.entries@[i as int].0@));
            }
            if let Some(a) = self.get(self.entries[i].0.as_str()) {
                if a.col_end + 1 > best {
                    best = a.col_end + 1;
                }
            }
            i += 1;
        }
        proof {
            assert(reaches_cols(self@, best as nat));
            lemma_cols_are(self@, best as nat);
        }
        best
    }

    /// The number of rows that the areas reach over.
    pub fn rows(&self) -> (r: usize)
        requires
            countable(self@),
        ensures
            r == area_rows(self@),
    {
        let mut best: usize = 0;
        let mut i: usize = 0;
        proof {
            lemma_entries_keys(self.entries@);
        }
        while i < self.entries.len()
            invariant
                i <= self.entries@.len(),
                countable(self@),
                forall|n: Seq<char>| #[trigger]
                    self@.contains_key(n) <==> exists|j: int|
                        0 <= j < self.entries@.len() && (#[trigger] self.entries@[j]).0@ == n,
                forall|j: int|
                    0 <= j < i ==> self@[(#[trigger] self.entries@[j]).0@].row_end < best,
                best > 0 ==> exists|n: Seq<char>| #[trigger]
                    self@.contains_key(n) && self@[n].row_end + 1 == best,
            decreases self.entries@.len() - i,
        {
            proof {
                assert(self@.contains_key(self.entries@[i as int].0@));
            }
            if let Some(a) = self.get(self.entries[i].0.as_str()) {
                if a.row_end + 1 > best {
                    best = a.row_end + 1;
                }
            }
            i += 1;
        }
        proof {
            assert(reaches_rows(self@, best as nat));
            lemma_rows_are(self@, best as nat);
        }
        best
    }
}

/// Parse `grid-template-areas`: each quoted string a row of cell names, `.` an
/// empty cell; a name's cells make one rectangle.
pub fn grid_areas(value: &str) -> (r: AreaMap)
    ensures
        r@ == areas_named(value@),
        countable(r@),
{
    let rows = quoted_rows(value);
    let ghost rv = texts(rows@);
    let mut map = AreaMap::new();
    let count: usize = rows.len();
    let mut i: usize = 0;
    while i < count
        invariant
            count == rows@.len(),
            i <= count,
            rv == texts(rows@),
            map@ == areas_upto(rv, i as nat),
            countable(map@),
        decreases count - i,
    {
        let names = words(rows[i]);
        let ghost nv = texts(names@);
        let ghost before = map@;
        let width: usize = names.len();
        let mut c: usize = 0;
        while c < width
            invariant
                width == names@.len(),
                c <= width,
                i < count,
                nv == texts(names@),
                map@ == with_row(before, nv, i, c as nat),
                countable(map@),
            decreases width - c,
        {
            map.add_cell(names[c], i, c);
            c += 1;
        }
        i += 1;
    }
    map
}

/// The areas of a style; none where it names none.
pub open spec fn areas_in(m: StyleMap) -> AreaMapV {
    match prop(m, "grid-template-areas"@) {
        Some(v) => areas_named(v),
        None => Map::empty(),
    }
}

pub fn areas_of(s: &ComputedStyle) -> (r: AreaMap)
    ensures
        r@ == areas_in(s@),
        countable(r@),
{
    match s.get("grid-template-areas") {
        Some(v) => grid_areas(v),
        None => AreaMap::new(),
    }
}

/// The declared tracks, or `n` `auto` ones where none is declared.
pub open spec fn filled_tracks(tracks: Seq<Track>, n: nat) -> Seq<Track> {
    if tracks.len() == 0 {
        Seq::new(n, |i: int| Track::Auto)
    } else {
        tracks
    }
}

pub fn fill_tracks(tracks: Vec<Track>, n: usize) -> (r: Vec<Track>)
    ensures
        r@ == filled_tracks(tracks@, n as nat),
{
    if tracks.len() > 0 {
        return tracks;
    }
    let mut out: Vec<Track> = Vec::new();
    let mut k: usize = 0;
    while k < n
        invariant
            k <= n,
            out@.len() == k,
            forall|i: int| 0 <= i < k ==> out@[i] == Track::Auto,
        decreases n - k,
    {
        out.push(Track::Auto);
        k += 1;
    }
    proof {
        assert(out@ =~= Seq::new(n as nat, |i: int| Track::Auto));
    }
    out
}

// --------------------------------------------------------------------------
// line placement
// --------------------------------------------------------------------------

/// One end of an item's placement.
#[derive(Debug, Clone, Copy, PartialEq, Eq, Structural)]
pub enum GridPlacement {
    Auto,
    Line(i16),
    Span(u16),
}

/// An item's placement on one axis.
#[derive(Debug, Clone, Copy, PartialEq, Eq, Structural)]
pub struct GridLine {
    pub start: GridPlacement,
    pub end: GridPlacement,
}

/// The line after `n` tracks; lines past the last that can be named are that one.
pub open spec fn line_after(n: int) -> GridPlacement {
    GridPlacement::Line(
        if n < 32767 {
            (n + 1) as i16
        } else {
            32767
        },
    )
}

fn line_number(n: usize) -> (r: GridPlacement)
    ensures
        r == line_after(n as int),
{
    GridPlacement::Line(
        if n < 32767 {
            n as i16 + 1
        } else {
            32767
        },
    )
}

/// The rows and columns of the area that an item names.
pub open spec fn area_lines(m: StyleMap, areas: AreaMapV) -> Option<(GridLine, GridLine)> {
    match prop(m, "grid-area"@) {
        Some(v) => {
            let n = trimmed(v);
            if areas.contains_key(n) {
                let a = areas[n];
                Some(
                    (
                        GridLine {
                            start: line_after(a.row_start as int),
                            end: line_after(a.row_end + 1),
                        },
                        GridLine {
                            start: line_after(a.col_start as int),
                            end: line_after(a.col_end + 1),
                        },
                    ),
                )
            } else {
                None
            }
        },
        None => None,
    }
}

pub fn area_placement(style: &ComputedStyle, areas: &AreaMap) -> (r: Option<(GridLine, GridLine)>)
    requires
        countable(areas@),
    ensures
        r == area_lines(style@, areas@),
{
    let name = match style.get("grid-area") {
        Some(v) => trim(v),
        None => return None,
    };
    match areas.get(name) {
        Some(a) => Some(
            (
                GridLine { start: line_number(a.row_start), end: line_number(a.row_end + 1) },
                GridLine { start: line_number(a.col_start), end: line_number(a.col_end + 1) },
            ),
        ),
        None => None,
    }
}

/// The placement that a token names: `span n`, a line, else `auto`.
pub open spec fn placement_named(t: Seq<char>) -> GridPlacement {
    let span = match after_prefix(t, "span"@) {
        Some(r) => natural_of(trimmed(r)),
        None => None,
    };
    match span {
        Some(n) if n <= 65535 => GridPlacement::Span(n as u16),
        _ => match int_of(t) {
            Some(n) if -32768 <= n <= 32767 => GridPlacement::Line(n as i16),
            _ => GridPlacement::Auto,
        },
    }
}

pub fn grid_placement(tok: &str) -> (r: GridPlacement)
    ensures
        r == placement_named(tok@),
{
    if let Some(rest) = strip_prefix(tok, "span") {
        if let Some(n) = parse_natural(trim(rest), 65535) {
            return GridPlacement::Span(n as u16);
        }
    }
    match parse_int(tok, -32768, 32767) {
        Some(n) => GridPlacement::Line(n as i16),
        None => GridPlacement::Auto,
    }
}

/// The placement of a `grid-column` or `grid-row` value; blank and `auto` have
/// none.
pub open spec fn line_named(v: Option<Seq<char>>) -> Option<GridLine> {
    match v {
        Some(v) => {
            let t = trimmed(v);
            if t.len() == 0 || lower(t) == lower("auto"@) {
                None
            } else {
                match cut_at(t, '/') {
                    Some((a, b)) => Some(
                        GridLine {
                            start: placement_named(trimmed(a)),
                            end: placement_named(trimmed(b)),
                        },
                    ),
                    None => Some(
                        GridLine { start: placement_named(t), end: placement_named(""@) },
                    ),
                }
            }
        },
        None => None,
    }
}

pub fn grid_line(value: Option<&str>) -> (r: Option<GridLine>)
    ensures
        r == line_named(text_of(value)),
{
    let t = match value {
        Some(v) => trim(v),
        None => return None,
    };
    if t.is_empty() || same_ignoring_case(t, "auto") {
        return None;
    }
    match split_once(t, '/') {
        Some((a, b)) => Some(
            GridLine { start: grid_placement(trim(a)), end: grid_placement(trim(b)) },
        ),
        None => Some(GridLine { start: grid_placement(t), end: grid_placement("") }),
    }
}

// --------------------------------------------------------------------------
// container and item styles
// --------------------------------------------------------------------------

/// What a grid container asks of the solver.
#[derive(Debug)]
pub struct GridContainer {
    pub columns: Vec<Track>,
    pub rows: Vec<Track>,
    pub column_gap: i64,
    pub row_gap: i64,
    pub justify_content: Option<JustifyContent>,
    pub justify_items: Option<AlignItems>,
    pub align_items: Option<AlignItems>,
    pub width: i64,
}

/// The mathematical reading of a [`GridContainer`].
pub struct GridContainerV {
    pub columns: Seq<Track>,
    pub rows: Seq<Track>,
    pub column_gap: i64,
    pub row_gap: i64,
    pub justify_content: Option<JustifyContent>,
    pub justify_items: Option<AlignItems>,
    pub align_items: Option<AlignItems>,
    pub width: i64,
}

impl View for GridContainer {
    type V = GridContainerV;

    open spec fn view(&self) -> GridContainerV {
        GridContainerV {
            columns: self.columns@,
            rows: self.rows@,
            column_gap: self.column_gap,
            row_gap: self.row_gap,
            justify_content: self.justify_content,
            justify_items: self.justify_items,
            align_items: self.align_items,
            width: self.width,
        }
    }
}

/// The style of a grid container of content width `cw` with those areas.
pub open spec fn grid_container_in(m: StyleMap, cw: i64, areas: AreaMapV, vp: Viewport) -> GridContainerV {
    GridContainerV {
        columns: filled_tracks(
            axis_template(m, "grid-template-columns"@, true, vp),
            area_cols(areas),
        ),
        rows: filled_tracks(
            axis_template(m, "grid-template-rows"@, false, vp),
            area_rows(areas),
        ),
        column_gap: axis_gap(m, "column-gap"@, vp),
        row_gap: axis_gap(m, "row-gap"@, vp),
        justify_content: grid_justify_in(m),
        justify_items: Some(inline_aligned(keyword(m, "justify-items"@, "stretch"@))),
        align_items: Some(align_items_in(m)),
        width: cw,
    }
}

/// The style of a grid container of content width `cw`.
pub fn grid_container_style(s: &ComputedStyle, cw: i64, areas: &AreaMap, vp: Viewport) -> (r: GridContainer)
    requires
        countable(areas@),
    ensures
        r@ == grid_container_in(s@, cw, areas@, vp),
        r.columns@ == filled_tracks(
            axis_template(s@, "grid-template-columns"@, true, vp),
            area_cols(areas@),
        ),
        r.rows@ == filled_tracks(
            axis_template(s@, "grid-template-rows"@, false, vp),
            area_rows(areas@),
        ),
        r.column_gap == axis_gap(s@, "column-gap"@, vp),
        r.row_gap == axis_gap(s@, "row-gap"@, vp),
        r.justify_content == grid_justify_in(s@),
        r.justify_items == Some(inline_aligned(keyword(s@, "justify-items"@, "stretch"@))),
        r.align_items == Some(align_items_in(s@)),
        r.width == cw,
{
    let cols: usize = areas.cols();
    let rows: usize = areas.rows();
    let columns = fill_tracks(axis_tracks(s, "grid-template-columns", true, vp), cols);
    let row_tracks = fill_tracks(axis_tracks(s, "grid-template-rows", false, vp), rows);
    GridContainer {
        columns,
        rows: row_tracks,
        column_gap: gap_axis(s, "column-gap", vp),
        row_gap: gap_axis(s, "row-gap", vp),
        justify_content: justify_content_grid(s),
        justify_items: justify_items(s),
        align_items: align_items(s),
        width: cw,
    }
}

/// What a grid item asks of the solver: an item's style, its own alignment, and
/// where it is placed.
#[derive(Debug, Clone, Copy, PartialEq, Eq, Structural)]
pub struct GridItem {
    pub item: ItemStyle,
    pub justify_self: Option<AlignItems>,
    pub row: Option<GridLine>,
    pub column: Option<GridLine>,
}

/// A grid item's style: placed by its named area, else by its lines.
pub open spec fn grid_item_in(m: StyleMap, fs: i64, areas: AreaMapV, vp: Viewport) -> GridItem {
    let (row, column) = match area_lines(m, areas) {
        Some((r, c)) => (Some(r), Some(c)),
        None => (line_named(prop(m, "grid-row"@)), line_named(prop(m, "grid-column"@))),
    };
    GridItem { item: item_in(m, fs, vp), justify_self: justify_self_in(m), row, column }
}

pub fn grid_item_style(s: &ComputedStyle, fs: i64, areas: &AreaMap, vp: Viewport) -> (r: GridItem)
    requires
        countable(areas@),
    ensures
        r == grid_item_in(s@, fs, areas@, vp),
{
    let (row, column) = match area_placement(s, areas) {
        Some((r, c)) => (Some(r), Some(c)),
        None => (grid_line(s.get("grid-row")), grid_line(s.get("grid-column"))),
    };
    GridItem { item: item_style(s, fs, vp), justify_self: justify_self(s), row, column }
}

} // verus!
