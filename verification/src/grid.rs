//! The lattice of tiles: construction, bounds-aware queries and updates.

use vstd::prelude::*;

verus! {

/// The state of a position on the lattice.
#[derive(Clone, Copy, PartialEq, Eq, Structural, Debug)]
pub enum TileState {
    /// Carved: part of a corridor.
    On,
    /// Not carved.
    Off,
    /// Outside the grid. Never stored: it is what a query beyond the bounds
    /// answers, so that the border reads as a wall.
    Void,
}

/// A descriptive tag on a tile.
#[derive(PartialEq, Eq, Hash, Debug)]
pub enum TileFeature {
    Named(String),
}

impl Clone for TileFeature {
    /// A copy carries the same name.
    fn clone(&self) -> (copy: TileFeature)
        ensures
            copy@ == self@,
    {
        match self {
            TileFeature::Named(name) => TileFeature::Named(name.clone()),
        }
    }
}

impl View for TileFeature {
    type V = Seq<char>;

    /// A feature is its name.
    open spec fn view(&self) -> Seq<char> {
        match self {
            TileFeature::Named(name) => name@,
        }
    }
}

/// The topology of the lattice.
#[derive(Clone, Copy, PartialEq, Eq, Structural, Debug)]
pub enum GridKind {
    Squares,
}

/// Why a grid could not be built.
#[derive(Clone, Copy, PartialEq, Eq, Structural, Debug)]
pub enum GridError {
    /// The side is zero, or too long for coordinates or memory to hold.
    InvalidSize,
}

/// The extent of a grid along both axes.
#[derive(Clone, Copy, PartialEq, Eq, Structural, Debug)]
pub struct Size {
    pub x: usize,
    pub y: usize,
}

/// One stored tile.
#[derive(Debug)]
pub struct Tile {
    pub state: TileState,
    pub features: Vec<TileFeature>,
}

/// A square lattice of tiles.
#[derive(Debug)]
pub struct Grid {
    kind: GridKind,
    size: Size,
    tiles: Vec<Tile>,
}

/// The longest side a grid can have: coordinates one and two steps beyond
/// either border still fit a signed 32-bit integer.
pub const MAX_SIZE: usize = 0x7fff_fffe;

/// The sides a grid can have: at least one tile, coordinates that fit, and
/// no more tiles than one allocation can hold.
pub open spec fn valid_size(size: int) -> bool {
    1 <= size <= MAX_SIZE && size * size <= isize::MAX
}

/// The names carried by a list of features.
pub open spec fn names_of(features: Seq<TileFeature>) -> Set<Seq<char>> {
    features.map_values(|f: TileFeature| f@).to_set()
}

/// No two features of the list have the same name.
pub open spec fn distinct_names(features: Seq<TileFeature>) -> bool {
    forall|i: int, j: int|
        0 <= i < j < features.len() ==> (#[trigger] features[i])@ != (#[trigger] features[j])@
}

/// The state that an on/off flag stands for.
pub open spec fn flag_state(on: bool) -> TileState {
    if on {
        TileState::On
    } else {
        TileState::Off
    }
}

/// What a tile is: its state and the set of its feature names.
pub struct TileView {
    pub state: TileState,
    pub features: Set<Seq<char>>,
}

/// What a grid is: its extent and the tile at each position inside it.
pub struct GridView {
    pub kind: GridKind,
    pub width: int,
    pub height: int,
    pub tiles: Map<(int, int), TileView>,
}

impl GridView {
    /// The position lies inside the grid.
    pub open spec fn in_bounds(self, x: int, y: int) -> bool {
        0 <= x < self.width && 0 <= y < self.height
    }

    /// The state of a position; `Void` beyond the bounds.
    pub open spec fn state_at(self, x: int, y: int) -> TileState {
        if self.in_bounds(x, y) {
            self.tiles[(x, y)].state
        } else {
            TileState::Void
        }
    }

    /// The feature names of a position; none beyond the bounds.
    pub open spec fn features_at(self, x: int, y: int) -> Set<Seq<char>> {
        if self.in_bounds(x, y) {
            self.tiles[(x, y)].features
        } else {
            Set::empty()
        }
    }

    /// A square extent of valid size, a tile at exactly the positions inside
    /// it, and no stored `Void`.
    pub open spec fn wf(self) -> bool {
        &&& self.width == self.height
        &&& valid_size(self.width)
        &&& forall|x: int, y: int| #[trigger] self.tiles.dom().contains((x, y)) <==> self.in_bounds(x, y)
        &&& forall|x: int, y: int|
            self.in_bounds(x, y) ==> (#[trigger] self.tiles[(x, y)]).state != TileState::Void
    }

    /// The grid of the given side on which no tile is carved or tagged.
    pub open spec fn blank(kind: GridKind, size: int) -> GridView {
        GridView {
            kind,
            width: size,
            height: size,
            tiles: Map::new(
                |p: (int, int)| 0 <= p.0 < size && 0 <= p.1 < size,
                |p: (int, int)| TileView { state: TileState::Off, features: Set::empty() },
            ),
        }
    }

    /// The same grid with one tile replaced.
    pub open spec fn with_tile(self, x: int, y: int, tile: TileView) -> GridView {
        GridView { tiles: self.tiles.insert((x, y), tile), ..self }
    }
}

/// `Void` is what lies beyond the bounds, and nothing else: a position
/// reads `Void` exactly if it is outside the grid, however far outside.
pub proof fn lemma_void_is_beyond_bounds(grid: GridView, x: int, y: int)
    requires
        grid.wf(),
    ensures
        grid.state_at(x, y) == TileState::Void <==> !(0 <= x < grid.width && 0 <= y < grid.height),
{
}

/// Write, then read: after a tile inside the grid is replaced, its position
/// reads what was written, and every other position reads as before.
pub proof fn lemma_update_then_read(grid: GridView, x: int, y: int, tile: TileView, u: int, v: int)
    requires
        grid.in_bounds(x, y),
    ensures
        grid.with_tile(x, y, tile).state_at(x, y) == tile.state,
        grid.with_tile(x, y, tile).features_at(x, y) == tile.features,
        (u, v) != (x, y) ==> grid.with_tile(x, y, tile).state_at(u, v) == grid.state_at(u, v),
        (u, v) != (x, y) ==> grid.with_tile(x, y, tile).features_at(u, v) == grid.features_at(u, v),
{
}

/// A position inside the extent has an index inside the row-major storage.
pub proof fn lemma_index_in_range(x: int, y: int, width: int, height: int)
    requires
        0 <= x < width,
        0 <= y < height,
    ensures
        0 <= y * width + x < width * height,
{
    assert(y * width + x < width * height) by (nonlinear_arith)
        requires
            0 <= x < width,
            0 <= y < height,
    {
        assert((y + 1) * width <= height * width);
    }
    assert(0 <= y * width) by (nonlinear_arith)
        requires
            0 <= y,
            0 < width,
    ;
}

/// Different positions have different indices.
pub proof fn lemma_index_injective(x1: int, y1: int, x2: int, y2: int, width: int)
    requires
        0 <= x1 < width,
        0 <= x2 < width,
        y1 * width + x1 == y2 * width + x2,
    ensures
        x1 == x2,
        y1 == y2,
{
    assert(y1 == y2) by (nonlinear_arith)
        requires
            0 <= x1 < width,
            0 <= x2 < width,
            y1 * width + x1 == y2 * width + x2,
    {
        if y1 < y2 {
            assert((y1 + 1) * width <= y2 * width);
        } else if y2 < y1 {
            assert((y2 + 1) * width <= y1 * width);
        }
    }
}

impl View for Grid {
    type V = GridView;

    closed spec fn view(&self) -> GridView {
        GridView {
            kind: self.kind,
            width: self.size.x as int,
            height: self.size.y as int,
            tiles: Map::new(
                |p: (int, int)| 0 <= p.0 < self.size.x && 0 <= p.1 < self.size.y,
                |p: (int, int)|
                    TileView {
                        state: self.tiles@[p.1 * self.size.x + p.0].state,
                        features: names_of(self.tiles@[p.1 * self.size.x + p.0].features@),
                    },
            ),
        }
    }
}

/// Whether a list of features holds one of the given name.
fn holds_name(features: &Vec<TileFeature>, feature: &TileFeature) -> (found: bool)
    ensures
        found == names_of(features@).contains(feature@),
{
    let mut i: usize = 0;
    while i < features.len()
        invariant
            i <= features.len(),
            forall|j: int| 0 <= j < i ==> (#[trigger] features@[j])@ != feature@,
        decreases features.len() - i,
    {
        let same = match (&features[i], feature) {
            (TileFeature::Named(a), TileFeature::Named(b)) => *a == *b,
        };
        if same {
            proof {
                let names = features@.map_values(|f: TileFeature| f@);
                assert(names[i as int] == feature@);
            }
            return true;
        }
        i += 1;
    }
    proof {
        let names = features@.map_values(|f: TileFeature| f@);
        assert forall|j: int| 0 <= j < names.len() implies names[j] != feature@ by {
            assert(features@[j]@ != feature@);
        }
    }
    false
}

/// The same features, each name kept once, in the order of first occurrence.
fn unique_features(features: &Vec<TileFeature>) -> (unique: Vec<TileFeature>)
    ensures
        names_of(unique@) == names_of(features@),
        distinct_names(unique@),
{
    let mut unique: Vec<TileFeature> = Vec::new();
    let mut i: usize = 0;
    while i < features.len()
        invariant
            i <= features.len(),
            names_of(unique@) == names_of(features@.take(i as int)),
            distinct_names(unique@),
        decreases features.len() - i,
    {
        let ghost before = unique@;
        let ghost seen = features@.take(i as int);
        let ghost next = features@.take(i + 1);
        let known = holds_name(&unique, &features[i]);
        proof {
            assert(next =~= seen.push(features@[i as int]));
            assert(next.map_values(|f: TileFeature| f@) =~= seen.map_values(|f: TileFeature| f@).push(
                features@[i as int]@,
            ));
            lemma_names_push(seen, features@[i as int]);
        }
        if !known {
            let copy = features[i].clone();
            unique.push(copy);
            proof {
                lemma_names_push(before, copy);
                assert forall|a: int, b: int| 0 <= a < b < unique@.len() implies (#[trigger] unique@[a])@
                    != (#[trigger] unique@[b])@ by {
                    if b == before.len() {
                        let names = before.map_values(|f: TileFeature| f@);
                        assert(names[a] == before[a]@);
                    }
                }
            }
        }
        i += 1;
    }
    assert(features@.take(features@.len() as int) =~= features@);
    unique
}

/// Appending a feature adds its name to the names of the list.
pub proof fn lemma_names_push(features: Seq<TileFeature>, feature: TileFeature)
    ensures
        names_of(features.push(feature)) == names_of(features).insert(feature@),
{
    let names = features.map_values(|f: TileFeature| f@);
    let longer = features.push(feature).map_values(|f: TileFeature| f@);
    assert(longer =~= names.push(feature@));
    assert forall|n: Seq<char>| longer.to_set().contains(n) <==> names.to_set().insert(
        feature@,
    ).contains(n) by {
        if longer.to_set().contains(n) {
            let i = choose|i: int| 0 <= i < longer.len() && longer[i] == n;
            if i < names.len() {
                assert(names[i] == n);
            }
        }
        if names.to_set().contains(n) {
            let i = choose|i: int| 0 <= i < names.len() && names[i] == n;
            assert(longer[i] == n);
        }
        if n == feature@ {
            assert(longer[names.len() as int] == n);
        }
    }
}

impl Grid {
    /// The representation is sound: a square of valid size, one stored tile
    /// per position, none of them `Void`, and no tile tagged twice alike.
    pub closed spec fn wf(&self) -> bool {
        &&& self.size.x == self.size.y
        &&& valid_size(self.size.x as int)
        &&& self.tiles@.len() == self.size.x * self.size.y
        &&& forall|i: int|
            0 <= i < self.tiles@.len() ==> (#[trigger] self.tiles@[i]).state != TileState::Void
        &&& forall|i: int|
            0 <= i < self.tiles@.len() ==> distinct_names((#[trigger] self.tiles@[i]).features@)
    }

    /// A sound grid has a well-formed view.
    pub broadcast proof fn lemma_wf_view(&self)
        requires
            #[trigger] self.wf(),
        ensures
            self@.wf(),
            self@.width == self@.height,
    {
        let v = self@;
        assert forall|x: int, y: int| v.in_bounds(x, y) implies (#[trigger] v.tiles[(x, y)]).state
            != TileState::Void by {
            lemma_index_in_range(x, y, v.width, v.height);
        }
    }

    /// Builds a grid of `size` by `size` tiles, none carved and none tagged.
    ///
    /// Fails exactly on a side that is not a valid size. A fresh lattice is
    /// always uncarved: `initial_state` does not change that.
    pub fn new(kind: GridKind, size: usize, initial_state: bool) -> (made: Result<Grid, GridError>)
        ensures
            valid_size(size as int) <==> made is Ok,
            made matches Ok(grid) ==> grid.wf() && grid@ == GridView::blank(kind, size as int),
            made matches Err(e) ==> e == GridError::InvalidSize,
    {
        if size < 1 || size > MAX_SIZE {
            return Err(GridError::InvalidSize);
        }
        let area = match size.checked_mul(size) {
            Some(area) => area,
            None => {
                return Err(GridError::InvalidSize);
            },
        };
        if area > isize::MAX as usize {
            return Err(GridError::InvalidSize);
        }
        let mut tiles: Vec<Tile> = Vec::new();
        while tiles.len() < area
            invariant
                tiles@.len() <= area,
                forall|i: int|
                    0 <= i < tiles@.len() ==> (#[trigger] tiles@[i]).state == TileState::Off
                        && tiles@[i].features@.len() == 0,
            decreases area - tiles@.len(),
        {
            tiles.push(Tile { state: TileState::Off, features: Vec::new() });
        }
        let grid = Grid { kind, size: Size { x: size, y: size }, tiles };
        proof {
            let blank = GridView::blank(kind, size as int);
            assert forall|p: (int, int)| #[trigger]
                grid@.tiles.dom().contains(p) implies grid@.tiles[p] == blank.tiles[p] by {
                lemma_index_in_range(p.0, p.1, size as int, size as int);
                let tile = grid.tiles@[p.1 * size + p.0];
                assert(names_of(tile.features@) =~= Set::empty());
            }
            assert(grid@.tiles =~= blank.tiles);
        }
        Ok(grid)
    }

    /// The kind of lattice.
    pub fn kind(&self) -> (kind: GridKind)
        ensures
            kind == self@.kind,
    {
        self.kind
    }

    /// The extent of the grid.
    pub fn size(&self) -> (size: Size)
        requires
            self.wf(),
        ensures
            size.x == self@.width,
            size.y == self@.height,
            size.x == size.y,
    {
        self.size
    }

    /// The index of an in-bounds position in the row-major storage.
    fn index_of(&self, x: i32, y: i32) -> (found: Option<usize>)
        requires
            self.wf(),
        ensures
            self@.in_bounds(x as int, y as int) <==> found is Some,
            found matches Some(i) ==> i == y * self.size.x + x && i < self.tiles@.len(),
    {
        if x < 0 || y < 0 {
            return None;
        }
        let column = x as usize;
        let row = y as usize;
        if column >= self.size.x || row >= self.size.y {
            return None;
        }
        proof {
            lemma_index_in_range(x as int, y as int, self.size.x as int, self.size.y as int);
        }
        Some(row * self.size.x + column)
    }

    /// The state of the tile at `(x, y)`, or `Void` for any position beyond
    /// the bounds, however far.
    pub fn state_tile(&self, x: i32, y: i32) -> (state: TileState)
        requires
            self.wf(),
        ensures
            state == self@.state_at(x as int, y as int),
            !(0 <= x < self@.width && 0 <= y < self@.height) ==> state == TileState::Void,
            0 <= x < self@.width && 0 <= y < self@.height ==> state != TileState::Void,
    {
        match self.index_of(x, y) {
            Some(i) => self.tiles[i].state,
            None => TileState::Void,
        }
    }

    /// The stored tile at `(x, y)`, if the position is inside the grid. Its
    /// features carry each name once.
    pub fn tile(&self, x: i32, y: i32) -> (found: Option<&Tile>)
        requires
            self.wf(),
        ensures
            self@.in_bounds(x as int, y as int) <==> found is Some,
            found matches Some(tile) ==> {
                &&& tile.state == self@.state_at(x as int, y as int)
                &&& names_of(tile.features@) == self@.features_at(x as int, y as int)
                &&& distinct_names(tile.features@)
            },
    {
        match self.index_of(x, y) {
            Some(i) => Some(&self.tiles[i]),
            None => None,
        }
    }

    /// Whether the tile at `(x, y)` carries the feature; no tile beyond the
    /// bounds carries any.
    pub fn has_feature(&self, x: i32, y: i32, feature: &TileFeature) -> (found: bool)
        requires
            self.wf(),
        ensures
            found == self@.features_at(x as int, y as int).contains(feature@),
    {
        match self.index_of(x, y) {
            Some(i) => holds_name(&self.tiles[i].features, feature),
            None => false,
        }
    }

    /// Sets the state of the tile at `(x, y)` and replaces its features with
    /// the given ones. Every other tile stays as it is.
    pub fn update_tile(&mut self, x: i32, y: i32, state: bool, features: Vec<TileFeature>)
        requires
            old(self).wf(),
            old(self)@.in_bounds(x as int, y as int),
        ensures
            final(self).wf(),
            final(self)@ == old(self)@.with_tile(
                x as int,
                y as int,
                TileView { state: flag_state(state), features: names_of(features@) },
            ),
            final(self)@.state_at(x as int, y as int) == flag_state(state),
            final(self)@.features_at(x as int, y as int) == names_of(features@),
    {
        let found = self.index_of(x, y);
        let i = found.unwrap();
        let kept = unique_features(&features);
        let tile = Tile {
            state: if state {
                TileState::On
            } else {
                TileState::Off
            },
            features: kept,
        };
        self.tiles.set(i, tile);
        proof {
            let before = old(self)@;
            let after = self@;
            let width = self.size.x as int;
            let target = before.with_tile(
                x as int,
                y as int,
                TileView { state: flag_state(state), features: names_of(features@) },
            );
            assert forall|p: (int, int)| #[trigger]
                after.tiles.dom().contains(p) implies after.tiles[p] == target.tiles[p] by {
                lemma_index_in_range(p.0, p.1, width, self.size.y as int);
                if p != (x as int, y as int) {
                    if p.1 * width + p.0 == y * width + x {
                        lemma_index_injective(p.0, p.1, x as int, y as int, width);
                    }
                }
            }
            assert(after.tiles =~= target.tiles);
        }
    }
}

} // verus!
