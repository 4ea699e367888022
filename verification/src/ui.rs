//! What is shown: the levels of diagnostic output and the text of a grid.

use vstd::prelude::*;
use vstd::string::StringExecFns;
use crate::grid::{Grid, GridView, TileFeature, TileState};

verus! {

/// How much diagnostic output is wanted, or how much a message asks for.
#[derive(Clone, Copy, PartialEq, Eq, Structural, Debug)]
pub enum DebugLogging {
    All,
    Minimal,
    Silent,
}

impl DebugLogging {
    /// A message that asks for `level_min` is shown at this level: never at
    /// `Silent`, always at `All`, and otherwise where the two are the same.
    pub open spec fn shows(self, level_min: DebugLogging) -> bool {
        self != DebugLogging::Silent && (self == level_min || self == DebugLogging::All)
    }

    /// Whether a message that asks for `level_min` is shown at this level.
    pub fn prints(self, level_min: DebugLogging) -> (shown: bool)
        ensures
            shown == self.shows(level_min),
    {
        match self {
            DebugLogging::Silent => false,
            DebugLogging::All => true,
            DebugLogging::Minimal => match level_min {
                DebugLogging::Minimal => true,
                _ => false,
            },
        }
    }
}

/// The text that stands for each state of a tile.
#[derive(Clone, Copy, Debug)]
pub struct UiTiles {
    pub on: &'static str,
    pub off: &'static str,
    pub void: &'static str,
}

/// The text that stands for a tile with a feature.
#[derive(Debug)]
pub struct FeatureLabel {
    pub feature: TileFeature,
    pub label: &'static str,
}

/// The label of the first entry whose feature is among `features`, if any.
pub open spec fn label_of(labels: Seq<FeatureLabel>, features: Set<Seq<char>>) -> Option<Seq<char>>
    decreases labels.len(),
{
    if labels.len() == 0 {
        None
    } else if features.contains(labels.first().feature@) {
        Some(labels.first().label@)
    } else {
        label_of(labels.drop_first(), features)
    }
}

/// The text of one tile: the label of a feature it has, and else the text
/// of its state.
pub open spec fn tile_text(
    grid: GridView,
    tiles: UiTiles,
    labels: Seq<FeatureLabel>,
    x: int,
    y: int,
) -> Seq<char> {
    match label_of(labels, grid.features_at(x, y)) {
        Some(label) => label,
        None => match grid.state_at(x, y) {
            TileState::On => tiles.on@,
            TileState::Off => tiles.off@,
            TileState::Void => tiles.void@,
        },
    }
}

/// The text of the first `columns` tiles of row `y`.
pub open spec fn row_text(
    grid: GridView,
    tiles: UiTiles,
    labels: Seq<FeatureLabel>,
    y: int,
    columns: int,
) -> Seq<char>
    decreases columns,
{
    if columns <= 0 {
        Seq::empty()
    } else {
        row_text(grid, tiles, labels, y, columns - 1) + tile_text(grid, tiles, labels, columns - 1, y)
    }
}

/// The text of the first `rows` rows: each row in full, then a line break.
pub open spec fn grid_text(grid: GridView, tiles: UiTiles, labels: Seq<FeatureLabel>, rows: int) -> Seq<
    char,
>
    decreases rows,
{
    if rows <= 0 {
        Seq::empty()
    } else {
        grid_text(grid, tiles, labels, rows - 1) + row_text(grid, tiles, labels, rows - 1, grid.width)
            + seq!['\n']
    }
}

/// The label for a tile with the given features, if an entry has one.
fn find_label(grid: &Grid, x: i32, y: i32, labels: &Vec<FeatureLabel>) -> (found: Option<&'static str>)
    requires
        grid.wf(),
    ensures
        match label_of(labels@, grid@.features_at(x as int, y as int)) {
            Some(label) => found is Some && found->0@ == label,
            None => found is None,
        },
{
    let ghost features = grid@.features_at(x as int, y as int);
    let mut i: usize = 0;
    assert(labels@.skip(0) =~= labels@);
    while i < labels.len()
        invariant
            i <= labels.len(),
            grid.wf(),
            features == grid@.features_at(x as int, y as int),
            label_of(labels@, features) == label_of(labels@.skip(i as int), features),
        decreases labels.len() - i,
    {
        assert(labels@.skip(i as int).drop_first() =~= labels@.skip(i + 1));
        if grid.has_feature(x, y, &labels[i].feature) {
            return Some(labels[i].label);
        }
        i += 1;
    }
    None
}

impl Grid {
    /// The grid as text, row by row from row zero, the tiles of each row from
    /// column zero, and a line break after each row. A tile with a feature
    /// that has a label shows the label, by the first such entry of
    /// `labels`; any other tile shows the text of its state.
    pub fn to_string(&self, tiles: &UiTiles, labels: &Vec<FeatureLabel>) -> (text: String)
        requires
            self.wf(),
        ensures
            text@ == grid_text(self@, *tiles, labels@, self@.height),
    {
        proof {
            self.lemma_wf_view();
        }
        let size = self.size();
        let mut text = String::new();
        let mut row: usize = 0;
        while row < size.y
            invariant
                row <= size.y,
                self.wf(),
                size.x == self@.width,
                size.y == self@.height,
                size.x <= i32::MAX,
                size.y <= i32::MAX,
                text@ == grid_text(self@, *tiles, labels@, row as int),
            decreases size.y - row,
        {
            let ghost above = text@;
            let mut column: usize = 0;
            while column < size.x
                invariant
                    column <= size.x,
                    row < size.y,
                    self.wf(),
                    size.x == self@.width,
                    size.x <= i32::MAX,
                    size.y <= i32::MAX,
                    text@ == above + row_text(self@, *tiles, labels@, row as int, column as int),
                decreases size.x - column,
            {
                let x = column as i32;
                let y = row as i32;
                let shown = match find_label(self, x, y, labels) {
                    Some(label) => label,
                    None => match self.state_tile(x, y) {
                        TileState::On => tiles.on,
                        TileState::Off => tiles.off,
                        TileState::Void => tiles.void,
                    },
                };
                text.append(shown);
                column += 1;
            }
            text.append("\n");
            row += 1;
            proof {
                reveal_strlit("\n");
            }
        }
        text
    }
}

} // verus!
