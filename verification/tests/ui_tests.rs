use labyrinth::grid::{Grid, GridKind, TileFeature};
use labyrinth::ui::DebugLogging::{All, Minimal, Silent};
use labyrinth::ui::{FeatureLabel, UiTiles};

fn named(name: &str) -> TileFeature {
    TileFeature::Named(name.to_string())
}

fn tiles() -> UiTiles {
    UiTiles { on: "..", off: "##", void: "??" }
}

fn labels() -> Vec<FeatureLabel> {
    vec![
        FeatureLabel { feature: named("Entrance"), label: "IN" },
        FeatureLabel { feature: named("Exit"), label: "EX" },
    ]
}

#[test]
fn logging_levels() {
    assert!(All.prints(All));
    assert!(All.prints(Minimal));
    assert!(All.prints(Silent));
    assert!(Minimal.prints(Minimal));
    assert!(!Minimal.prints(All));
    assert!(!Minimal.prints(Silent));
    assert!(!Silent.prints(All));
    assert!(!Silent.prints(Minimal));
    assert!(!Silent.prints(Silent));
}

#[test]
fn text_of_a_fresh_grid() {
    let grid = Grid::new(GridKind::Squares, 3, false).unwrap();
    assert_eq!(grid.to_string(&tiles(), &labels()), "######\n######\n######\n");
    let grid = Grid::new(GridKind::Squares, 1, false).unwrap();
    assert_eq!(grid.to_string(&tiles(), &labels()), "##\n");
}

#[test]
fn text_goes_row_by_row() {
    let mut grid = Grid::new(GridKind::Squares, 3, false).unwrap();
    grid.update_tile(0, 0, true, vec![]);
    grid.update_tile(1, 0, true, vec![]);
    grid.update_tile(2, 1, true, vec![]);
    assert_eq!(grid.to_string(&tiles(), &labels()), "....##\n####..\n######\n");
}

#[test]
fn text_shows_labels_over_states() {
    let mut grid = Grid::new(GridKind::Squares, 3, false).unwrap();
    grid.update_tile(1, 1, true, vec![named("Entrance")]);
    grid.update_tile(2, 2, false, vec![named("Exit")]);
    grid.update_tile(0, 2, true, vec![named("Trap")]);
    grid.update_tile(1, 0, true, vec![]);
    assert_eq!(grid.to_string(&tiles(), &labels()), "##..##\n##IN##\n..##EX\n");
    // Without labels the states show.
    assert_eq!(grid.to_string(&tiles(), &vec![]), "##..##\n##..##\n..####\n");
}

#[test]
fn text_takes_the_first_label_that_applies() {
    let mut grid = Grid::new(GridKind::Squares, 1, false).unwrap();
    grid.update_tile(0, 0, true, vec![named("Exit"), named("Entrance")]);
    assert_eq!(grid.to_string(&tiles(), &labels()), "IN\n");
    let reversed = vec![
        FeatureLabel { feature: named("Exit"), label: "EX" },
        FeatureLabel { feature: named("Entrance"), label: "IN" },
    ];
    assert_eq!(grid.to_string(&tiles(), &reversed), "EX\n");
}

#[test]
fn text_takes_glyphs_of_any_length() {
    let mut grid = Grid::new(GridKind::Squares, 2, false).unwrap();
    grid.update_tile(1, 1, true, vec![]);
    let glyphs = UiTiles { on: "░░", off: "██", void: "▒▒" };
    assert_eq!(grid.to_string(&glyphs, &vec![]), "████\n██░░\n");
    let glyphs = UiTiles { on: "", off: "x", void: "" };
    assert_eq!(grid.to_string(&glyphs, &vec![]), "xx\nx\n");
}
