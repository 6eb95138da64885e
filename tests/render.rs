use hjkl_snake::render::{raster_to_str, render_braille, RenderError};
use hjkl_snake::{rasterize_game, GameConfig, GameState, Raster2D};

fn raster_with(width: i32, height: i32, on: &[(i32, i32)]) -> Raster2D {
    let mut r = Raster2D::new(width, height);
    for &(x, y) in on {
        r.set(x, y, true);
    }
    r
}

#[test]
fn top_left_dot() {
    let r = raster_with(2, 4, &[(0, 0)]);
    assert_eq!(render_braille(&r), Ok("\u{2801}".to_string()));
}

#[test]
fn blank_glyph() {
    let r = Raster2D::new(2, 4);
    assert_eq!(render_braille(&r), Ok("\u{2800}".to_string()));
}

#[test]
fn dot_table() {
    let cases = [
        ((0, 0), 0x01),
        ((0, 1), 0x02),
        ((0, 2), 0x04),
        ((0, 3), 0x40),
        ((1, 0), 0x08),
        ((1, 1), 0x10),
        ((1, 2), 0x20),
        ((1, 3), 0x80),
    ];
    for ((x, y), bit) in cases {
        let r = raster_with(2, 4, &[(x, y)]);
        let expected = char::from_u32(0x2800 + bit).unwrap().to_string();
        assert_eq!(render_braille(&r), Ok(expected));
    }
    let all: Vec<(i32, i32)> = (0..2).flat_map(|x| (0..4).map(move |y| (x, y))).collect();
    assert_eq!(render_braille(&raster_with(2, 4, &all)), Ok("\u{28ff}".to_string()));
}

#[test]
fn glyph_rows_and_columns() {
    let r = raster_with(4, 8, &[(3, 0), (0, 7)]);
    assert_eq!(
        render_braille(&r),
        Ok("\u{2800}\u{2808}\n\u{2840}\u{2800}".to_string())
    );
}

#[test]
fn braille_needs_whole_blocks() {
    assert_eq!(
        render_braille(&Raster2D::new(3, 4)),
        Err(RenderError::DimensionMismatch)
    );
    assert_eq!(
        render_braille(&Raster2D::new(2, 6)),
        Err(RenderError::DimensionMismatch)
    );
}

#[test]
fn ascii_rendering() {
    let r = raster_with(3, 2, &[(1, 0), (2, 1)]);
    assert_eq!(raster_to_str(&r), ".8.\n..8");
    assert_eq!(raster_to_str(&Raster2D::new(0, 0)), "");
}

#[test]
fn raster_probes() {
    let mut r = Raster2D::new(2, 2);
    assert_eq!(r.cells.len(), 4);
    r.set(1, 1, true);
    assert_eq!(r.get(1, 1), Some(true));
    assert_eq!(r.get(0, 0), Some(false));
    assert_eq!(r.get(-1, 0), None);
    assert_eq!(r.get(3, 0), None);
    // A probe on the right edge reads the first cell of the next row.
    r.set(0, 1, true);
    assert_eq!(r.get(2, 0), Some(true));
    assert_eq!(r.get(2, 2), None);
    r.set(5, 5, true);
    assert_eq!(r.cells, vec![false, false, true, true]);
    assert_eq!(Raster2D::new(-3, 4).cells.len(), 0);
}

#[test]
fn ascii_of_game_has_board_shape() {
    let g = GameState::with_seed(
        GameConfig {
            width: 10,
            height: 8,
            wrap_edges: false,
            initial_len: 3,
            braille_friendly: true,
        },
        42,
    );
    let text = raster_to_str(&rasterize_game(&g));
    let lines: Vec<&str> = text.split('\n').collect();
    assert_eq!(lines.len(), 8);
    for l in &lines {
        assert_eq!(l.chars().count(), 10);
    }
    let eights = text.chars().filter(|&c| c == '8').count();
    assert!(eights >= g.snake_segments().len());
    assert_eq!(eights, 4);
    assert_eq!(&lines[4][3..6], "888");
}

#[test]
fn game_packs_into_glyphs() {
    let g = GameState::with_seed(
        GameConfig {
            width: 8,
            height: 8,
            wrap_edges: false,
            initial_len: 2,
            braille_friendly: true,
        },
        9,
    );
    let text = render_braille(&rasterize_game(&g)).unwrap();
    let lines: Vec<&str> = text.split('\n').collect();
    assert_eq!(lines.len(), 2);
    for l in &lines {
        assert_eq!(l.chars().count(), 4);
        assert!(l.chars().all(|c| ('\u{2800}'..='\u{28ff}').contains(&c)));
    }
}
