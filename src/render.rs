//! Text renderings of a raster: one character per cell, or braille glyphs
//! that pack a 2-wide, 4-tall block of cells each.
use crate::game::GameState;
use crate::types::Point;
use crate::raster::{lemma_cell_index, rasterized, Raster2D};
use vstd::prelude::*;

verus! {

/// Relies on std's `String::push`: appends one character.
#[verifier::external_body]
fn push_char(s: &mut String, c: char)
    ensures
        final(s)@ == old(s)@.push(c),
{
    s.push(c)
}

/// Relies on std's `char::from_u32`: the character with code point `code`,
/// if `code` is a Unicode scalar value.
#[verifier::external_body]
fn char_from_code(code: u32) -> (r: Option<char>)
    ensures
        r.is_some() <==> (code < 0xD800 || 0xE000 <= code <= 0x10FFFF),
        r matches Some(c) ==> c as u32 == code,
{
    char::from_u32(code)
}

/// Why a raster cannot be packed into glyphs.
#[derive(Debug, Clone, Copy, PartialEq, Eq, Structural)]
pub enum RenderError {
    /// The width is not a multiple of 2 or the height not a multiple of 4.
    DimensionMismatch,
}

/// `lines` with `sep` between each two neighbours.
pub open spec fn join_lines<T>(lines: Seq<Seq<T>>, sep: T) -> Seq<T>
    decreases lines.len(),
{
    if lines.len() == 0 {
        Seq::empty()
    } else if lines.len() == 1 {
        lines[0]
    } else {
        join_lines(lines.drop_last(), sep) + seq![sep] + lines.last()
    }
}

/// A dimension, with a negative one counting as zero.
pub open spec fn extent(n: int) -> nat {
    if n < 0 { 0 } else { n as nat }
}

/// Row `y` of the plain rendering: `'8'` for a cell that is on, `'.'` else.
pub open spec fn ascii_row(r: &Raster2D, y: int) -> Seq<char> {
    Seq::new(extent(r.width as int), |x: int| if r.lit(x, y) { '8' } else { '.' })
}

/// The plain rendering's lines, top to bottom.
pub open spec fn ascii_lines(r: &Raster2D) -> Seq<Seq<char>> {
    Seq::new(extent(r.height as int), |y: int| ascii_row(r, y))
}

/// The dot bit of the cell at `row` (0 to 3) and `col` (0 or 1) of a glyph:
/// the left column takes bits 0, 1, 2, 6, the right one bits 3, 4, 5, 7.
pub open spec fn dot_value(row: int, col: int) -> int {
    if col == 0 {
        if row == 0 { 1 } else if row == 1 { 2 } else if row == 2 { 4 } else { 64 }
    } else {
        if row == 0 { 8 } else if row == 1 { 16 } else if row == 2 { 32 } else { 128 }
    }
}

/// What the cell at `row`, `col` of glyph `(gx, gy)` adds to its pattern.
pub open spec fn dot_of(r: &Raster2D, gx: int, gy: int, row: int, col: int) -> int {
    if r.lit(2 * gx + col, 4 * gy + row) { dot_value(row, col) } else { 0 }
}

/// The dot pattern of glyph `(gx, gy)`.
pub open spec fn glyph_mask(r: &Raster2D, gx: int, gy: int) -> int {
    dot_of(r, gx, gy, 0, 0) + dot_of(r, gx, gy, 1, 0) + dot_of(r, gx, gy, 2, 0) + dot_of(r, gx, gy, 3, 0)
        + dot_of(r, gx, gy, 0, 1) + dot_of(r, gx, gy, 1, 1) + dot_of(r, gx, gy, 2, 1) + dot_of(r, gx, gy, 3, 1)
}

/// The code point of the braille glyph with dot pattern `mask`; pattern 0
/// is the blank glyph.
pub open spec fn braille_code(mask: int) -> u32 {
    (0x2800 + mask) as u32
}

/// The code points of glyph row `gy`.
pub open spec fn glyph_row(r: &Raster2D, gy: int) -> Seq<u32> {
    Seq::new(extent(r.width / 2), |gx: int| braille_code(glyph_mask(r, gx, gy)))
}

/// The code points of the braille rendering's lines, top to bottom.
pub open spec fn glyph_lines(r: &Raster2D) -> Seq<Seq<u32>> {
    Seq::new(extent(r.height / 4), |gy: int| glyph_row(r, gy))
}

/// The code points of a text.
pub open spec fn codes(s: Seq<char>) -> Seq<u32> {
    s.map_values(|c: char| c as u32)
}

proof fn lemma_join_step<T>(lines: Seq<Seq<T>>, sep: T, k: int)
    requires
        0 <= k < lines.len(),
    ensures
        join_lines(lines.subrange(0, k + 1), sep) == if k == 0 {
            lines[0]
        } else {
            join_lines(lines.subrange(0, k), sep) + seq![sep] + lines[k]
        },
{
    let next = lines.subrange(0, k + 1);
    assert(next.drop_last() =~= lines.subrange(0, k));
}

/// One character per cell, `'8'` for on and `'.'` for off, rows joined by
/// newlines.
pub fn raster_to_str(raster: &Raster2D) -> (s: String)
    ensures
        s@ == join_lines(ascii_lines(raster), '\n'),
{
    let ghost lines = ascii_lines(raster);
    let mut out = String::new();
    let mut y: i32 = 0;
    while y < raster.height
        invariant
            lines == ascii_lines(raster),
            0 <= y,
            y <= raster.height || y == 0,
            out@ == join_lines(lines.subrange(0, y as int), '\n'),
        decreases raster.height - y,
    {
        let ghost before = out@;
        if y > 0 {
            push_char(&mut out, '\n');
        }
        let ghost start = out@;
        let mut x: i32 = 0;
        while x < raster.width
            invariant
                0 <= y < raster.height,
                0 <= x,
                x <= raster.width || x == 0,
                out@ == start + ascii_row(raster, y as int).subrange(0, x as int),
            decreases raster.width - x,
        {
            let c = match raster.get(x, y) {
                Some(true) => '8',
                _ => '.',
            };
            push_char(&mut out, c);
            proof {
                assert(out@ =~= start + ascii_row(raster, y as int).subrange(0, x + 1));
            }
            x += 1;
        }
        proof {
            assert(ascii_row(raster, y as int).subrange(0, x as int) =~= ascii_row(raster, y as int));
            lemma_join_step(lines, '\n', y as int);
            assert(lines[y as int] == ascii_row(raster, y as int));
            if y == 0 {
                assert(out@ =~= lines[0]);
            } else {
                assert(out@ =~= before + seq!['\n'] + lines[y as int]);
            }
        }
        y += 1;
    }
    proof {
        assert(lines.subrange(0, y as int) =~= lines);
    }
    out
}

/// The dot bit of the cell at `row`, `col` within its glyph.
fn dot_bit(row: u32, col: u32) -> (b: u32)
    requires
        row < 4,
        col < 2,
    ensures
        b == dot_value(row as int, col as int),
{
    match (row, col) {
        (0, 0) => 1,
        (1, 0) => 2,
        (2, 0) => 4,
        (3, 0) => 64,
        (0, _) => 8,
        (1, _) => 16,
        (2, _) => 32,
        _ => 128,
    }
}

/// What one cell adds to the pattern of its glyph.
fn cell_dot(raster: &Raster2D, gx: i32, gy: i32, row: u32, col: u32) -> (b: u32)
    requires
        0 <= gx,
        0 <= gy,
        2 * gx + 1 <= i32::MAX,
        4 * gy + 3 <= i32::MAX,
        row < 4,
        col < 2,
    ensures
        b == dot_of(raster, gx as int, gy as int, row as int, col as int),
{
    match raster.get(2 * gx + col as i32, 4 * gy + row as i32) {
        Some(true) => dot_bit(row, col),
        _ => 0,
    }
}

/// Packs each 2x4 block of cells into one braille glyph, one line of glyphs
/// per four rows, lines joined by newlines.
pub fn render_braille(raster: &Raster2D) -> (r: Result<String, RenderError>)
    ensures
        r is Err <==> (raster.width % 2 != 0 || raster.height % 4 != 0),
        r matches Ok(s) ==> codes(s@) == join_lines(glyph_lines(raster), 10u32),
{
    if raster.width % 2 != 0 || raster.height % 4 != 0 {
        return Err(RenderError::DimensionMismatch);
    }
    let gw: i32 = raster.width / 2;
    let gh: i32 = raster.height / 4;
    let ghost lines = glyph_lines(raster);
    let mut out = String::new();
    let mut gy: i32 = 0;
    while gy < gh
        invariant
            lines == glyph_lines(raster),
            gw == raster.width / 2,
            gh == raster.height / 4,
            0 <= gy,
            gy <= gh || gy == 0,
            codes(out@) == join_lines(lines.subrange(0, gy as int), 10u32),
        decreases gh - gy,
    {
        let ghost before = codes(out@);
        if gy > 0 {
            push_char(&mut out, '\n');
            proof {
                assert(codes(out@) =~= before + seq![10u32]);
            }
        }
        let ghost start = codes(out@);
        let mut gx: i32 = 0;
        while gx < gw
            invariant
                0 <= gy < gh,
                gw == raster.width / 2,
                gh == raster.height / 4,
                0 <= gx,
                gx <= gw || gx == 0,
                codes(out@) == start + glyph_row(raster, gy as int).subrange(0, gx as int),
            decreases gw - gx,
        {
            let mask = cell_dot(raster, gx, gy, 0, 0) + cell_dot(raster, gx, gy, 1, 0) + cell_dot(raster, gx, gy, 2, 0)
                + cell_dot(raster, gx, gy, 3, 0) + cell_dot(raster, gx, gy, 0, 1) + cell_dot(raster, gx, gy, 1, 1)
                + cell_dot(raster, gx, gy, 2, 1) + cell_dot(raster, gx, gy, 3, 1);
            let code = 0x2800u32 + mask;
            match char_from_code(code) {
                Some(c) => {
                    let ghost prev = out@;
                    push_char(&mut out, c);
                    proof {
                        assert(codes(out@) =~= codes(prev).push(c as u32));
                        assert(codes(out@) =~= start + glyph_row(raster, gy as int).subrange(0, gx + 1));
                    }
                },
                None => {},
            }
            gx += 1;
        }
        proof {
            assert(glyph_row(raster, gy as int).subrange(0, gx as int) =~= glyph_row(raster, gy as int));
            lemma_join_step(lines, 10u32, gy as int);
            assert(lines[gy as int] == glyph_row(raster, gy as int));
            if gy == 0 {
                assert(codes(out@) =~= lines[0]);
            } else {
                assert(codes(out@) =~= before + seq![10u32] + lines[gy as int]);
            }
        }
        gy += 1;
    }
    proof {
        assert(lines.subrange(0, gy as int) =~= lines);
    }
    Ok(out)
}

/// The plain rendering of a game's grid has one line per board row and one
/// character per board column, no line holds a newline, and every snake
/// segment shows as `'8'` in its row and column.
pub proof fn lemma_ascii_shape(state: GameState, r: Raster2D)
    requires
        state.wf(),
        rasterized(state, r),
    ensures
        ascii_lines(&r).len() == state.cfg_view().height,
        forall|y: int| 0 <= y < ascii_lines(&r).len() ==> (#[trigger] ascii_lines(&r)[y]).len() == state.cfg_view().width,
        forall|y: int, x: int|
            0 <= y < ascii_lines(&r).len() && 0 <= x < ascii_lines(&r)[y].len() ==> (#[trigger] ascii_lines(&r)[y][x])
                != '\n',
        forall|i: int|
            0 <= i < state.snake_view().len() ==> ascii_lines(&r)[(#[trigger] state.snake_view()[i]).y as int][state.snake_view()[i].x as int] == '8',
{
    assert forall|i: int| 0 <= i < state.snake_view().len() implies ascii_lines(&r)[(#[trigger] state.snake_view()[i]).y as int][state.snake_view()[i].x as int] == '8' by {
        let p = state.snake_view()[i];
        assert(state.cfg_view().contains(p));
        assert(crate::game::at(p.x as int, p.y as int) == p);
        assert(state.snake_view().contains(p));
        assert(r.lit(p.x as int, p.y as int));
    }
}

/// How often `c` occurs in `s`.
pub open spec fn occurrences(s: Seq<char>, c: char) -> nat
    decreases s.len(),
{
    if s.len() == 0 {
        0
    } else {
        occurrences(s.drop_last(), c) + if s.last() == c { 1nat } else { 0nat }
    }
}

/// A set of distinct positions that all hold `c` has no more members than
/// `c` has occurrences.
proof fn lemma_occurrences_bound(s: Seq<char>, c: char, positions: Set<int>)
    requires
        positions.finite(),
        forall|i: int| #[trigger] positions.contains(i) ==> 0 <= i < s.len() && s[i] == c,
    ensures
        positions.len() <= occurrences(s, c),
    decreases s.len(),
{
    if s.len() == 0 {
        assert(positions =~= Set::<int>::empty());
    } else {
        let n = s.len() - 1;
        let rest = positions.remove(n);
        assert forall|i: int| #[trigger] rest.contains(i) implies 0 <= i < s.drop_last().len() && s.drop_last()[i] == c by {
            assert(positions.contains(i));
        }
        lemma_occurrences_bound(s.drop_last(), c, rest);
        vstd::set::axiom_set_remove_len(positions, n);
    }
}

/// Lines of equal width `w`, joined by a one-character separator, take
/// `w + 1` characters each but the last.
proof fn lemma_join_len(lines: Seq<Seq<char>>, sep: char, w: int)
    requires
        w >= 0,
        lines.len() >= 1,
        forall|k: int| 0 <= k < lines.len() ==> (#[trigger] lines[k]).len() == w,
    ensures
        join_lines(lines, sep).len() == lines.len() * (w + 1) - 1,
    decreases lines.len(),
{
    if lines.len() > 1 {
        let d = lines.drop_last();
        assert forall|k: int| 0 <= k < d.len() implies (#[trigger] d[k]).len() == w by {
            assert(d[k] == lines[k]);
        }
        lemma_join_len(d, sep, w);
        assert(lines.last() == lines[lines.len() - 1]);
        assert(join_lines(lines, sep) == join_lines(d, sep) + seq![sep] + lines.last());
        assert(lines.len() * (w + 1) == (lines.len() - 1) * (w + 1) + (w + 1)) by (nonlinear_arith);
    } else {
        assert(join_lines(lines, sep) == lines[0]);
    }
}

/// In lines of equal width `w` joined by a one-character separator, column
/// `x` of line `y` stands at `y * (w + 1) + x`.
proof fn lemma_join_index(lines: Seq<Seq<char>>, sep: char, w: int, y: int, x: int)
    requires
        w >= 0,
        forall|k: int| 0 <= k < lines.len() ==> (#[trigger] lines[k]).len() == w,
        0 <= y < lines.len(),
        0 <= x < w,
    ensures
        0 <= y * (w + 1) + x < join_lines(lines, sep).len(),
        join_lines(lines, sep)[y * (w + 1) + x] == lines[y][x],
    decreases lines.len(),
{
    lemma_join_len(lines, sep, w);
    let n = lines.len();
    assert(0 <= y * (w + 1) + x <= n * (w + 1) - 2) by (nonlinear_arith)
        requires
            0 <= y < n,
            0 <= x < w,
    ;
    if n > 1 {
        let d = lines.drop_last();
        assert forall|k: int| 0 <= k < d.len() implies (#[trigger] d[k]).len() == w by {
            assert(d[k] == lines[k]);
        }
        lemma_join_len(d, sep, w);
        let jd = join_lines(d, sep);
        assert(join_lines(lines, sep) == jd + seq![sep] + lines.last());
        assert(jd.len() == (n - 1) * (w + 1) - 1);
        if y < n - 1 {
            lemma_join_index(d, sep, w, y, x);
            assert(d[y] == lines[y]);
            assert(join_lines(lines, sep)[y * (w + 1) + x] == jd[y * (w + 1) + x]);
        } else {
            assert(y * (w + 1) + x == (n - 1) * (w + 1) - 1 + 1 + x) by (nonlinear_arith)
                requires
                    y == n - 1,
            ;
            assert(lines.last() == lines[y]);
            assert(join_lines(lines, sep)[y * (w + 1) + x] == lines.last()[x]);
        }
    } else {
        assert(join_lines(lines, sep) == lines[0]);
        assert(y == 0);
        assert(y * (w + 1) + x == x);
    }
}

/// The plain rendering of a game's grid holds at least as many `'8'`s as the snake has segments.
pub proof fn lemma_ascii_counts_snake(state: GameState, r: Raster2D)
    requires
        state.wf(),
        rasterized(state, r),
    ensures
        occurrences(join_lines(ascii_lines(&r), '\n'), '8') >= state.snake_view().len(),
{
    lemma_ascii_shape(state, r);
    let w = r.width as int;
    let h = r.height as int;
    let lines = ascii_lines(&r);
    let text = join_lines(lines, '\n');
    let snake = state.snake_view();
    let pos = snake.map_values(|p: Point| p.y as int * (w + 1) + p.x as int);
    assert forall|a: int, b: int| 0 <= a < pos.len() && 0 <= b < pos.len() && a != b implies pos[a] != pos[b] by {
        let p = snake[a];
        let q = snake[b];
        assert(state.cfg_view().contains(p) && state.cfg_view().contains(q));
        lemma_cell_index(w + 1, h, p.x as int, p.y as int, q.x as int, q.y as int);
    }
    assert(pos.no_duplicates());
    pos.unique_seq_to_set();
    vstd::seq_lib::seq_to_set_is_finite(pos);
    assert forall|i: int| #[trigger] pos.to_set().contains(i) implies 0 <= i < text.len() && text[i] == '8' by {
        let k = choose|k: int| 0 <= k < pos.len() && pos[k] == i;
        let p = snake[k];
        assert(state.cfg_view().contains(p));
        lemma_join_index(lines, '\n', w, p.y as int, p.x as int);
    }
    lemma_occurrences_bound(text, '8', pos.to_set());
}

} // verus!
