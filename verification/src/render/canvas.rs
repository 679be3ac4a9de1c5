//! A character grid that diagrams are drawn on.
use vstd::prelude::*;

use crate::text::{chars_of, push_char, push_chars, trim_end, trim_end_slice};

verus! {

/// A 2D character grid for drawing diagrams.
#[derive(Debug, Clone)]
pub struct Canvas {
    cells: Vec<Vec<char>>,
    width: usize,
    height: usize,
}

/// What a `Canvas` holds: its size and its rows of chars.
pub struct CanvasModel {
    pub width: usize,
    pub height: usize,
    pub rows: Seq<Seq<char>>,
}

impl View for Canvas {
    type V = CanvasModel;

    closed spec fn view(&self) -> CanvasModel {
        CanvasModel {
            width: self.width,
            height: self.height,
            rows: self.cells@.map_values(|r: Vec<char>| r@),
        }
    }
}

/// The rows match the size.
pub open spec fn model_wf(c: CanvasModel) -> bool {
    &&& c.rows.len() == c.height
    &&& forall|y: int| 0 <= y < c.height ==> (#[trigger] c.rows[y]).len() == c.width
}

/// A canvas of the given size filled with spaces.
pub open spec fn blank(width: usize, height: usize) -> CanvasModel {
    CanvasModel {
        width,
        height,
        rows: Seq::new(height as nat, |y: int| Seq::new(width as nat, |x: int| ' ')),
    }
}

/// The canvas with `ch` at column `x` of row `y`; unchanged where that
/// cell lies outside.
pub open spec fn put(c: CanvasModel, x: int, y: int, ch: char) -> CanvasModel {
    if 0 <= y < c.height && 0 <= x < c.width {
        CanvasModel { rows: c.rows.update(y, c.rows[y].update(x, ch)), ..c }
    } else {
        c
    }
}

/// The canvas with `s` written rightwards from `(x, y)`, one char per column.
pub open spec fn put_str(c: CanvasModel, x: int, y: int, s: Seq<char>) -> CanvasModel
    decreases s.len(),
{
    if s.len() == 0 {
        c
    } else {
        put(put_str(c, x, y, s.drop_last()), x + s.len() - 1, y, s.last())
    }
}

/// The canvas with `len` copies of `ch` rightwards from `(x, y)`.
pub open spec fn hline(c: CanvasModel, x: int, y: int, len: int, ch: char) -> CanvasModel
    decreases len,
{
    if len <= 0 {
        c
    } else {
        put(hline(c, x, y, len - 1, ch), x + len - 1, y, ch)
    }
}

/// The canvas with `len` copies of `ch` downwards from `(x, y)`.
pub open spec fn vline(c: CanvasModel, x: int, y: int, len: int, ch: char) -> CanvasModel
    decreases len,
{
    if len <= 0 {
        c
    } else {
        put(vline(c, x, y, len - 1, ch), x, y + len - 1, ch)
    }
}

/// The corner, horizontal and vertical chars of a box.
pub open spec fn box_chars(ascii: bool) -> (char, char, char, char, char, char) {
    if ascii {
        ('+', '+', '+', '+', '-', '|')
    } else {
        ('\u{250C}', '\u{2510}', '\u{2514}', '\u{2518}', '\u{2500}', '\u{2502}')
    }
}

/// The canvas with the outline of a `width` by `height` box whose top left
/// corner is `(x, y)`; unchanged for a box narrower or lower than two.
pub open spec fn draw_box_spec(
    c: CanvasModel,
    x: int,
    y: int,
    width: int,
    height: int,
    ascii: bool,
) -> CanvasModel {
    if width < 2 || height < 2 {
        c
    } else {
        let (tl, tr, bl, br, h, v) = box_chars(ascii);
        let c1 = put(c, x, y, tl);
        let c2 = put(c1, x + width - 1, y, tr);
        let c3 = put(c2, x, y + height - 1, bl);
        let c4 = put(c3, x + width - 1, y + height - 1, br);
        let c5 = hline(c4, x + 1, y, width - 2, h);
        let c6 = hline(c5, x + 1, y + height - 1, width - 2, h);
        let c7 = vline(c6, x, y + 1, height - 2, v);
        vline(c7, x + width - 1, y + 1, height - 2, v)
    }
}

/// The lines joined by `'\n'`, with no newline after the last.
pub open spec fn join_lines(ls: Seq<Seq<char>>) -> Seq<char>
    decreases ls.len(),
{
    if ls.len() == 0 {
        Seq::empty()
    } else if ls.len() == 1 {
        ls[0]
    } else {
        join_lines(ls.drop_last()) + seq!['\n'] + ls.last()
    }
}

/// The text of a canvas: its rows without trailing whitespace, one per line.
pub open spec fn canvas_text(c: CanvasModel) -> Seq<char> {
    join_lines(c.rows.map_values(|r: Seq<char>| trim_end(r)))
}

/// Writing `n` chars rightwards from column `x` never computes a column
/// beyond `usize::MAX`.
pub open spec fn run_fits(x: int, n: int) -> bool {
    n <= 0 || x + n - 1 <= usize::MAX
}

/// Every cell of the canvas satisfies `p`.
pub open spec fn all_cells(c: CanvasModel, p: spec_fn(char) -> bool) -> bool {
    forall|y: int, x: int| 0 <= y < c.height && 0 <= x < c.width ==> #[trigger] p(c.rows[y][x])
}

/// A canvas of the same size, each of whose rows holds as many cells as it is wide.
pub open spec fn same_shape(a: CanvasModel, b: CanvasModel) -> bool {
    a.width == b.width && a.height == b.height && model_wf(b)
}

/// Writing a cell changes that cell alone, and a cell outside the canvas
/// changes nothing: what is read back at the written cell is what was written.
pub proof fn law_put_then_read(c: CanvasModel, x: int, y: int, ch: char, x2: int, y2: int)
    requires
        model_wf(c),
        0 <= y2 < c.height,
        0 <= x2 < c.width,
    ensures
        put(c, x, y, ch).rows[y2][x2] == (if x2 == x && y2 == y {
            ch
        } else {
            c.rows[y2][x2]
        }),
        !(0 <= y < c.height && 0 <= x < c.width) ==> put(c, x, y, ch) == c,
        same_shape(c, put(c, x, y, ch)),
{
}

/// A new canvas is blank: every cell holds a space.
pub proof fn law_blank_is_spaces(width: usize, height: usize)
    ensures
        model_wf(blank(width, height)),
        all_cells(blank(width, height), |ch: char| ch == ' '),
{
}

/// A horizontal line sets the cells `x..x + len` of row `y` that lie on the
/// canvas and leaves every other cell as it was.
pub proof fn law_hline_cells(c: CanvasModel, x: int, y: int, len: int, ch: char, x2: int, y2: int)
    requires
        model_wf(c),
        0 <= y2 < c.height,
        0 <= x2 < c.width,
    ensures
        same_shape(c, hline(c, x, y, len, ch)),
        hline(c, x, y, len, ch).rows[y2][x2] == (if y2 == y && x <= x2 < x + len {
            ch
        } else {
            c.rows[y2][x2]
        }),
    decreases len,
{
    if len > 0 {
        law_hline_cells(c, x, y, len - 1, ch, x2, y2);
        lemma_hline_shape(c, x, y, len - 1, ch);
    }
}

/// A vertical line sets the cells `y..y + len` of column `x` that lie on the
/// canvas and leaves every other cell as it was.
pub proof fn law_vline_cells(c: CanvasModel, x: int, y: int, len: int, ch: char, x2: int, y2: int)
    requires
        model_wf(c),
        0 <= y2 < c.height,
        0 <= x2 < c.width,
    ensures
        same_shape(c, vline(c, x, y, len, ch)),
        vline(c, x, y, len, ch).rows[y2][x2] == (if x2 == x && y <= y2 < y + len {
            ch
        } else {
            c.rows[y2][x2]
        }),
    decreases len,
{
    if len > 0 {
        law_vline_cells(c, x, y, len - 1, ch, x2, y2);
        lemma_vline_shape(c, x, y, len - 1, ch);
    }
}

/// Writing a string sets the cells `x..x + s.len()` of row `y` that lie on
/// the canvas to the chars of `s` in order, and leaves every other cell.
pub proof fn law_put_str_cells(c: CanvasModel, x: int, y: int, s: Seq<char>, x2: int, y2: int)
    requires
        model_wf(c),
        0 <= y2 < c.height,
        0 <= x2 < c.width,
    ensures
        same_shape(c, put_str(c, x, y, s)),
        put_str(c, x, y, s).rows[y2][x2] == (if y2 == y && x <= x2 < x + s.len() {
            s[x2 - x]
        } else {
            c.rows[y2][x2]
        }),
    decreases s.len(),
{
    if s.len() > 0 {
        law_put_str_cells(c, x, y, s.drop_last(), x2, y2);
        lemma_put_str_shape(c, x, y, s.drop_last());
    }
}

pub proof fn lemma_put_shape(c: CanvasModel, x: int, y: int, ch: char)
    requires
        model_wf(c),
    ensures
        same_shape(c, put(c, x, y, ch)),
{
}

pub proof fn lemma_hline_shape(c: CanvasModel, x: int, y: int, len: int, ch: char)
    requires
        model_wf(c),
    ensures
        same_shape(c, hline(c, x, y, len, ch)),
    decreases len,
{
    if len > 0 {
        lemma_hline_shape(c, x, y, len - 1, ch);
    }
}

pub proof fn lemma_vline_shape(c: CanvasModel, x: int, y: int, len: int, ch: char)
    requires
        model_wf(c),
    ensures
        same_shape(c, vline(c, x, y, len, ch)),
    decreases len,
{
    if len > 0 {
        lemma_vline_shape(c, x, y, len - 1, ch);
    }
}

pub proof fn lemma_put_str_shape(c: CanvasModel, x: int, y: int, s: Seq<char>)
    requires
        model_wf(c),
    ensures
        same_shape(c, put_str(c, x, y, s)),
    decreases s.len(),
{
    if s.len() > 0 {
        lemma_put_str_shape(c, x, y, s.drop_last());
    }
}

/// Writing chars that satisfy `p` keeps every cell satisfying `p`.
pub proof fn lemma_put_keeps(c: CanvasModel, x: int, y: int, ch: char, p: spec_fn(char) -> bool)
    requires
        model_wf(c),
        all_cells(c, p),
        p(ch),
    ensures
        all_cells(put(c, x, y, ch), p),
{
    assert forall|y2: int, x2: int| 0 <= y2 < c.height && 0 <= x2 < c.width implies #[trigger] p(
        put(c, x, y, ch).rows[y2][x2],
    ) by {
        law_put_then_read(c, x, y, ch, x2, y2);
    }
}

pub proof fn lemma_hline_keeps(c: CanvasModel, x: int, y: int, len: int, ch: char, p: spec_fn(char) -> bool)
    requires
        model_wf(c),
        all_cells(c, p),
        p(ch),
    ensures
        all_cells(hline(c, x, y, len, ch), p),
    decreases len,
{
    if len > 0 {
        lemma_hline_keeps(c, x, y, len - 1, ch, p);
        lemma_hline_shape(c, x, y, len - 1, ch);
        lemma_put_keeps(hline(c, x, y, len - 1, ch), x + len - 1, y, ch, p);
    }
}

pub proof fn lemma_vline_keeps(c: CanvasModel, x: int, y: int, len: int, ch: char, p: spec_fn(char) -> bool)
    requires
        model_wf(c),
        all_cells(c, p),
        p(ch),
    ensures
        all_cells(vline(c, x, y, len, ch), p),
    decreases len,
{
    if len > 0 {
        lemma_vline_keeps(c, x, y, len - 1, ch, p);
        lemma_vline_shape(c, x, y, len - 1, ch);
        lemma_put_keeps(vline(c, x, y, len - 1, ch), x, y + len - 1, ch, p);
    }
}

pub proof fn lemma_put_str_keeps(c: CanvasModel, x: int, y: int, s: Seq<char>, p: spec_fn(char) -> bool)
    requires
        model_wf(c),
        all_cells(c, p),
        forall|i: int| 0 <= i < s.len() ==> #[trigger] p(s[i]),
    ensures
        all_cells(put_str(c, x, y, s), p),
    decreases s.len(),
{
    if s.len() > 0 {
        lemma_put_str_keeps(c, x, y, s.drop_last(), p);
        lemma_put_str_shape(c, x, y, s.drop_last());
        assert(p(s[s.len() - 1]));
        lemma_put_keeps(put_str(c, x, y, s.drop_last()), x + s.len() - 1, y, s.last(), p);
    }
}

pub proof fn lemma_draw_box_keeps(
    c: CanvasModel,
    x: int,
    y: int,
    width: int,
    height: int,
    ascii: bool,
    p: spec_fn(char) -> bool,
)
    requires
        model_wf(c),
        all_cells(c, p),
        ({
            let (tl, tr, bl, br, h, v) = box_chars(ascii);
            p(tl) && p(tr) && p(bl) && p(br) && p(h) && p(v)
        }),
    ensures
        all_cells(draw_box_spec(c, x, y, width, height, ascii), p),
        same_shape(c, draw_box_spec(c, x, y, width, height, ascii)),
{
    if !(width < 2 || height < 2) {
        let (tl, tr, bl, br, h, v) = box_chars(ascii);
        let c1 = put(c, x, y, tl);
        let c2 = put(c1, x + width - 1, y, tr);
        let c3 = put(c2, x, y + height - 1, bl);
        let c4 = put(c3, x + width - 1, y + height - 1, br);
        let c5 = hline(c4, x + 1, y, width - 2, h);
        let c6 = hline(c5, x + 1, y + height - 1, width - 2, h);
        let c7 = vline(c6, x, y + 1, height - 2, v);
        lemma_put_keeps(c, x, y, tl, p);
        lemma_put_keeps(c1, x + width - 1, y, tr, p);
        lemma_put_keeps(c2, x, y + height - 1, bl, p);
        lemma_put_keeps(c3, x + width - 1, y + height - 1, br, p);
        lemma_hline_keeps(c4, x + 1, y, width - 2, h, p);
        lemma_hline_shape(c4, x + 1, y, width - 2, h);
        lemma_hline_keeps(c5, x + 1, y + height - 1, width - 2, h, p);
        lemma_hline_shape(c5, x + 1, y + height - 1, width - 2, h);
        lemma_vline_keeps(c6, x, y + 1, height - 2, v, p);
        lemma_vline_shape(c6, x, y + 1, height - 2, v);
        lemma_vline_keeps(c7, x + width - 1, y + 1, height - 2, v, p);
        lemma_vline_shape(c7, x + width - 1, y + 1, height - 2, v);
    }
}

impl Canvas {
    /// The rows match the size.
    pub open spec fn wf(&self) -> bool {
        model_wf(self@)
    }

    /// The number of columns.
    pub fn width(&self) -> (w: usize)
        ensures
            w == self@.width,
    {
        self.width
    }

    /// The number of rows.
    pub fn height(&self) -> (h: usize)
        ensures
            h == self@.height,
    {
        self.height
    }

    /// Creates a new canvas filled with spaces.
    pub fn new(width: usize, height: usize) -> (c: Self)
        ensures
            c.wf(),
            c@ == blank(width, height),
    {
        let mut cells: Vec<Vec<char>> = Vec::new();
        let mut y: usize = 0;
        while y < height
            invariant
                0 <= y <= height,
                cells@.len() == y,
                forall|k: int| 0 <= k < y ==> (#[trigger] cells@[k])@ == Seq::new(
                    width as nat,
                    |x: int| ' ',
                ),
            decreases height - y,
        {
            let mut row: Vec<char> = Vec::new();
            let mut x: usize = 0;
            while x < width
                invariant
                    0 <= x <= width,
                    row@ == Seq::new(x as nat, |i: int| ' '),
                decreases width - x,
            {
                row.push(' ');
                x = x + 1;
                proof {
                    assert(row@ =~= Seq::new(x as nat, |i: int| ' '));
                }
            }
            cells.push(row);
            y = y + 1;
        }
        let c = Canvas { cells, width, height };
        proof {
            assert(c@.rows =~= blank(width, height).rows);
        }
        c
    }

    /// Sets a character at (x, y). Out-of-bounds writes are silently ignored.
    pub fn set(&mut self, x: usize, y: usize, ch: char)
        requires
            old(self).wf(),
        ensures
            final(self).wf(),
            final(self)@ == put(old(self)@, x as int, y as int, ch),
    {
        if y < self.height && x < self.width {
            proof {
                assert(self.cells@.len() == self.height);
            }
            let ghost rows = self@.rows;
            proof {
                assert(self.cells@[y as int]@ == rows[y as int]);
            }
            self.cells[y][x] = ch;
            proof {
                assert(self@.rows =~= rows.update(y as int, rows[y as int].update(x as int, ch)));
            }
        }
    }

    /// Gets the character at (x, y).
    pub fn get(&self, x: usize, y: usize) -> (r: Option<char>)
        requires
            self.wf(),
        ensures
            r == (if y < self@.height && x < self@.width {
                Some(self@.rows[y as int][x as int])
            } else {
                None
            }),
    {
        if y < self.height && x < self.width {
            proof {
                assert(self.cells@[y as int]@ == self@.rows[y as int]);
            }
            Some(self.cells[y][x])
        } else {
            None
        }
    }

    /// Writes a string starting at (x, y), going right.
    pub fn write_str(&mut self, x: usize, y: usize, s: &str)
        requires
            old(self).wf(),
            run_fits(x as int, s@.len() as int),
        ensures
            final(self).wf(),
            final(self)@ == put_str(old(self)@, x as int, y as int, s@),
    {
        let cs = chars_of(s);
        self.write_chars(x, y, cs.as_slice());
    }

    /// Writes the chars of `s` starting at (x, y), going right.
    pub fn write_chars(&mut self, x: usize, y: usize, s: &[char])
        requires
            old(self).wf(),
            run_fits(x as int, s@.len() as int),
        ensures
            final(self).wf(),
            final(self)@ == put_str(old(self)@, x as int, y as int, s@),
    {
        let mut i: usize = 0;
        proof {
            assert(s@.take(0) =~= Seq::<char>::empty());
        }
        while i < s.len()
            invariant
                self.wf(),
                0 <= i <= s@.len(),
                run_fits(x as int, s@.len() as int),
                self@ == put_str(old(self)@, x as int, y as int, s@.take(i as int)),
                self@.width == old(self)@.width,
                self@.height == old(self)@.height,
            decreases s.len() - i,
        {
            proof {
                assert(s@.take(i + 1).drop_last() =~= s@.take(i as int));
            }
            self.set(x + i, y, s[i]);
            i = i + 1;
        }
        proof {
            assert(s@.take(i as int) =~= s@);
        }
    }

    /// Draws a horizontal line from (x, y) of the given length.
    pub fn hline(&mut self, x: usize, y: usize, len: usize, ch: char)
        requires
            old(self).wf(),
            run_fits(x as int, len as int),
        ensures
            final(self).wf(),
            final(self)@ == hline(old(self)@, x as int, y as int, len as int, ch),
    {
        let mut i: usize = 0;
        while i < len
            invariant
                self.wf(),
                0 <= i <= len,
                run_fits(x as int, len as int),
                self@ == hline(old(self)@, x as int, y as int, i as int, ch),
                self@.width == old(self)@.width,
                self@.height == old(self)@.height,
            decreases len - i,
        {
            self.set(x + i, y, ch);
            i = i + 1;
        }
    }

    /// Draws a vertical line from (x, y) of the given length.
    pub fn vline(&mut self, x: usize, y: usize, len: usize, ch: char)
        requires
            old(self).wf(),
            run_fits(y as int, len as int),
        ensures
            final(self).wf(),
            final(self)@ == vline(old(self)@, x as int, y as int, len as int, ch),
    {
        let mut i: usize = 0;
        while i < len
            invariant
                self.wf(),
                0 <= i <= len,
                run_fits(y as int, len as int),
                self@ == vline(old(self)@, x as int, y as int, i as int, ch),
                self@.width == old(self)@.width,
                self@.height == old(self)@.height,
            decreases len - i,
        {
            self.set(x, y + i, ch);
            i = i + 1;
        }
    }

    /// Draws a box with box-drawing characters (or `+`, `-`, `|` in ASCII).
    pub fn draw_box(&mut self, x: usize, y: usize, width: usize, height: usize, ascii: bool)
        requires
            old(self).wf(),
            width >= 2 && height >= 2 ==> x + width <= usize::MAX && y + height <= usize::MAX,
        ensures
            final(self).wf(),
            final(self)@ == draw_box_spec(
                old(self)@,
                x as int,
                y as int,
                width as int,
                height as int,
                ascii,
            ),
    {
        if width < 2 || height < 2 {
            return;
        }
        let (tl, tr, bl, br, h, v) = if ascii {
            ('+', '+', '+', '+', '-', '|')
        } else {
            ('\u{250C}', '\u{2510}', '\u{2514}', '\u{2518}', '\u{2500}', '\u{2502}')
        };
        // Corners
        self.set(x, y, tl);
        self.set(x + width - 1, y, tr);
        self.set(x, y + height - 1, bl);
        self.set(x + width - 1, y + height - 1, br);
        // Horizontal edges
        self.hline(x + 1, y, width - 2, h);
        self.hline(x + 1, y + height - 1, width - 2, h);
        // Vertical edges
        self.vline(x, y + 1, height - 2, v);
        self.vline(x + width - 1, y + 1, height - 2, v);
    }

    /// The canvas as text: each row without trailing whitespace, rows joined
    /// by newlines.
    pub fn to_string(&self) -> (s: String)
        requires
            self.wf(),
        ensures
            s@ == canvas_text(self@),
    {
        let ghost trimmed = self@.rows.map_values(|r: Seq<char>| trim_end(r));
        let mut out = String::new();
        let mut i: usize = 0;
        proof {
            assert(trimmed.take(0) =~= Seq::<Seq<char>>::empty());
        }
        while i < self.cells.len()
            invariant
                self.wf(),
                0 <= i <= self@.height,
                self.cells@.len() == self@.height,
                trimmed == self@.rows.map_values(|r: Seq<char>| trim_end(r)),
                out@ == join_lines(trimmed.take(i as int)),
            decreases self.cells.len() - i,
        {
            let row = trim_end_slice(self.cells[i].as_slice());
            proof {
                assert(self.cells@[i as int]@ == self@.rows[i as int]);
                assert(trimmed.take(i + 1).drop_last() =~= trimmed.take(i as int));
                if i == 0 {
                    assert(trimmed.take(1) =~= seq![trimmed[0]]);
                }
            }
            if i > 0 {
                push_char(&mut out, '\n');
            }
            push_chars(&mut out, row);
            proof {
                if i > 0 {
                    assert(join_lines(trimmed.take(i + 1)) =~= join_lines(trimmed.take(i as int))
                        + seq!['\n'] + trimmed[i as int]);
                }
            }
            i = i + 1;
        }
        proof {
            assert(trimmed.take(i as int) =~= trimmed);
        }
        out
    }
}

} // verus!
