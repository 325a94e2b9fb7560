//! The frame-rate display: a tiny bitmap font and a bar.

use vstd::prelude::*;
use crate::framebuffer::{in_rect, Framebuffer};

verus! {

/// The colour of the frame-rate display.
pub const HUD_COLOR: u32 = 0xFFFFFF;

/// The distance between the left edges of two neighbouring characters.
pub const GLYPH_ADVANCE: usize = 6;

/// The 5 by 7 bitmap of a character, top row first, if the font has the character.
pub open spec fn glyph(c: char) -> Option<[[u8; 5]; 7]> {
    if c == 'F' {
        Some(
            [
                [1, 1, 1, 1, 1],
                [1, 0, 0, 0, 0],
                [1, 1, 1, 1, 0],
                [1, 0, 0, 0, 0],
                [1, 0, 0, 0, 0],
                [1, 0, 0, 0, 0],
                [1, 0, 0, 0, 0],
            ],
        )
    } else if c == 'P' {
        Some(
            [
                [1, 1, 1, 1, 0],
                [1, 0, 0, 0, 1],
                [1, 1, 1, 1, 0],
                [1, 0, 0, 0, 0],
                [1, 0, 0, 0, 0],
                [1, 0, 0, 0, 0],
                [1, 0, 0, 0, 0],
            ],
        )
    } else if c == 'S' {
        Some(
            [
                [1, 1, 1, 1, 1],
                [1, 0, 0, 0, 0],
                [1, 1, 1, 1, 1],
                [0, 0, 0, 0, 1],
                [1, 1, 1, 1, 1],
                [0, 0, 0, 0, 1],
                [1, 1, 1, 1, 1],
            ],
        )
    } else if c == '0' {
        Some(
            [
                [1, 1, 1, 1, 1],
                [1, 0, 0, 0, 1],
                [1, 0, 0, 0, 1],
                [1, 0, 0, 0, 1],
                [1, 1, 1, 1, 1],
                [1, 0, 0, 0, 1],
                [1, 1, 1, 1, 1],
            ],
        )
    } else {
        None
    }
}

/// Looks a character up in the font.
pub fn glyph_of(c: char) -> (g: Option<[[u8; 5]; 7]>)
    ensures
        g == glyph(c),
{
    if c == 'F' {
        Some(
            [
                [1, 1, 1, 1, 1],
                [1, 0, 0, 0, 0],
                [1, 1, 1, 1, 0],
                [1, 0, 0, 0, 0],
                [1, 0, 0, 0, 0],
                [1, 0, 0, 0, 0],
                [1, 0, 0, 0, 0],
            ],
        )
    } else if c == 'P' {
        Some(
            [
                [1, 1, 1, 1, 0],
                [1, 0, 0, 0, 1],
                [1, 1, 1, 1, 0],
                [1, 0, 0, 0, 0],
                [1, 0, 0, 0, 0],
                [1, 0, 0, 0, 0],
                [1, 0, 0, 0, 0],
            ],
        )
    } else if c == 'S' {
        Some(
            [
                [1, 1, 1, 1, 1],
                [1, 0, 0, 0, 0],
                [1, 1, 1, 1, 1],
                [0, 0, 0, 0, 1],
                [1, 1, 1, 1, 1],
                [0, 0, 0, 0, 1],
                [1, 1, 1, 1, 1],
            ],
        )
    } else if c == '0' {
        Some(
            [
                [1, 1, 1, 1, 1],
                [1, 0, 0, 0, 1],
                [1, 0, 0, 0, 1],
                [1, 0, 0, 0, 1],
                [1, 1, 1, 1, 1],
                [1, 0, 0, 0, 1],
                [1, 1, 1, 1, 1],
            ],
        )
    } else {
        None
    }
}

/// Whether the bitmap `matrix`, placed with its top left corner at `(x0, y0)`, has a set
/// pixel at `(x, y)`.
pub open spec fn glyph_covers(matrix: [[u8; 5]; 7], x0: int, y0: int, x: int, y: int) -> bool {
    0 <= x - x0 < 5 && 0 <= y - y0 < 7 && matrix[y - y0][x - x0] == 1
}

/// How many characters of `text` the font has.
pub open spec fn known_count(text: Seq<char>) -> nat
    decreases text.len(),
{
    if text.len() == 0 {
        0
    } else if glyph(text.last()) is Some {
        known_count(text.drop_last()) + 1
    } else {
        known_count(text.drop_last())
    }
}

/// Whether `text`, written from `(x0, y0)` to the right, has a set pixel at `(x, y)`.
/// Characters that the font lacks take no room.
pub open spec fn text_covers(text: Seq<char>, x0: int, y0: int, x: int, y: int) -> bool
    decreases text.len(),
{
    if text.len() == 0 {
        false
    } else {
        let before = text.drop_last();
        text_covers(before, x0, y0, x, y) || match glyph(text.last()) {
            Some(matrix) => glyph_covers(matrix, x0 + GLYPH_ADVANCE * known_count(before), y0, x, y),
            None => false,
        }
    }
}

/// The length in pixels of the bar that shows `fps` frames per second: two pixels per
/// frame, sixty at most.
pub open spec fn fps_bar_length(fps: int) -> int {
    if fps * 60 / 30 <= 60 {
        fps * 60 / 30
    } else {
        60
    }
}

/// Whether `(x, y)` belongs to the bar that shows `fps` on a canvas `width` wide.
pub open spec fn fps_bar_covers(width: int, fps: int, x: int, y: int) -> bool {
    in_rect(width - 120, 30, fps_bar_length(fps), 5, x, y)
}

/// Whether `(x, y)` belongs to the label "FPS" on a canvas `width` wide.
pub open spec fn fps_label_covers(width: int, x: int, y: int) -> bool {
    text_covers(seq!['F', 'P', 'S'], width - 60, 10, x, y)
}

/// The font knows at most every character.
pub proof fn lemma_known_count_bound(text: Seq<char>)
    ensures
        known_count(text) <= text.len(),
    decreases text.len(),
{
    if text.len() > 0 {
        lemma_known_count_bound(text.drop_last());
    }
}

/// Paints the set pixels of `char_matrix` in `color`, with the top left corner of the
/// bitmap at `(x, y)`, and leaves `color` as the pen colour.
pub fn draw_char(framebuffer: &mut Framebuffer, x: usize, y: usize, char_matrix: &[[u8; 5]; 7], color: u32)
    requires
        x + 5 <= usize::MAX,
        y + 7 <= usize::MAX,
    ensures
        final(framebuffer)@.wf(),
        final(framebuffer)@.width == old(framebuffer)@.width,
        final(framebuffer)@.height == old(framebuffer)@.height,
        final(framebuffer)@.background == old(framebuffer)@.background,
        final(framebuffer)@.current == color,
        forall|px: int, py: int|
            old(framebuffer)@.contains(px, py) ==> #[trigger] final(framebuffer)@.pixel(px, py)
                == if glyph_covers(*char_matrix, x as int, y as int, px, py) {
                color
            } else {
                old(framebuffer)@.pixel(px, py)
            },
{
    framebuffer.set_current_color(color);
    proof {
        use_type_invariant(&*framebuffer);
    }
    for i in 0..7usize
        invariant
            x + 5 <= usize::MAX,
            y + 7 <= usize::MAX,
            framebuffer@.wf(),
            framebuffer@.width == old(framebuffer)@.width,
            framebuffer@.height == old(framebuffer)@.height,
            framebuffer@.background == old(framebuffer)@.background,
            framebuffer@.current == color,
            forall|px: int, py: int|
                old(framebuffer)@.contains(px, py) ==> #[trigger] framebuffer@.pixel(px, py) == if py
                    - y < i && glyph_covers(*char_matrix, x as int, y as int, px, py) {
                    color
                } else {
                    old(framebuffer)@.pixel(px, py)
                },
    {
        for j in 0..5usize
            invariant
                i < 7,
                x + 5 <= usize::MAX,
                y + 7 <= usize::MAX,
                framebuffer@.wf(),
                framebuffer@.width == old(framebuffer)@.width,
                framebuffer@.height == old(framebuffer)@.height,
                framebuffer@.background == old(framebuffer)@.background,
                framebuffer@.current == color,
                forall|px: int, py: int|
                    old(framebuffer)@.contains(px, py) ==> #[trigger] framebuffer@.pixel(px, py)
                        == if (py - y < i || (py - y == i && px - x < j)) && glyph_covers(
                        *char_matrix,
                        x as int,
                        y as int,
                        px,
                        py,
                    ) {
                        color
                    } else {
                        old(framebuffer)@.pixel(px, py)
                    },
        {
            if char_matrix[i][j] == 1 {
                framebuffer.point(x + j, y + i);
            }
        }
    }
}

/// Paints a horizontal bar whose length grows with `fps`, in the display colour, near the
/// top right corner.
pub fn draw_fps_bar(framebuffer: &mut Framebuffer, fps: usize)
    requires
        old(framebuffer)@.width >= 120,
    ensures
        final(framebuffer)@.wf(),
        final(framebuffer)@.width == old(framebuffer)@.width,
        final(framebuffer)@.height == old(framebuffer)@.height,
        final(framebuffer)@.background == old(framebuffer)@.background,
        final(framebuffer)@.current == HUD_COLOR,
        forall|px: int, py: int|
            old(framebuffer)@.contains(px, py) ==> #[trigger] final(framebuffer)@.pixel(px, py)
                == if fps_bar_covers(old(framebuffer)@.width, fps as int, px, py) {
                HUD_COLOR
            } else {
                old(framebuffer)@.pixel(px, py)
            },
{
    let bar_length: usize = if fps >= 30 {
        60
    } else {
        fps * 60 / 30
    };
    let x = framebuffer.width() - 120;
    let y: usize = 30;
    framebuffer.set_current_color(HUD_COLOR);
    framebuffer.fill_rect(x, y, bar_length, 5);
}

/// Writes `text` in `color` from `(x, y)` to the right, one character every
/// `GLYPH_ADVANCE` pixels. Characters that the font lacks are skipped and take no room.
/// The pen colour becomes `color` if anything was written.
pub fn draw_text(framebuffer: &mut Framebuffer, x: usize, y: usize, text: &str, color: u32)
    requires
        x + GLYPH_ADVANCE * text@.len() <= usize::MAX,
        y + 7 <= usize::MAX,
    ensures
        final(framebuffer)@.wf(),
        final(framebuffer)@.width == old(framebuffer)@.width,
        final(framebuffer)@.height == old(framebuffer)@.height,
        final(framebuffer)@.background == old(framebuffer)@.background,
        final(framebuffer)@.current == if known_count(text@) > 0 {
            color
        } else {
            old(framebuffer)@.current
        },
        forall|px: int, py: int|
            old(framebuffer)@.contains(px, py) ==> #[trigger] final(framebuffer)@.pixel(px, py)
                == if text_covers(text@, x as int, y as int, px, py) {
                color
            } else {
                old(framebuffer)@.pixel(px, py)
            },
{
    proof {
        use_type_invariant(&*framebuffer);
    }
    let mut offset: usize = 0;
    for c in it: text.chars()
        invariant
            it.seq() == text@,
            x + GLYPH_ADVANCE * text@.len() <= usize::MAX,
            y + 7 <= usize::MAX,
            offset == GLYPH_ADVANCE * known_count(text@.take(it.index() as int)),
            framebuffer@.wf(),
            framebuffer@.width == old(framebuffer)@.width,
            framebuffer@.height == old(framebuffer)@.height,
            framebuffer@.background == old(framebuffer)@.background,
            framebuffer@.current == if known_count(text@.take(it.index() as int)) > 0 {
                color
            } else {
                old(framebuffer)@.current
            },
            forall|px: int, py: int|
                old(framebuffer)@.contains(px, py) ==> #[trigger] framebuffer@.pixel(px, py)
                    == if text_covers(text@.take(it.index() as int), x as int, y as int, px, py) {
                    color
                } else {
                    old(framebuffer)@.pixel(px, py)
                },
    {
        let ghost done = text@.take(it.index() as int);
        let ghost next = text@.take(it.index() + 1);
        proof {
            assert(next.drop_last() =~= done);
            assert(next.last() == c);
            lemma_known_count_bound(done);
            assert(GLYPH_ADVANCE * known_count(done) + GLYPH_ADVANCE <= GLYPH_ADVANCE * text@.len())
                by (nonlinear_arith)
                requires
                    known_count(done) + 1 <= text@.len(),
            ;
        }
        match glyph_of(c) {
            Some(matrix) => {
                draw_char(framebuffer, x + offset, y, &matrix, color);
                offset += GLYPH_ADVANCE;
            },
            None => {},
        }
    }
    proof {
        assert(text@.take(text@.len() as int) =~= text@);
    }
}

/// Writes the label "FPS" and, under it, the bar for `fps`, near the top right corner.
pub fn draw_fps(framebuffer: &mut Framebuffer, fps: usize)
    requires
        old(framebuffer)@.width >= 120,
    ensures
        final(framebuffer)@.wf(),
        final(framebuffer)@.width == old(framebuffer)@.width,
        final(framebuffer)@.height == old(framebuffer)@.height,
        final(framebuffer)@.background == old(framebuffer)@.background,
        final(framebuffer)@.current == HUD_COLOR,
        forall|px: int, py: int|
            old(framebuffer)@.contains(px, py) ==> #[trigger] final(framebuffer)@.pixel(px, py)
                == if fps_bar_covers(old(framebuffer)@.width, fps as int, px, py)
                || fps_label_covers(old(framebuffer)@.width, px, py) {
                HUD_COLOR
            } else {
                old(framebuffer)@.pixel(px, py)
            },
{
    let x = framebuffer.width() - 60;
    let y: usize = 10;
    proof {
        reveal_strlit("FPS");
        assert("FPS"@ =~= seq!['F', 'P', 'S']);
    }
    draw_text(framebuffer, x, y, "FPS", HUD_COLOR);
    draw_fps_bar(framebuffer, fps);
}

} // verus!
