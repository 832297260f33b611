//! Large "figlet-style" block text from an embedded 5-row font.
//!
//! Each character is a 5-row bitmap painted with a solid block glyph in the
//! theme accent (overridable). Letters are case-insensitive (lowercase maps to
//! the uppercase form); unknown characters are skipped.

use vstd::prelude::*;
use crate::buffer::CellView;
use crate::geometry::{Rect, Size, sat_add};
use crate::graphemes::chars_of;
use crate::style::{Color, Style};
use crate::surface::{Surface, set_cell};
use crate::view::RenderCtx;

verus! {

/// Every glyph in the bundled font is this many rows tall.
pub const FONT_HEIGHT: u16 = 5;

/// Blank columns between adjacent glyphs.
pub const LETTER_SPACING: u16 = 1;

/// ASCII lowercase letters folded to uppercase; everything else unchanged.
pub open spec fn ascii_upper(c: char) -> char {
    if 'a' <= c && c <= 'z' {
        ((c as u32) - 32) as char
    } else {
        c
    }
}

fn to_ascii_upper(c: char) -> (u: char)
    ensures
        u == ascii_upper(c),
{
    if 'a' <= c && c <= 'z' {
        let code: u8 = (c as u32 - 32) as u8;
        code as char
    } else {
        c
    }
}

/// Pixel width of the uppercase form's glyph; 0 when the font has none.
pub open spec fn upper_glyph_width(c: char) -> int {
    if c == '.' || c == '!' || c == ':' {
        1
    } else if c == ',' {
        2
    } else if c == ' ' || c == '-' || c == '+' || c == '=' {
        3
    } else if c == 'A' || c == 'B' || c == 'C' || c == 'D' || c == 'E' || c == 'F' || c == 'G' || c == 'H' || c == 'I' || c == 'J' || c == 'K' || c == 'L' || c == 'M' || c == 'N' || c == 'O' || c == 'P' || c == 'Q' || c == 'R' || c == 'S' || c == 'T' || c == 'U' || c == 'V' || c == 'W' || c == 'X' || c == 'Y' || c == 'Z' || c == '0' || c == '1' || c == '2' || c == '3' || c == '4' || c == '5' || c == '6' || c == '7' || c == '8' || c == '9' || c == '?' || c == '/' {
        5
    } else {
        0
    }
}

/// Pixel width of `ch`'s glyph (lowercase folds to uppercase); 0 when the
/// font has none.
pub open spec fn glyph_width(ch: char) -> int {
    upper_glyph_width(ascii_upper(ch))
}

/// The 5-row bitmap of an uppercase glyph (`#` = filled); empty when the
/// font has none.
pub open spec fn upper_bitmap(up: char) -> Seq<Seq<char>> {
    match up {
        ' ' => seq!["   "@, "   "@, "   "@, "   "@, "   "@],
        'A' => seq![" ### "@, "#   #"@, "#####"@, "#   #"@, "#   #"@],
        'B' => seq!["#### "@, "#   #"@, "#### "@, "#   #"@, "#### "@],
        'C' => seq![" ####"@, "#    "@, "#    "@, "#    "@, " ####"@],
        'D' => seq!["#### "@, "#   #"@, "#   #"@, "#   #"@, "#### "@],
        'E' => seq!["#####"@, "#    "@, "#### "@, "#    "@, "#####"@],
        'F' => seq!["#####"@, "#    "@, "#### "@, "#    "@, "#    "@],
        'G' => seq![" ####"@, "#    "@, "#  ##"@, "#   #"@, " ####"@],
        'H' => seq!["#   #"@, "#   #"@, "#####"@, "#   #"@, "#   #"@],
        'I' => seq!["#####"@, "  #  "@, "  #  "@, "  #  "@, "#####"@],
        'J' => seq!["  ###"@, "   # "@, "   # "@, "#  # "@, " ##  "@],
        'K' => seq!["#   #"@, "#  # "@, "###  "@, "#  # "@, "#   #"@],
        'L' => seq!["#    "@, "#    "@, "#    "@, "#    "@, "#####"@],
        'M' => seq!["#   #"@, "## ##"@, "# # #"@, "#   #"@, "#   #"@],
        'N' => seq!["#   #"@, "##  #"@, "# # #"@, "#  ##"@, "#   #"@],
        'O' => seq![" ### "@, "#   #"@, "#   #"@, "#   #"@, " ### "@],
        'P' => seq!["#### "@, "#   #"@, "#### "@, "#    "@, "#    "@],
        'Q' => seq![" ### "@, "#   #"@, "# # #"@, "#  # "@, " ## #"@],
        'R' => seq!["#### "@, "#   #"@, "#### "@, "#  # "@, "#   #"@],
        'S' => seq![" ####"@, "#    "@, " ### "@, "    #"@, "#### "@],
        'T' => seq!["#####"@, "  #  "@, "  #  "@, "  #  "@, "  #  "@],
        'U' => seq!["#   #"@, "#   #"@, "#   #"@, "#   #"@, " ### "@],
        'V' => seq!["#   #"@, "#   #"@, "#   #"@, " # # "@, "  #  "@],
        'W' => seq!["#   #"@, "#   #"@, "# # #"@, "## ##"@, "#   #"@],
        'X' => seq!["#   #"@, " # # "@, "  #  "@, " # # "@, "#   #"@],
        'Y' => seq!["#   #"@, " # # "@, "  #  "@, "  #  "@, "  #  "@],
        'Z' => seq!["#####"@, "   # "@, "  #  "@, " #   "@, "#####"@],
        '0' => seq![" ### "@, "#  ##"@, "# # #"@, "##  #"@, " ### "@],
        '1' => seq!["  #  "@, " ##  "@, "  #  "@, "  #  "@, "#####"@],
        '2' => seq![" ### "@, "#   #"@, "  ## "@, " #   "@, "#####"@],
        '3' => seq!["#### "@, "    #"@, " ### "@, "    #"@, "#### "@],
        '4' => seq!["#  # "@, "#  # "@, "#####"@, "   # "@, "   # "@],
        '5' => seq!["#####"@, "#    "@, "#### "@, "    #"@, "#### "@],
        '6' => seq![" ####"@, "#    "@, "#### "@, "#   #"@, " ### "@],
        '7' => seq!["#####"@, "   # "@, "  #  "@, " #   "@, " #   "@],
        '8' => seq![" ### "@, "#   #"@, " ### "@, "#   #"@, " ### "@],
        '9' => seq![" ### "@, "#   #"@, " ####"@, "    #"@, "#### "@],
        '.' => seq![" "@, " "@, " "@, " "@, "#"@],
        ',' => seq!["  "@, "  "@, "  "@, " #"@, "# "@],
        '!' => seq!["#"@, "#"@, "#"@, " "@, "#"@],
        '?' => seq![" ### "@, "#   #"@, "  ## "@, "     "@, "  #  "@],
        ':' => seq![" "@, "#"@, " "@, "#"@, " "@],
        '-' => seq!["   "@, "   "@, "###"@, "   "@, "   "@],
        '+' => seq!["   "@, " # "@, "###"@, " # "@, "   "@],
        '=' => seq!["   "@, "###"@, "   "@, "###"@, "   "@],
        '/' => seq!["    #"@, "   # "@, "  #  "@, " #   "@, "#    "@],
        _ => seq![],
    }
}

/// Whether the font draws the uppercase character `c`: the space, the
/// letters, the digits and `.`, `,`, `!`, `?`, `:`, `-`, `+`, `=`, `/`.
pub open spec fn in_font(c: char) -> bool {
    c == ' ' || ('A' <= c && c <= 'Z') || ('0' <= c && c <= '9') || c == '.' || c == ',' || c == '!' || c == '?'
        || c == ':' || c == '-' || c == '+' || c == '=' || c == '/'
}

/// Five rows, each `width` pixels of `#` or blank.
pub open spec fn bitmap_rows(rows: Seq<Seq<char>>, width: int) -> bool {
    &&& rows.len() == 5
    &&& forall|k: int| 0 <= k < 5 ==> (#[trigger] rows[k]).len() == width
    &&& forall|k: int, j: int| 0 <= k < 5 && 0 <= j < width ==> #[trigger] rows[k][j] == '#' || rows[k][j] == ' '
}

/// The font folds case: a character draws as its uppercase form, and
/// folding twice changes nothing. It has a glyph exactly for the characters
/// [`in_font`] names (after folding), and every glyph is five rows of one
/// nonzero width, made of `#` and blanks only.
pub proof fn lemma_glyph_table(ch: char)
    ensures
        ascii_upper(ascii_upper(ch)) == ascii_upper(ch),
        glyph_width(ch) > 0 <==> in_font(ascii_upper(ch)),
        glyph_width(ch) > 0 ==> bitmap_rows(upper_bitmap(ascii_upper(ch)), glyph_width(ch)),
        glyph_width(ch) == 0 ==> upper_bitmap(ascii_upper(ch)).len() == 0,
{
    reveal_strlit(" ");
    reveal_strlit("  ");
    reveal_strlit("   ");
    reveal_strlit("     ");
    reveal_strlit("    #");
    reveal_strlit("   # ");
    reveal_strlit("  #  ");
    reveal_strlit("  ## ");
    reveal_strlit("  ###");
    reveal_strlit(" #");
    reveal_strlit(" # ");
    reveal_strlit(" #   ");
    reveal_strlit(" # # ");
    reveal_strlit(" ##  ");
    reveal_strlit(" ## #");
    reveal_strlit(" ### ");
    reveal_strlit(" ####");
    reveal_strlit("#");
    reveal_strlit("# ");
    reveal_strlit("#    ");
    reveal_strlit("#   #");
    reveal_strlit("#  # ");
    reveal_strlit("#  ##");
    reveal_strlit("# # #");
    reveal_strlit("##  #");
    reveal_strlit("## ##");
    reveal_strlit("###");
    reveal_strlit("###  ");
    reveal_strlit("#### ");
    reveal_strlit("#####");
    let u = ascii_upper(ch);
    assert(ascii_upper(u) == u);
    if glyph_width(ch) > 0 {
        assert(bitmap_rows(upper_bitmap(u), upper_glyph_width(u)));
    }
}


/// The 5-row bitmap of an uppercase glyph (`#` = filled), or `None`.
fn upper_glyph(up: char) -> (r: Option<[&'static str; 5]>)
    ensures
        r is Some <==> upper_glyph_width(up) > 0,
        r matches Some(rows) ==> forall|k: int| 0 <= k < 5 ==> (#[trigger] rows@[k])@.len() == upper_glyph_width(up),
        r matches Some(rows) ==> forall|k: int| 0 <= k < 5 ==> (#[trigger] rows@[k])@ == upper_bitmap(up)[k],
{
    Some(match up {
        ' ' => {
            proof {
                reveal_strlit("   ");
            }
            ["   ", "   ", "   ", "   ", "   "]
        },
        'A' => {
            proof {
                reveal_strlit(" ### ");
                reveal_strlit("#   #");
                reveal_strlit("#####");
            }
            [" ### ", "#   #", "#####", "#   #", "#   #"]
        },
        'B' => {
            proof {
                reveal_strlit("#   #");
                reveal_strlit("#### ");
            }
            ["#### ", "#   #", "#### ", "#   #", "#### "]
        },
        'C' => {
            proof {
                reveal_strlit(" ####");
                reveal_strlit("#    ");
            }
            [" ####", "#    ", "#    ", "#    ", " ####"]
        },
        'D' => {
            proof {
                reveal_strlit("#   #");
                reveal_strlit("#### ");
            }
            ["#### ", "#   #", "#   #", "#   #", "#### "]
        },
        'E' => {
            proof {
                reveal_strlit("#    ");
                reveal_strlit("#### ");
                reveal_strlit("#####");
            }
            ["#####", "#    ", "#### ", "#    ", "#####"]
        },
        'F' => {
            proof {
                reveal_strlit("#    ");
                reveal_strlit("#### ");
                reveal_strlit("#####");
            }
            ["#####", "#    ", "#### ", "#    ", "#    "]
        },
        'G' => {
            proof {
                reveal_strlit(" ####");
                reveal_strlit("#    ");
                reveal_strlit("#   #");
                reveal_strlit("#  ##");
            }
            [" ####", "#    ", "#  ##", "#   #", " ####"]
        },
        'H' => {
            proof {
                reveal_strlit("#   #");
                reveal_strlit("#####");
            }
            ["#   #", "#   #", "#####", "#   #", "#   #"]
        },
        'I' => {
            proof {
                reveal_strlit("  #  ");
                reveal_strlit("#####");
            }
            ["#####", "  #  ", "  #  ", "  #  ", "#####"]
        },
        'J' => {
            proof {
                reveal_strlit("   # ");
                reveal_strlit("  ###");
                reveal_strlit(" ##  ");
                reveal_strlit("#  # ");
            }
            ["  ###", "   # ", "   # ", "#  # ", " ##  "]
        },
        'K' => {
            proof {
                reveal_strlit("#   #");
                reveal_strlit("#  # ");
                reveal_strlit("###  ");
            }
            ["#   #", "#  # ", "###  ", "#  # ", "#   #"]
        },
        'L' => {
            proof {
                reveal_strlit("#    ");
                reveal_strlit("#####");
            }
            ["#    ", "#    ", "#    ", "#    ", "#####"]
        },
        'M' => {
            proof {
                reveal_strlit("#   #");
                reveal_strlit("# # #");
                reveal_strlit("## ##");
            }
            ["#   #", "## ##", "# # #", "#   #", "#   #"]
        },
        'N' => {
            proof {
                reveal_strlit("#   #");
                reveal_strlit("#  ##");
                reveal_strlit("# # #");
                reveal_strlit("##  #");
            }
            ["#   #", "##  #", "# # #", "#  ##", "#   #"]
        },
        'O' => {
            proof {
                reveal_strlit(" ### ");
                reveal_strlit("#   #");
            }
            [" ### ", "#   #", "#   #", "#   #", " ### "]
        },
        'P' => {
            proof {
                reveal_strlit("#    ");
                reveal_strlit("#   #");
                reveal_strlit("#### ");
            }
            ["#### ", "#   #", "#### ", "#    ", "#    "]
        },
        'Q' => {
            proof {
                reveal_strlit(" ## #");
                reveal_strlit(" ### ");
                reveal_strlit("#   #");
                reveal_strlit("#  # ");
                reveal_strlit("# # #");
            }
            [" ### ", "#   #", "# # #", "#  # ", " ## #"]
        },
        'R' => {
            proof {
                reveal_strlit("#   #");
                reveal_strlit("#  # ");
                reveal_strlit("#### ");
            }
            ["#### ", "#   #", "#### ", "#  # ", "#   #"]
        },
        'S' => {
            proof {
                reveal_strlit("    #");
                reveal_strlit(" ### ");
                reveal_strlit(" ####");
                reveal_strlit("#    ");
                reveal_strlit("#### ");
            }
            [" ####", "#    ", " ### ", "    #", "#### "]
        },
        'T' => {
            proof {
                reveal_strlit("  #  ");
                reveal_strlit("#####");
            }
            ["#####", "  #  ", "  #  ", "  #  ", "  #  "]
        },
        'U' => {
            proof {
                reveal_strlit(" ### ");
                reveal_strlit("#   #");
            }
            ["#   #", "#   #", "#   #", "#   #", " ### "]
        },
        'V' => {
            proof {
                reveal_strlit("  #  ");
                reveal_strlit(" # # ");
                reveal_strlit("#   #");
            }
            ["#   #", "#   #", "#   #", " # # ", "  #  "]
        },
        'W' => {
            proof {
                reveal_strlit("#   #");
                reveal_strlit("# # #");
                reveal_strlit("## ##");
            }
            ["#   #", "#   #", "# # #", "## ##", "#   #"]
        },
        'X' => {
            proof {
                reveal_strlit("  #  ");
                reveal_strlit(" # # ");
                reveal_strlit("#   #");
            }
            ["#   #", " # # ", "  #  ", " # # ", "#   #"]
        },
        'Y' => {
            proof {
                reveal_strlit("  #  ");
                reveal_strlit(" # # ");
                reveal_strlit("#   #");
            }
            ["#   #", " # # ", "  #  ", "  #  ", "  #  "]
        },
        'Z' => {
            proof {
                reveal_strlit("   # ");
                reveal_strlit("  #  ");
                reveal_strlit(" #   ");
                reveal_strlit("#####");
            }
            ["#####", "   # ", "  #  ", " #   ", "#####"]
        },
        '0' => {
            proof {
                reveal_strlit(" ### ");
                reveal_strlit("#  ##");
                reveal_strlit("# # #");
                reveal_strlit("##  #");
            }
            [" ### ", "#  ##", "# # #", "##  #", " ### "]
        },
        '1' => {
            proof {
                reveal_strlit("  #  ");
                reveal_strlit(" ##  ");
                reveal_strlit("#####");
            }
            ["  #  ", " ##  ", "  #  ", "  #  ", "#####"]
        },
        '2' => {
            proof {
                reveal_strlit("  ## ");
                reveal_strlit(" #   ");
                reveal_strlit(" ### ");
                reveal_strlit("#   #");
                reveal_strlit("#####");
            }
            [" ### ", "#   #", "  ## ", " #   ", "#####"]
        },
        '3' => {
            proof {
                reveal_strlit("    #");
                reveal_strlit(" ### ");
                reveal_strlit("#### ");
            }
            ["#### ", "    #", " ### ", "    #", "#### "]
        },
        '4' => {
            proof {
                reveal_strlit("   # ");
                reveal_strlit("#  # ");
                reveal_strlit("#####");
            }
            ["#  # ", "#  # ", "#####", "   # ", "   # "]
        },
        '5' => {
            proof {
                reveal_strlit("    #");
                reveal_strlit("#    ");
                reveal_strlit("#### ");
                reveal_strlit("#####");
            }
            ["#####", "#    ", "#### ", "    #", "#### "]
        },
        '6' => {
            proof {
                reveal_strlit(" ### ");
                reveal_strlit(" ####");
                reveal_strlit("#    ");
                reveal_strlit("#   #");
                reveal_strlit("#### ");
            }
            [" ####", "#    ", "#### ", "#   #", " ### "]
        },
        '7' => {
            proof {
                reveal_strlit("   # ");
                reveal_strlit("  #  ");
                reveal_strlit(" #   ");
                reveal_strlit("#####");
            }
            ["#####", "   # ", "  #  ", " #   ", " #   "]
        },
        '8' => {
            proof {
                reveal_strlit(" ### ");
                reveal_strlit("#   #");
            }
            [" ### ", "#   #", " ### ", "#   #", " ### "]
        },
        '9' => {
            proof {
                reveal_strlit("    #");
                reveal_strlit(" ### ");
                reveal_strlit(" ####");
                reveal_strlit("#   #");
                reveal_strlit("#### ");
            }
            [" ### ", "#   #", " ####", "    #", "#### "]
        },
        '.' => {
            proof {
                reveal_strlit(" ");
                reveal_strlit("#");
            }
            [" ", " ", " ", " ", "#"]
        },
        ',' => {
            proof {
                reveal_strlit("  ");
                reveal_strlit(" #");
                reveal_strlit("# ");
            }
            ["  ", "  ", "  ", " #", "# "]
        },
        '!' => {
            proof {
                reveal_strlit(" ");
                reveal_strlit("#");
            }
            ["#", "#", "#", " ", "#"]
        },
        '?' => {
            proof {
                reveal_strlit("     ");
                reveal_strlit("  #  ");
                reveal_strlit("  ## ");
                reveal_strlit(" ### ");
                reveal_strlit("#   #");
            }
            [" ### ", "#   #", "  ## ", "     ", "  #  "]
        },
        ':' => {
            proof {
                reveal_strlit(" ");
                reveal_strlit("#");
            }
            [" ", "#", " ", "#", " "]
        },
        '-' => {
            proof {
                reveal_strlit("   ");
                reveal_strlit("###");
            }
            ["   ", "   ", "###", "   ", "   "]
        },
        '+' => {
            proof {
                reveal_strlit("   ");
                reveal_strlit(" # ");
                reveal_strlit("###");
            }
            ["   ", " # ", "###", " # ", "   "]
        },
        '=' => {
            proof {
                reveal_strlit("   ");
                reveal_strlit("###");
            }
            ["   ", "###", "   ", "###", "   "]
        },
        '/' => {
            proof {
                reveal_strlit("    #");
                reveal_strlit("   # ");
                reveal_strlit("  #  ");
                reveal_strlit(" #   ");
                reveal_strlit("#    ");
            }
            ["    #", "   # ", "  #  ", " #   ", "#    "]
        },
        _ => {
            return None;
        },
    })
}

/// The 5-row bitmap for `ch` (lowercase folded to uppercase), or `None`.
fn glyph(ch: char) -> (r: Option<[&'static str; 5]>)
    ensures
        r is Some <==> glyph_width(ch) > 0,
        r matches Some(rows) ==> forall|k: int| 0 <= k < 5 ==> (#[trigger] rows@[k])@.len() == glyph_width(ch),
        r matches Some(rows) ==> forall|k: int| 0 <= k < 5 ==> (#[trigger] rows@[k])@ == upper_bitmap(ascii_upper(ch))[k],
{
    upper_glyph(to_ascii_upper(ch))
}

/// Banner width of `cs` after `width` columns so far (`first` while no glyph
/// has been placed): glyph widths plus one spacing column between adjacent
/// glyphs, unknown characters skipped, saturating at `u16::MAX`.
pub open spec fn banner_width(cs: Seq<char>, width: int, first: bool) -> int
    decreases cs.len(),
{
    if cs.len() == 0 {
        width
    } else {
        let gw = glyph_width(cs[0]);
        if gw == 0 {
            banner_width(cs.drop_first(), width, first)
        } else {
            let spaced = if first { width } else { sat_add(width, 1) };
            banner_width(cs.drop_first(), sat_add(spaced, gw), false)
        }
    }
}

/// Big block-letter text rendered from the bundled font.
pub struct AsciiFont {
    pub text: String,
    pub color: Option<Color>,
    pub fill: char,
}

impl AsciiFont {
    /// A banner spelling `text`, filled with `█` in the theme accent.
    pub fn new(text: &str) -> (f: AsciiFont)
        ensures
            f.text@ == text@,
            f.color.is_none(),
            f.fill == '█',
    {
        AsciiFont { text: text.to_owned(), color: None, fill: '█' }
    }

    /// Override the glyph color.
    pub fn color(self, color: Color) -> (f: AsciiFont)
        ensures
            f.color == Some(color),
            f.text == self.text && f.fill == self.fill,
    {
        AsciiFont { color: Some(color), ..self }
    }

    /// Override the glyph painted for each set pixel.
    pub fn fill(self, fill: char) -> (f: AsciiFont)
        ensures
            f.fill == fill,
            f.text == self.text && f.color == self.color,
    {
        AsciiFont { fill, ..self }
    }

    /// Total pixel width: glyphs plus inter-letter spacing.
    pub fn total_width(&self) -> (w: u16)
        ensures
            w == banner_width(self.text@, 0, true),
    {
        let cs = chars_of(self.text.as_str());
        let mut width: u16 = 0;
        let mut first = true;
        let mut i: usize = 0;
        proof {
            assert(cs@.skip(0) =~= cs@);
        }
        while i < cs.len()
            invariant
                i <= cs@.len(),
                cs@ == self.text@,
                banner_width(cs@, 0, true) == banner_width(cs@.skip(i as int), width as int, first),
            decreases cs@.len() - i,
        {
            proof {
                assert(cs@.skip(i as int).drop_first() =~= cs@.skip(i + 1));
            }
            let gw = match glyph(cs[i]) {
                Some(rows) => {
                    proof {
                        assert(rows@[0]@.len() == glyph_width(cs@[i as int]));
                    }
                    chars_of(rows[0]).len() as u16
                },
                None => 0,
            };
            if gw != 0 {
                if !first {
                    width = width.saturating_add(LETTER_SPACING);
                }
                width = width.saturating_add(gw);
                first = false;
            }
            i = i + 1;
        }
        width
    }
}

/// One bitmap row drawn from column `x` of row `y`: each `#` from pixel `c`
/// on sets its cell to `fill` in `style`.
pub open spec fn glyph_row_cells(
    barea: Rect,
    cells: Seq<CellView>,
    clip: Rect,
    pixels: Seq<char>,
    x: int,
    y: int,
    fill: char,
    style: Style,
    c: int,
) -> Seq<CellView>
    decreases pixels.len() - c,
{
    if c < 0 || c >= pixels.len() {
        cells
    } else {
        let next = if pixels[c] == '#' && c < 65536 {
            set_cell(barea, cells, clip, sat_add(x, c), y, fill, style)
        } else {
            cells
        };
        glyph_row_cells(barea, next, clip, pixels, x, y, fill, style, c + 1)
    }
}

/// A glyph's bitmap rows from `r` on drawn at column `x`, row `r` on the
/// area's row `r`, stopping at the area's bottom.
pub open spec fn glyph_cells(
    barea: Rect,
    cells: Seq<CellView>,
    clip: Rect,
    area: Rect,
    rows: Seq<Seq<char>>,
    x: int,
    fill: char,
    style: Style,
    r: int,
) -> Seq<CellView>
    decreases 5 - r,
{
    if r < 0 || r >= 5 {
        cells
    } else {
        let y = sat_add(area.y as int, r);
        if y >= area.spec_bottom() {
            cells
        } else {
            let c = glyph_row_cells(barea, cells, clip, rows[r], x, y, fill, style, 0);
            glyph_cells(barea, c, clip, area, rows, x, fill, style, r + 1)
        }
    }
}

/// The banner from character `i` on, the next glyph at column `x`: each
/// character the font has is drawn and followed by one spacing column;
/// others are skipped; drawing stops once a glyph ends at or past the
/// area's right edge.
pub open spec fn banner_cells(
    barea: Rect,
    cells: Seq<CellView>,
    clip: Rect,
    area: Rect,
    cs: Seq<char>,
    fill: char,
    style: Style,
    x: int,
    i: int,
) -> Seq<CellView>
    decreases cs.len() - i,
{
    if i < 0 || i >= cs.len() {
        cells
    } else if glyph_width(cs[i]) == 0 {
        banner_cells(barea, cells, clip, area, cs, fill, style, x, i + 1)
    } else {
        let c = glyph_cells(barea, cells, clip, area, upper_bitmap(ascii_upper(cs[i])), x, fill, style, 0);
        let gw = if glyph_width(cs[i]) < 65536 { glyph_width(cs[i]) } else { 65535 };
        let x2 = sat_add(sat_add(x, gw), 1);
        if x2 >= area.spec_right() {
            c
        } else {
            banner_cells(barea, c, clip, area, cs, fill, style, x2, i + 1)
        }
    }
}

impl crate::view::View for AsciiFont {
    /// The banner width and the font height, within `available`; no height
    /// for empty text.
    fn measure(&self, available: Size, ctx: &RenderCtx) -> (s: Size)
        ensures
            s.width == crate::geometry::min(banner_width(self.text@, 0, true), available.width as int),
            s.height == if self.text@.len() == 0 {
                0
            } else {
                crate::geometry::min(5, available.height as int)
            },
    {
        let total = self.total_width();
        let width = if total < available.width { total } else { available.width };
        let height = if self.text.as_str().is_empty() {
            0
        } else if FONT_HEIGHT < available.height {
            FONT_HEIGHT
        } else {
            available.height
        };
        Size::new(width, height)
    }

    fn render(&self, area: Rect, surface: &mut Surface, ctx: &RenderCtx)
        ensures
            final(surface).buffer.cells() == if area.width == 0 || area.height == 0 {
                old(surface).buffer.cells()
            } else {
                banner_cells(
                    old(surface).buffer.area,
                    old(surface).buffer.cells(),
                    old(surface).clip,
                    area,
                    self.text@,
                    self.fill,
                    Style {
                        fg: Some(
                            match self.color {
                                Some(c) => c,
                                None => ctx.theme.accent,
                            },
                        ),
                        ..Style::spec_empty()
                    },
                    area.x as int,
                    0,
                )
            },
    {
        if area.is_empty() {
            return;
        }
        let color = match self.color {
            Some(c) => c,
            None => ctx.theme.accent,
        };
        let style = Style::new().fg(color);
        let cs = chars_of(self.text.as_str());
        let ghost target = banner_cells(
            surface.buffer.area,
            surface.buffer.cells(),
            surface.clip,
            area,
            cs@,
            self.fill,
            style,
            area.x as int,
            0,
        );
        let mut x = area.x;
        let mut i: usize = 0;
        while i < cs.len()
            invariant_except_break
                surface.wf(),
                surface.buffer.area == old(surface).buffer.area,
                surface.clip == old(surface).clip,
                i <= cs@.len(),
                banner_cells(
                    surface.buffer.area,
                    surface.buffer.cells(),
                    surface.clip,
                    area,
                    cs@,
                    self.fill,
                    style,
                    x as int,
                    i as int,
                ) == target,
            ensures
                surface.wf(),
                surface.buffer.area == old(surface).buffer.area,
                surface.clip == old(surface).clip,
                surface.buffer.cells() == target,
            decreases cs@.len() - i,
        {
            let rows = match glyph(cs[i]) {
                Some(rows) => rows,
                None => {
                    i = i + 1;
                    continue;
                },
            };
            let ghost bitmap = upper_bitmap(ascii_upper(cs@[i as int]));
            let ghost g_end = glyph_cells(
                surface.buffer.area,
                surface.buffer.cells(),
                surface.clip,
                area,
                bitmap,
                x as int,
                self.fill,
                style,
                0,
            );
            let mut r: usize = 0;
            while r < 5
                invariant_except_break
                    surface.wf(),
                    surface.buffer.area == old(surface).buffer.area,
                    surface.clip == old(surface).clip,
                    r <= 5,
                    forall|k: int| 0 <= k < 5 ==> (#[trigger] rows@[k])@ == bitmap[k],
                    glyph_cells(
                        surface.buffer.area,
                        surface.buffer.cells(),
                        surface.clip,
                        area,
                        bitmap,
                        x as int,
                        self.fill,
                        style,
                        r as int,
                    ) == g_end,
                ensures
                    surface.wf(),
                    surface.buffer.area == old(surface).buffer.area,
                    surface.clip == old(surface).clip,
                    surface.buffer.cells() == g_end,
                decreases 5 - r,
            {
                let y = area.y.saturating_add(r as u16);
                if y >= area.bottom() {
                    break;
                }
                let pixels = chars_of(rows[r]);
                let ghost row_end = glyph_row_cells(
                    surface.buffer.area,
                    surface.buffer.cells(),
                    surface.clip,
                    pixels@,
                    x as int,
                    y as int,
                    self.fill,
                    style,
                    0,
                );
                proof {
                    assert(pixels@ == bitmap[r as int]);
                }
                let mut c: usize = 0;
                while c < pixels.len()
                    invariant
                        surface.wf(),
                        surface.buffer.area == old(surface).buffer.area,
                        surface.clip == old(surface).clip,
                        c <= pixels@.len(),
                        glyph_row_cells(
                            surface.buffer.area,
                            surface.buffer.cells(),
                            surface.clip,
                            pixels@,
                            x as int,
                            y as int,
                            self.fill,
                            style,
                            c as int,
                        ) == row_end,
                    decreases pixels@.len() - c,
                {
                    if pixels[c] == '#' && c < 65536 {
                        surface.set(x.saturating_add(c as u16), y, self.fill, style);
                    }
                    c = c + 1;
                }
                r = r + 1;
            }
            let gw: u16 = if rows[0].unicode_len() < 65536 { chars_of(rows[0]).len() as u16 } else { u16::MAX };
            x = x.saturating_add(gw).saturating_add(LETTER_SPACING);
            if x >= area.right() {
                break;
            }
            i = i + 1;
        }
    }
}

} // verus!
