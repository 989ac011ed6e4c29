//! The colours of a chart.

use vstd::prelude::*;

verus! {

/// A colour by its red, green and blue parts.
#[derive(Clone, Copy, Debug, PartialEq, Eq)]
pub struct Rgb {
    pub red: u8,
    pub green: u8,
    pub blue: u8,
}

/// How many colours the lines of a comparison chart cycle through.
pub const NUM_COLORS: usize = 8;

/// How opaque the fill of a violin is, in hundredths.
pub const VIOLIN_OPACITY_PERCENT: u8 = 25;

/// The colours of the lines, in the order in which they are given out.
pub open spec fn palette() -> Seq<Rgb> {
    seq![
        Rgb { red: 178, green: 34, blue: 34 },
        Rgb { red: 46, green: 139, blue: 87 },
        Rgb { red: 0, green: 139, blue: 139 },
        Rgb { red: 255, green: 215, blue: 0 },
        Rgb { red: 0, green: 0, blue: 139 },
        Rgb { red: 220, green: 20, blue: 60 },
        Rgb { red: 139, green: 0, blue: 139 },
        Rgb { red: 0, green: 255, blue: 127 },
    ]
}

/// The colour of the line with the given number.
pub open spec fn color_of(series: int) -> Rgb {
    palette()[series % 8]
}

/// The colour of the line with the given number: the palette is gone through in order
/// and begun again after its last colour.
pub fn comparison_color(series: usize) -> (color: Rgb)
    ensures
        color == color_of(series as int),
{
    let slot: usize = series % NUM_COLORS;
    if slot == 0 {
        Rgb { red: 178, green: 34, blue: 34 }
    } else if slot == 1 {
        Rgb { red: 46, green: 139, blue: 87 }
    } else if slot == 2 {
        Rgb { red: 0, green: 139, blue: 139 }
    } else if slot == 3 {
        Rgb { red: 255, green: 215, blue: 0 }
    } else if slot == 4 {
        Rgb { red: 0, green: 0, blue: 139 }
    } else if slot == 5 {
        Rgb { red: 220, green: 20, blue: 60 }
    } else if slot == 6 {
        Rgb { red: 139, green: 0, blue: 139 }
    } else {
        Rgb { red: 0, green: 255, blue: 127 }
    }
}

/// The one colour that every violin is filled with.
pub fn violin_fill() -> (color: Rgb)
    ensures
        color == (Rgb { red: 31, green: 120, blue: 180 }),
{
    Rgb { red: 31, green: 120, blue: 180 }
}

/// The palette holds eight colours, no two of them alike.
pub proof fn lemma_palette_distinct()
    ensures
        palette().len() == NUM_COLORS,
        forall|i: int, j: int| 0 <= i < j < 8 ==> palette()[i] != palette()[j],
{
}

/// A line is coloured by its number modulo eight, so the ninth line looks like the first.
pub proof fn lemma_colors_cycle(series: int)
    requires
        0 <= series,
    ensures
        color_of(series) == palette()[series % 8],
        color_of(series + 8) == color_of(series),
{
}

} // verus!
