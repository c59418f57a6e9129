//! The foreground colours rhyme groups are painted in, per theme.

use vstd::prelude::*;
use crate::setting::Theme;

verus! {

/// How many colours the rhyme palette cycles through; past that many
/// groups the colours repeat.
pub const RHYME_COLOURS: usize = 24;

/// The palette for the dark theme: pastel hues for the dark editor
/// background, evenly spaced round the colour wheel.
pub open spec fn dark_palette() -> Seq<Seq<char>> {
    seq![
        "#d57b7b"@, "#d5927b"@, "#d5a87b"@, "#d5bf7b"@,
        "#d5d57b"@, "#bfd57b"@, "#a8d57b"@, "#92d57b"@,
        "#7bd57b"@, "#7bd592"@, "#7bd5a8"@, "#7bd5bf"@,
        "#7bd5d5"@, "#7bbfd5"@, "#7ba8d5"@, "#7b92d5"@,
        "#7b7bd5"@, "#927bd5"@, "#a87bd5"@, "#bf7bd5"@,
        "#d57bd5"@, "#d57bbf"@, "#d57ba8"@, "#d57b92"@,
    ]
}

/// The palette for the light theme: deeper, more saturated hues for the
/// white editor background.
pub open spec fn light_palette() -> Seq<Seq<char>> {
    seq![
        "#a32929"@, "#a34729"@, "#a36629"@, "#a38529"@,
        "#a3a329"@, "#85a329"@, "#66a329"@, "#47a329"@,
        "#29a329"@, "#29a347"@, "#29a366"@, "#29a385"@,
        "#29a3a3"@, "#2985a3"@, "#2966a3"@, "#2947a3"@,
        "#2929a3"@, "#4729a3"@, "#6629a3"@, "#8529a3"@,
        "#a329a3"@, "#a32985"@, "#a32966"@, "#a32947"@,
    ]
}

/// The rhyme-group foreground colours for `theme`, as `#rrggbb`.
pub fn rhyme_palette(theme: Theme) -> (r: Vec<&'static str>)
    ensures
        r@.len() == RHYME_COLOURS,
        r@.map_values(|s: &'static str| s@) == if theme == Theme::Dark {
            dark_palette()
        } else {
            light_palette()
        },
{
    let mut out: Vec<&'static str> = Vec::new();
    match theme {
        Theme::Dark => {
            out.push("#d57b7b");
            out.push("#d5927b");
            out.push("#d5a87b");
            out.push("#d5bf7b");
            out.push("#d5d57b");
            out.push("#bfd57b");
            out.push("#a8d57b");
            out.push("#92d57b");
            out.push("#7bd57b");
            out.push("#7bd592");
            out.push("#7bd5a8");
            out.push("#7bd5bf");
            out.push("#7bd5d5");
            out.push("#7bbfd5");
            out.push("#7ba8d5");
            out.push("#7b92d5");
            out.push("#7b7bd5");
            out.push("#927bd5");
            out.push("#a87bd5");
            out.push("#bf7bd5");
            out.push("#d57bd5");
            out.push("#d57bbf");
            out.push("#d57ba8");
            out.push("#d57b92");
        },
        Theme::Light => {
            out.push("#a32929");
            out.push("#a34729");
            out.push("#a36629");
            out.push("#a38529");
            out.push("#a3a329");
            out.push("#85a329");
            out.push("#66a329");
            out.push("#47a329");
            out.push("#29a329");
            out.push("#29a347");
            out.push("#29a366");
            out.push("#29a385");
            out.push("#29a3a3");
            out.push("#2985a3");
            out.push("#2966a3");
            out.push("#2947a3");
            out.push("#2929a3");
            out.push("#4729a3");
            out.push("#6629a3");
            out.push("#8529a3");
            out.push("#a329a3");
            out.push("#a32985");
            out.push("#a32966");
            out.push("#a32947");
        },
    }
    assert(out@.map_values(|s: &'static str| s@) =~= if theme == Theme::Dark {
        dark_palette()
    } else {
        light_palette()
    });
    out
}

/// The foreground the other rhyme groups take while one is hovered: a
/// low-contrast grey that still reads.
pub fn dim_grey(theme: Theme) -> (r: &'static str)
    ensures
        r@ == (if theme == Theme::Dark {
            "#5c5c5c"@
        } else {
            "#b0b0b0"@
        }),
{
    match theme {
        Theme::Dark => "#5c5c5c",
        Theme::Light => "#b0b0b0",
    }
}

} // verus!
