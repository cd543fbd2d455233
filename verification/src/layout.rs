//! How the pixels of a file are laid out: all three colors for each pixel, or one color for each
//! pixel as a color filter array would let it through.
use crate::error::DngError;
use crate::text::{
    is_text, is_white_space, law_name_ignores_case, law_name_ignores_space, lowercase, normalize,
    normalized,
};
use vstd::prelude::*;

verus! {

/// The colors of an X-Trans filter, row by row: 0 is red, 1 is green, 2 is blue.
pub const XTRANS_PATTERN: [[u8; 6]; 6] = [
    [1, 2, 0, 1, 0, 2],
    [0, 1, 1, 2, 1, 1],
    [2, 1, 1, 0, 1, 1],
    [1, 0, 2, 1, 2, 0],
    [2, 1, 1, 0, 1, 1],
    [0, 1, 1, 2, 1, 1],
];

/// A layout of pixels.
#[derive(Clone, Debug)]
pub enum DngLayout {
    /// Three samples for each pixel.
    Linear,
    /// One sample for each pixel, in a pattern of two rows and two columns.
    Bayer {
        name: &'static str,
        /// The colors of the pattern, row by row: 0 is red, 1 is green, 2 is blue.
        pattern: [u8; 4],
    },
    /// One sample for each pixel, in the pattern of an X-Trans filter.
    XTrans,
}

/// What a layout says, with its name as characters and its pattern as a sequence.
#[verifier::ext_equal]
pub enum LayoutView {
    Linear,
    Bayer { name: Seq<char>, pattern: Seq<u8> },
    XTrans,
}

impl View for DngLayout {
    type V = LayoutView;

    open spec fn view(&self) -> LayoutView {
        match self {
            DngLayout::Linear => LayoutView::Linear,
            DngLayout::Bayer { name, pattern } => LayoutView::Bayer {
                name: name@,
                pattern: pattern@,
            },
            DngLayout::XTrans => LayoutView::XTrans,
        }
    }
}

/// The layout with the given name, for a name in lower case and without white space around it.
pub open spec fn named_layout(name: Seq<char>) -> Option<LayoutView> {
    if name == ""@ || name == "linear"@ {
        Some(LayoutView::Linear)
    } else if name == "rggb"@ {
        Some(LayoutView::Bayer { name: "RGGB"@, pattern: seq![0u8, 1u8, 1u8, 2u8] })
    } else if name == "bggr"@ {
        Some(LayoutView::Bayer { name: "BGGR"@, pattern: seq![2u8, 1u8, 1u8, 0u8] })
    } else if name == "grbg"@ {
        Some(LayoutView::Bayer { name: "GRBG"@, pattern: seq![1u8, 0u8, 2u8, 1u8] })
    } else if name == "gbrg"@ {
        Some(LayoutView::Bayer { name: "GBRG"@, pattern: seq![1u8, 2u8, 0u8, 1u8] })
    } else if name == "xtrans"@ || name == "x-trans"@ {
        Some(LayoutView::XTrans)
    } else {
        None
    }
}

/// The layout that a user means by `text`.
pub open spec fn requested_layout(text: Seq<char>) -> Option<LayoutView> {
    named_layout(normalized(text))
}

/// The color that a pattern of two rows and two columns lets through at column `x` of row `y`.
pub open spec fn bayer_channel(pattern: Seq<u8>, x: int, y: int) -> int {
    pattern[y % 2 * 2 + x % 2] as int
}

/// The color that an X-Trans filter lets through at column `x` of row `y`.
pub open spec fn xtrans_channel(x: int, y: int) -> int {
    XTRANS_PATTERN[y % 6][x % 6] as int
}

/// The colors of an X-Trans filter as one sequence, row by row.
pub open spec fn xtrans_colors() -> Seq<u8> {
    Seq::new(36, |k: int| XTRANS_PATTERN[k / 6][k % 6])
}

impl DngLayout {
    /// The layout that a user means by `value`: a known name, in upper or lower case, with or
    /// without white space around it.
    pub fn parse(value: &str) -> (layout: Result<Self, DngError>)
        ensures
            match layout {
                Ok(l) => requested_layout(value@) == Some(l@),
                Err(DngError::UnknownCfaType(name)) => {
                    &&& requested_layout(value@) is None
                    &&& name@ == normalized(value@)
                },
                Err(_) => false,
            },
    {
        let name: String = normalize(value);
        if is_text(&name, "") || is_text(&name, "linear") {
            Ok(DngLayout::Linear)
        } else if is_text(&name, "rggb") {
            Ok(DngLayout::Bayer { name: "RGGB", pattern: [0, 1, 1, 2] })
        } else if is_text(&name, "bggr") {
            Ok(DngLayout::Bayer { name: "BGGR", pattern: [2, 1, 1, 0] })
        } else if is_text(&name, "grbg") {
            Ok(DngLayout::Bayer { name: "GRBG", pattern: [1, 0, 2, 1] })
        } else if is_text(&name, "gbrg") {
            Ok(DngLayout::Bayer { name: "GBRG", pattern: [1, 2, 0, 1] })
        } else if is_text(&name, "xtrans") || is_text(&name, "x-trans") {
            Ok(DngLayout::XTrans)
        } else {
            Err(DngError::UnknownCfaType(name))
        }
    }

    /// Whether every pixel has all three colors.
    pub fn is_linear(&self) -> (linear: bool)
        ensures
            linear == (self@ is Linear),
    {
        matches!(self, DngLayout::Linear)
    }
}

/// The letter for a color.
pub open spec fn color_letter(color: u8) -> char {
    if color == 0 {
        'R'
    } else if color == 1 {
        'G'
    } else {
        'B'
    }
}

/// The name of a layout with a pattern of two rows and two columns spells out the colors of the
/// pattern, and is itself a text by which a user can ask for the layout.
pub proof fn law_bayer_name(text: Seq<char>, i: int)
    requires
        requested_layout(text) matches Some(LayoutView::Bayer { .. }),
        0 <= i < 4,
    ensures
        requested_layout(text) matches Some(LayoutView::Bayer { name, pattern }) && {
            &&& name.len() == 4
            &&& pattern.len() == 4
            &&& pattern[i] < 3
            &&& name[i] == color_letter(pattern[i])
            &&& requested_layout(name) == requested_layout(text)
        },
{
    reveal_strlit("");
    reveal_strlit("linear");
    reveal_strlit("rggb");
    reveal_strlit("bggr");
    reveal_strlit("grbg");
    reveal_strlit("gbrg");
    reveal_strlit("RGGB");
    reveal_strlit("BGGR");
    reveal_strlit("GRBG");
    reveal_strlit("GBRG");
    assert(normalized("RGGB"@) == "rggb"@);
    assert(normalized("BGGR"@) == "bggr"@);
    assert(normalized("GRBG"@) == "grbg"@);
    assert(normalized("GBRG"@) == "gbrg"@);
}

/// Case and surrounding white space make no difference to which layout is meant.
pub proof fn law_layout_ignores_case_and_space(
    before: Seq<char>,
    text: Seq<char>,
    after: Seq<char>,
    other: Seq<char>,
)
    requires
        forall|i: int| 0 <= i < before.len() ==> is_white_space(#[trigger] before[i]),
        forall|i: int| 0 <= i < after.len() ==> is_white_space(#[trigger] after[i]),
        lowercase(text) == lowercase(other),
    ensures
        requested_layout(before + text + after) == requested_layout(other),
{
    law_name_ignores_space(before, text, after);
    law_name_ignores_case(text, other);
}

/// The 36 colors of an X-Trans filter, six rows of six: 0 is red, 1 is green, 2 is blue.
pub proof fn law_xtrans_colors()
    ensures
        ({
            let expected: Seq<int> = seq![
                1int, 2int, 0int, 1int, 0int, 2int,
                0int, 1int, 1int, 2int, 1int, 1int,
                2int, 1int, 1int, 0int, 1int, 1int,
                1int, 0int, 2int, 1int, 2int, 0int,
                2int, 1int, 1int, 0int, 1int, 1int,
                0int, 1int, 1int, 2int, 1int, 1int,
            ];
            &&& xtrans_colors().len() == 36
            &&& forall|k: int| 0 <= k < 36 ==> #[trigger] xtrans_colors()[k] == expected[k]
        }),
{
    let expected: Seq<int> = seq![
        1int, 2int, 0int, 1int, 0int, 2int,
        0int, 1int, 1int, 2int, 1int, 1int,
        2int, 1int, 1int, 0int, 1int, 1int,
        1int, 0int, 2int, 1int, 2int, 0int,
        2int, 1int, 1int, 0int, 1int, 1int,
        0int, 1int, 1int, 2int, 1int, 1int,
    ];
    assert forall|k: int| 0 <= k < 36 implies #[trigger] xtrans_colors()[k] == expected[k] by {
        assert(k / 6 == 0 || k / 6 == 1 || k / 6 == 2 || k / 6 == 3 || k / 6 == 4 || k / 6 == 5);
        assert(k % 6 == 0 || k % 6 == 1 || k % 6 == 2 || k % 6 == 3 || k % 6 == 4 || k % 6 == 5);
        assert(k == 6 * (k / 6) + k % 6);
    }
}

/// The pattern of an X-Trans filter repeats after six columns and after six rows.
pub proof fn law_xtrans_repeats(x: int, y: int)
    ensures
        xtrans_channel(x + 6, y) == xtrans_channel(x, y),
        xtrans_channel(x, y + 6) == xtrans_channel(x, y),
        xtrans_channel(x, y) == xtrans_colors()[y % 6 * 6 + x % 6],
        0 <= xtrans_channel(x, y) < 3,
{
    let k = y % 6 * 6 + x % 6;
    assert((x + 6) % 6 == x % 6 && (y + 6) % 6 == y % 6);
    assert(0 <= k < 36 && k / 6 == y % 6 && k % 6 == x % 6);
    law_xtrans_colors();
}

/// A text asks for a layout if and only if it is a known name. The names of the linear layout are
/// "linear" and the empty one, those of the X-Trans layout are "xtrans" and "x-trans", and a name
/// of a Bayer layout spells the colors of its pattern, row by row, with `r`, `g` and `b`.
pub proof fn law_known_names(text: Seq<char>)
    ensures
        ({
            let name = normalized(text);
            let bayer = name == "rggb"@ || name == "bggr"@ || name == "grbg"@ || name == "gbrg"@;
            match requested_layout(text) {
                Some(LayoutView::Linear) => name == ""@ || name == "linear"@,
                Some(LayoutView::XTrans) => name == "xtrans"@ || name == "x-trans"@,
                Some(LayoutView::Bayer { name: shown, pattern }) => {
                    &&& bayer
                    &&& name.len() == 4
                    &&& pattern.len() == 4
                    &&& shown.len() == 4
                    &&& forall|i: int|
                        0 <= i < 4 ==> {
                            &&& (name[i] == 'r' <==> #[trigger] pattern[i] == 0)
                            &&& (name[i] == 'g' <==> pattern[i] == 1)
                            &&& (name[i] == 'b' <==> pattern[i] == 2)
                            &&& pattern[i] < 3
                        }
                    &&& forall|i: int|
                        0 <= i < 4 ==> {
                            &&& (name[i] == 'r' <==> #[trigger] shown[i] == 'R')
                            &&& (name[i] == 'g' <==> shown[i] == 'G')
                            &&& (name[i] == 'b' <==> shown[i] == 'B')
                        }
                },
                None => {
                    &&& !bayer
                    &&& name != ""@
                    &&& name != "linear"@
                    &&& name != "xtrans"@
                    &&& name != "x-trans"@
                },
            }
        }),
{
    reveal_strlit("");
    reveal_strlit("linear");
    reveal_strlit("rggb");
    reveal_strlit("bggr");
    reveal_strlit("grbg");
    reveal_strlit("gbrg");
    reveal_strlit("RGGB");
    reveal_strlit("BGGR");
    reveal_strlit("GRBG");
    reveal_strlit("GBRG");
}

} // verus!
