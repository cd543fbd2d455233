//! The colors of a camera as fractions: two matrices and the neutral color of a picture.
use vstd::prelude::*;

verus! {

/// The denominator of the numbers in a color matrix.
pub const MATRIX_DENOMINATOR: i32 = 10_000;

/// The denominator of the parts of a neutral color.
pub const NEUTRAL_DENOMINATOR: u32 = 10_000;

/// The colors of a camera.
#[derive(Debug)]
pub struct Colors {
    /// ColorMatrix1, row by row.
    pub color_matrix: [(i32, i32); 9],
    /// ForwardMatrix1, row by row.
    pub forward_matrix: [(i32, i32); 9],
    /// AsShotNeutral: red, green and blue.
    pub neutral: [(u32, u32); 3],
}

/// The colors of a camera as sequences of fractions.
#[verifier::ext_equal]
pub struct ColorView {
    pub color_matrix: Seq<(i32, i32)>,
    pub forward_matrix: Seq<(i32, i32)>,
    pub neutral: Seq<(u32, u32)>,
}

impl View for Colors {
    type V = ColorView;

    open spec fn view(&self) -> ColorView {
        ColorView {
            color_matrix: self.color_matrix@,
            forward_matrix: self.forward_matrix@,
            neutral: self.neutral@,
        }
    }
}

/// The fractions of a matrix, row by row.
pub open spec fn matrix_fractions(numerators: [[i32; 3]; 3], denominator: i32) -> Seq<(i32, i32)> {
    Seq::new(9, |k: int| (numerators[k / 3][k % 3], denominator))
}

/// The fractions of a neutral color.
pub open spec fn neutral_fractions(numerators: [u32; 3], denominator: u32) -> Seq<(u32, u32)> {
    Seq::new(3, |k: int| (numerators[k], denominator))
}

/// The colors with the given numerators over the usual denominators. Without a forward matrix,
/// the color matrix takes its place.
pub open spec fn color_fractions(
    color_matrix: [[i32; 3]; 3],
    forward_matrix: Option<[[i32; 3]; 3]>,
    neutral: [u32; 3],
) -> ColorView {
    ColorView {
        color_matrix: matrix_fractions(color_matrix, MATRIX_DENOMINATOR),
        forward_matrix: matrix_fractions(
            match forward_matrix {
                Some(matrix) => matrix,
                None => color_matrix,
            },
            MATRIX_DENOMINATOR,
        ),
        neutral: neutral_fractions(neutral, NEUTRAL_DENOMINATOR),
    }
}

/// The fractions of a matrix, row by row.
pub fn matrix_to_srational(numerators: [[i32; 3]; 3], denominator: i32) -> (output: [(
    i32,
    i32,
); 9])
    ensures
        output@ == matrix_fractions(numerators, denominator),
{
    let mut output: [(i32, i32); 9] = [(0, denominator); 9];
    let mut k: usize = 0;
    while k < 9
        invariant
            k <= 9,
            forall|i: int| 0 <= i < k ==> #[trigger] output@[i] == matrix_fractions(
                numerators,
                denominator,
            )[i],
        decreases 9 - k,
    {
        output[k] = (numerators[k / 3][k % 3], denominator);
        k += 1;
    }
    output
}

/// The fractions of a neutral color.
pub fn neutral_to_rational(numerators: [u32; 3], denominator: u32) -> (output: [(u32, u32); 3])
    ensures
        output@ == neutral_fractions(numerators, denominator),
{
    [
        (numerators[0], denominator),
        (numerators[1], denominator),
        (numerators[2], denominator),
    ]
}

impl Colors {
    /// The colors with the given numerators over the usual denominators. Without a forward
    /// matrix, the color matrix takes its place.
    pub fn from_numerators(
        color_matrix: [[i32; 3]; 3],
        forward_matrix: Option<[[i32; 3]; 3]>,
        neutral: [u32; 3],
    ) -> (colors: Self)
        ensures
            colors@ == color_fractions(color_matrix, forward_matrix, neutral),
    {
        let forward: [[i32; 3]; 3] = match forward_matrix {
            Some(matrix) => matrix,
            None => color_matrix,
        };
        Colors {
            color_matrix: matrix_to_srational(color_matrix, MATRIX_DENOMINATOR),
            forward_matrix: matrix_to_srational(forward, MATRIX_DENOMINATOR),
            neutral: neutral_to_rational(neutral, NEUTRAL_DENOMINATOR),
        }
    }
}

/// A matrix is written with its numbers as they are: the fraction for row `r` and column `c` has
/// that number of the matrix above the denominator, whatever their size.
pub proof fn law_matrix_fractions(numerators: [[i32; 3]; 3], denominator: i32, r: int, c: int)
    requires
        0 <= r < 3,
        0 <= c < 3,
    ensures
        matrix_fractions(numerators, denominator).len() == 9,
        matrix_fractions(numerators, denominator)[3 * r + c].0 == numerators[r][c],
        matrix_fractions(numerators, denominator)[3 * r + c].1 == denominator,
{
    assert((3 * r + c) / 3 == r && (3 * r + c) % 3 == c);
}

/// A neutral color is written with its parts as they are, in the order red, green, blue.
pub proof fn law_neutral_fractions(numerators: [u32; 3], denominator: u32, c: int)
    requires
        0 <= c < 3,
    ensures
        neutral_fractions(numerators, denominator).len() == 3,
        neutral_fractions(numerators, denominator)[c].0 == numerators[c],
        neutral_fractions(numerators, denominator)[c].1 == denominator,
{
}

/// All colors are numbers over 10000. The forward matrix is the given one, or the color matrix
/// where none is given.
pub proof fn law_color_fractions(
    color_matrix: [[i32; 3]; 3],
    forward_matrix: Option<[[i32; 3]; 3]>,
    neutral: [u32; 3],
    r: int,
    c: int,
)
    requires
        0 <= r < 3,
        0 <= c < 3,
    ensures
        ({
            let colors = color_fractions(color_matrix, forward_matrix, neutral);
            let k = 3 * r + c;
            &&& colors.color_matrix.len() == 9
            &&& colors.forward_matrix.len() == 9
            &&& colors.neutral.len() == 3
            &&& colors.color_matrix[k] == (color_matrix[r][c], 10000i32)
            &&& forward_matrix is None ==> colors.forward_matrix[k] == (
                color_matrix[r][c],
                10000i32,
            )
            &&& forward_matrix matches Some(matrix) ==> colors.forward_matrix[k] == (
                matrix[r][c],
                10000i32,
            )
            &&& colors.neutral[c] == (neutral[c], 10000u32)
        }),
{
    law_matrix_fractions(color_matrix, MATRIX_DENOMINATOR, r, c);
    if let Some(matrix) = forward_matrix {
        law_matrix_fractions(matrix, MATRIX_DENOMINATOR, r, c);
    }
    law_neutral_fractions(neutral, NEUTRAL_DENOMINATOR, c);
}

} // verus!
