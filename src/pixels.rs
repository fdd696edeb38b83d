use vstd::prelude::*;

verus! {

/// Why a comparison of two stored images did not produce a score.
#[derive(Debug, Clone, Copy, PartialEq, Eq, Structural)]
pub enum CompareError {
    /// A key names no buffer in the arena.
    NotFound,
    /// A buffer's length is not width * height * 3.
    Validation,
    /// The pixels could not be brought into the perceptual color space.
    Conversion,
    /// The metric could not score the two images.
    Computation,
}

/// One pixel: its red, green and blue bytes.
pub type Rgb8 = (u8, u8, u8);

/// The number of bytes that an RGB image of `width` by `height` pixels takes.
pub open spec fn image_bytes(width: int, height: int) -> int {
    width * height * 3
}

/// The bytes grouped into consecutive triples, in order.
pub open spec fn pixels_of(b: Seq<u8>) -> Seq<Rgb8> {
    Seq::new(b.len() / 3, |i: int| (b[3 * i], b[3 * i + 1], b[3 * i + 2]))
}

/// Groups the bytes of a `width` by `height` RGB image into pixels, row by row.
/// Fails with `Validation`, reading nothing, where the length is not
/// width * height * 3.
pub fn marshal_pixels(bytes: &Vec<u8>, width: usize, height: usize) -> (r: Result<
    Vec<Rgb8>,
    CompareError,
>)
    ensures
        bytes@.len() == image_bytes(width as int, height as int) ==> (match r {
            Ok(p) => p@ == pixels_of(bytes@),
            Err(_) => false,
        }),
        bytes@.len() != image_bytes(width as int, height as int) ==> r == Err::<Vec<Rgb8>, CompareError>(
            CompareError::Validation,
        ),
{
    let blen = bytes.len();
    let count = match width.checked_mul(height) {
        Some(n) => n,
        None => {
            proof {
                assert(width as int * height as int * 3 >= width as int * height as int)
                    by (nonlinear_arith)
                    requires
                        width as int * height as int >= 0,
                ;
            }
            return Err(CompareError::Validation);
        },
    };
    if count > blen / 3 || blen != count * 3 {
        return Err(CompareError::Validation);
    }
    assert(bytes@.len() / 3 == count);
    let mut out: Vec<Rgb8> = Vec::new();
    let mut i: usize = 0;
    let mut j: usize = 0;
    while i < count
        invariant
            count == bytes@.len() / 3,
            bytes@.len() == 3 * count,
            blen == bytes@.len(),
            i <= count,
            j == 3 * i,
            out@.len() == i,
            forall|q: int| 0 <= q < i ==> #[trigger] out@[q] == pixels_of(bytes@)[q],
        decreases count - i,
    {
        out.push((bytes[j], bytes[j + 1], bytes[j + 2]));
        i = i + 1;
        j = j + 3;
    }
    assert(out@ =~= pixels_of(bytes@));
    Ok(out)
}

} // verus!
