use vstd::prelude::*;
use crate::arena::{get_buffer, spec_lookup, BufferStorage};
use crate::pixels::{image_bytes, marshal_pixels, pixels_of, CompareError, Rgb8};

verus! {

/// What preparing the comparison of the buffers under `a` and `b` as `width` by
/// `height` RGB images yields: `NotFound` where either key is absent, else
/// `Validation` where either length is not width * height * 3, else the pixels of
/// both.
pub open spec fn spec_prepare(
    m: Map<Seq<char>, Seq<u8>>,
    a: Seq<char>,
    b: Seq<char>,
    width: int,
    height: int,
) -> Result<(Seq<Rgb8>, Seq<Rgb8>), CompareError> {
    if !m.contains_key(a) || !m.contains_key(b) {
        Err(CompareError::NotFound)
    } else if m[a].len() != image_bytes(width, height) || m[b].len() != image_bytes(width, height) {
        Err(CompareError::Validation)
    } else {
        Ok((pixels_of(m[a]), pixels_of(m[b])))
    }
}

/// Resolves both keys, then groups each buffer into the pixels of a `width` by
/// `height` RGB image: the source and the distorted image of a comparison, in that
/// order. Nothing is marshalled unless both keys are present.
pub fn prepare_comparison(
    storage: &BufferStorage,
    source_key: &String,
    distorted_key: &String,
    width: usize,
    height: usize,
) -> (r: Result<(Vec<Rgb8>, Vec<Rgb8>), CompareError>)
    requires
        storage.wf(),
    ensures
        match r {
            Ok((p, q)) => spec_prepare(
                storage@,
                source_key@,
                distorted_key@,
                width as int,
                height as int,
            ) == Ok::<(Seq<Rgb8>, Seq<Rgb8>), CompareError>((p@, q@)),
            Err(e) => spec_prepare(storage@, source_key@, distorted_key@, width as int, height as int)
                == Err::<(Seq<Rgb8>, Seq<Rgb8>), CompareError>(e),
        },
{
    let source = get_buffer(storage, source_key);
    let distorted = get_buffer(storage, distorted_key);
    match (source, distorted) {
        (Some(s), Some(d)) => {
            let ps = marshal_pixels(s, width, height);
            let pd = marshal_pixels(d, width, height);
            match (ps, pd) {
                (Ok(p), Ok(q)) => Ok((p, q)),
                _ => Err(CompareError::Validation),
            }
        },
        _ => Err(CompareError::NotFound),
    }
}

} // verus!
