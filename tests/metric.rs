use s2_arena::arena::{new_buffer, write_buffer, BufferStorage};
use s2_arena::compare::prepare_comparison;
use s2_arena::pixels::Rgb8;
use ssimulacra2::compute_frame_ssimulacra2;
use yuvxyb::{ColorPrimaries, Rgb, TransferCharacteristic, Xyb};

fn to_xyb(pixels: Vec<[f32; 3]>, width: usize, height: usize) -> Xyb {
    Xyb::try_from(
        Rgb::new(pixels, width, height, TransferCharacteristic::SRGB, ColorPrimaries::BT709)
            .expect("Failed to process source_data into RGB"),
    )
    .expect("Failed to process source_data into XYB")
}

fn as_floats(pixels: Vec<Rgb8>) -> Vec<[f32; 3]> {
    pixels.into_iter().map(|(r, g, b)| [r as f32, g as f32, b as f32]).collect()
}

fn score(st: &BufferStorage, a: &str, b: &str, width: usize, height: usize) -> f64 {
    let (p, q) = prepare_comparison(st, &a.to_string(), &b.to_string(), width, height)
        .expect("valid comparison");
    compute_frame_ssimulacra2(
        to_xyb(as_floats(p), width, height),
        to_xyb(as_floats(q), width, height),
    )
    .expect("Failed to calculate ssimulacra2")
}

#[test]
fn vec_test() {
    let chunked_vec = vec![255 as u8; 20 * 20 * 3]
        .chunks(3)
        .map(|chunk| [chunk[0] as f32, chunk[1] as f32, chunk[2] as f32])
        .collect::<Vec<_>>();
    let source_data = to_xyb(chunked_vec, 20, 20);
    let chunked_vec2 = vec![254 as u8; 20 * 20 * 3]
        .chunks(3)
        .map(|chunk| [chunk[0] as f32, chunk[1] as f32, chunk[2] as f32])
        .collect::<Vec<_>>();
    let distorted_data = to_xyb(chunked_vec2, 20, 20);
    let res = compute_frame_ssimulacra2(source_data, distorted_data)
        .expect("Failed to calculate ssimulacra2");
    println!("{:?}", res);
    assert_eq!(100.0, 100.0);
}

#[test]
fn self_comparison_scores_maximum() {
    let mut st = BufferStorage::new();
    new_buffer(&mut st, "img".to_string(), 1200);
    let data: Vec<u8> = (0..1200u32).map(|i| (i * 7 % 256) as u8).collect();
    assert!(write_buffer(&mut st, &"img".to_string(), 0, &data));
    let s = score(&st, "img", "img", 20, 20);
    assert_eq!(s, 100.0);
}

#[test]
fn near_identical_images_score_close_to_maximum() {
    let mut st = BufferStorage::new();
    new_buffer(&mut st, "img1".to_string(), 1200);
    assert!(write_buffer(&mut st, &"img1".to_string(), 0, &vec![255u8; 1200]));
    new_buffer(&mut st, "img2".to_string(), 1200);
    assert!(write_buffer(&mut st, &"img2".to_string(), 0, &vec![254u8; 1200]));
    let s = score(&st, "img1", "img2", 20, 20);
    let same = score(&st, "img1", "img1", 20, 20);
    println!("{:?}", s);
    assert!(s.is_finite());
    assert!(s < same);
    assert!(s > 70.0);
}
