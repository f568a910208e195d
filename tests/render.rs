use doodles::{
    delay_centiseconds, thumbnail_scale, to_thumbnail_png, PixelDocument, RenderError, Rgba,
};

const RED: Rgba = Rgba { r: 255, g: 0, b: 0, a: 255 };
const BLUE: Rgba = Rgba { r: 0, g: 0, b: 255, a: 255 };

fn doc(width: u16, height: u16, background: Option<Rgba>, fps: u8, frames: Vec<Vec<Option<Rgba>>>) -> PixelDocument {
    PixelDocument { width, height, background, fps, frames }
}

struct Decoded {
    width: u32,
    height: u32,
    frames: Vec<Vec<u8>>,
    num_frames: Option<u32>,
    delay: Option<(u16, u16)>,
}

fn decode(bytes: &[u8]) -> Decoded {
    let decoder = png::Decoder::new(std::io::Cursor::new(bytes));
    let mut reader = decoder.read_info().unwrap();
    let info = reader.info();
    let (width, height) = (info.width, info.height);
    let num_frames = info.animation_control.map(|a| a.num_frames);
    let delay = info.frame_control.map(|f| (f.delay_num, f.delay_den));
    let count = num_frames.unwrap_or(1);
    let mut frames = Vec::new();
    for _ in 0..count {
        let mut buf = vec![0; reader.output_buffer_size().unwrap()];
        let out = reader.next_frame(&mut buf).unwrap();
        buf.truncate(out.buffer_size());
        frames.push(buf);
    }
    Decoded { width, height, frames, num_frames, delay }
}

fn pixel(frame: &[u8], width: u32, x: u32, y: u32) -> [u8; 4] {
    let i = ((y * width + x) * 4) as usize;
    [frame[i], frame[i + 1], frame[i + 2], frame[i + 3]]
}

#[test]
fn all_red_two_by_two_at_scale_three() {
    let d = doc(2, 2, None, 10, vec![vec![Some(RED); 4]]);
    let out = decode(&to_thumbnail_png(&d, 3).unwrap());
    assert_eq!((out.width, out.height), (6, 6));
    assert_eq!(out.frames.len(), 1);
    for y in 0..6 {
        for x in 0..6 {
            assert_eq!(pixel(&out.frames[0], 6, x, y), [255, 0, 0, 255]);
        }
    }
}

#[test]
fn each_source_pixel_becomes_a_block() {
    let d = doc(2, 1, None, 10, vec![vec![Some(RED), Some(BLUE)]]);
    let out = decode(&to_thumbnail_png(&d, 2).unwrap());
    assert_eq!((out.width, out.height), (4, 2));
    for y in 0..2 {
        assert_eq!(pixel(&out.frames[0], 4, 0, y), [255, 0, 0, 255]);
        assert_eq!(pixel(&out.frames[0], 4, 1, y), [255, 0, 0, 255]);
        assert_eq!(pixel(&out.frames[0], 4, 2, y), [0, 0, 255, 255]);
        assert_eq!(pixel(&out.frames[0], 4, 3, y), [0, 0, 255, 255]);
    }
}

#[test]
fn empty_cell_without_background_is_transparent() {
    let d = doc(2, 1, None, 10, vec![vec![Some(RED), None]]);
    let out = decode(&to_thumbnail_png(&d, 1).unwrap());
    assert_eq!(pixel(&out.frames[0], 2, 1, 0), [0, 0, 0, 0]);
    assert_eq!(pixel(&out.frames[0], 2, 0, 0), [255, 0, 0, 255]);
}

#[test]
fn empty_cell_with_background_takes_it() {
    let bg = Rgba { r: 1, g: 2, b: 3, a: 4 };
    let d = doc(2, 1, Some(bg), 10, vec![vec![Some(RED), None]]);
    let out = decode(&to_thumbnail_png(&d, 2).unwrap());
    assert_eq!(pixel(&out.frames[0], 4, 2, 1), [1, 2, 3, 4]);
    assert_eq!(pixel(&out.frames[0], 4, 3, 0), [1, 2, 3, 4]);
}

#[test]
fn single_frame_has_no_animation() {
    let d = doc(1, 1, None, 10, vec![vec![Some(RED)]]);
    let out = decode(&to_thumbnail_png(&d, 1).unwrap());
    assert_eq!(out.num_frames, None);
}

#[test]
fn animated_frames_and_delay() {
    let d = doc(1, 1, None, 10, vec![vec![Some(RED)], vec![Some(BLUE)], vec![None]]);
    let out = decode(&to_thumbnail_png(&d, 2).unwrap());
    assert_eq!(out.num_frames, Some(3));
    assert_eq!(out.delay, Some((10, 100)));
    assert_eq!(pixel(&out.frames[0], 2, 1, 1), [255, 0, 0, 255]);
    assert_eq!(pixel(&out.frames[1], 2, 1, 1), [0, 0, 255, 255]);
    assert_eq!(pixel(&out.frames[2], 2, 1, 1), [0, 0, 0, 0]);
}

#[test]
fn rendering_is_deterministic() {
    let d = doc(3, 2, Some(BLUE), 4, vec![vec![Some(RED), None, None, Some(RED), None, Some(RED)]; 2]);
    let e = doc(3, 2, Some(BLUE), 4, vec![vec![Some(RED), None, None, Some(RED), None, Some(RED)]; 2]);
    let a = to_thumbnail_png(&d, 5).unwrap();
    let b = to_thumbnail_png(&d, 5).unwrap();
    let c = to_thumbnail_png(&e, 5).unwrap();
    assert_eq!(a, b);
    assert_eq!(a, c);
}

#[test]
fn zero_scale_is_invalid() {
    let d = doc(1, 1, None, 10, vec![vec![Some(RED)]]);
    assert_eq!(to_thumbnail_png(&d, 0), Err(RenderError::InvalidArgument));
}

#[test]
fn malformed_documents_are_invalid() {
    assert_eq!(to_thumbnail_png(&doc(1, 1, None, 10, vec![]), 1), Err(RenderError::InvalidArgument));
    assert_eq!(
        to_thumbnail_png(&doc(2, 1, None, 10, vec![vec![Some(RED)]]), 1),
        Err(RenderError::InvalidArgument)
    );
    assert_eq!(
        to_thumbnail_png(&doc(1, 1, None, 0, vec![vec![None], vec![None]]), 1),
        Err(RenderError::InvalidArgument)
    );
}

#[test]
fn oversized_output_is_an_encoding_failure() {
    let d = doc(1, 1, None, 10, vec![vec![Some(RED)]]);
    assert_eq!(to_thumbnail_png(&d, 1usize << 33), Err(RenderError::EncodingFailure));
}

#[test]
fn empty_frame_is_rejected_by_the_encoder() {
    let d = doc(0, 0, None, 10, vec![vec![]]);
    assert_eq!(to_thumbnail_png(&d, 1), Err(RenderError::EncodingFailure));
}

#[test]
fn delays_round_to_centiseconds() {
    assert_eq!(delay_centiseconds(10), 10);
    assert_eq!(delay_centiseconds(3), 33);
    assert_eq!(delay_centiseconds(8), 13);
    assert_eq!(delay_centiseconds(1), 100);
    assert_eq!(delay_centiseconds(255), 1);
}

#[test]
fn thumbnail_scale_reaches_minimum_side() {
    assert_eq!(thumbnail_scale(16, 32), 50);
    assert_eq!(thumbnail_scale(30, 30), 27);
    assert_eq!(thumbnail_scale(1000, 2000), 1);
    assert_eq!(thumbnail_scale(0, 5), 0);
}
