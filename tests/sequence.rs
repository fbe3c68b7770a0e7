use ril::image::Image;
use ril::pixels::Pixel;
use ril::sequence::{Frame, ImageSequence};
use ril::types::DisposalMethod;

fn frames(n: u8) -> Vec<Frame> {
    (0..n)
        .map(|k| {
            let mut f = Frame::new(Image::new(1, 1, Pixel::from_l(k)).unwrap());
            f.set_delay(10 * k as u64);
            f
        })
        .collect()
}

#[test]
fn cursor_is_single_pass() {
    let mut seq = ImageSequence::from_frames(frames(3));
    let first = seq.drain();
    assert_eq!(first.len(), 3);
    for (k, f) in first.iter().enumerate() {
        assert_eq!(f.get_image().get_pixel(0, 0), Ok(Pixel::from_l(k as u8)));
        assert_eq!(f.get_delay(), 10 * k as u64);
    }
    assert_eq!(seq.drain().len(), 0);
    assert!(seq.next_frame().is_none());
    assert_eq!(seq.len(), 3);
}

#[test]
fn next_frame_hands_out_in_order() {
    let mut seq = ImageSequence::from_frames(frames(2));
    let a = seq.next_frame().unwrap();
    let b = seq.next_frame().unwrap();
    assert_eq!(a.get_image().get_pixel(0, 0), Ok(Pixel::from_l(0)));
    assert_eq!(b.get_image().get_pixel(0, 0), Ok(Pixel::from_l(1)));
    assert!(seq.next_frame().is_none());
    assert!(seq.next_frame().is_none());
    assert_eq!(seq.len(), 2);
    assert!(seq.frame(1).is_some());
}

#[test]
fn frame_metadata() {
    let mut f = Frame::new(Image::new(3, 2, Pixel::from_l(0)).unwrap());
    assert_eq!(f.get_delay(), 0);
    assert_eq!(f.get_disposal(), DisposalMethod::Keep);
    assert_eq!(f.get_dimensions(), (3, 2));
    f.set_disposal(DisposalMethod::Previous);
    assert_eq!(f.get_disposal().name(), "Previous");
}

#[test]
fn empty_sequence() {
    let mut seq = ImageSequence::from_frames(Vec::new());
    assert!(seq.is_empty());
    assert!(seq.next_frame().is_none());
}
