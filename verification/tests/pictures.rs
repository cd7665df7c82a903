use apex::backdrop::{box_blur, downscale, downscale_blur};
use apex::icon::{premultiply, ICON_PX};
use apex::plugin::Icon;

fn grey(levels: &[u8]) -> Vec<u8> {
    levels.iter().flat_map(|v| [*v, *v, *v, 255]).collect()
}

#[test]
fn blurring_takes_the_mean_of_what_is_near() {
    // Sideways: (0 + 90) / 2, (0 + 90 + 30) / 3, (90 + 30) / 2.
    assert_eq!(box_blur(&grey(&[0, 90, 30]), 3, 1, 1), grey(&[45, 40, 60]));
    // Upwards and downwards the same.
    assert_eq!(box_blur(&grey(&[0, 90, 30]), 1, 3, 1), grey(&[45, 40, 60]));
    assert_eq!(box_blur(&grey(&[7, 8]), 2, 1, 0), grey(&[7, 8]));
}

#[test]
fn alpha_is_left_as_it_is() {
    let px = vec![10, 20, 30, 1, 50, 60, 70, 200];
    assert_eq!(box_blur(&px, 2, 1, 2), vec![30, 40, 50, 1, 30, 40, 50, 200]);
}

#[test]
fn shrinking_averages_blocks_and_makes_them_opaque() {
    let mut raw = grey(&[0, 10, 20, 30, 40, 50, 60, 70]);
    raw[3] = 0;
    // Four by two, to two by one: blocks of two by two.
    assert_eq!(downscale(&raw, 4, 2, 2, 1), grey(&[25, 45]));
    assert_eq!(downscale(&raw, 4, 2, 4, 2), grey(&[0, 10, 20, 30, 40, 50, 60, 70]));
    // Three columns to two: one, then two of them.
    assert_eq!(downscale(&grey(&[9, 10, 20]), 3, 1, 2, 1), grey(&[9, 15]));
}

#[test]
fn a_frosted_picture_is_opaque_and_a_plain_one_stays_plain() {
    let raw: Vec<u8> = [12u8, 34, 56, 0].repeat(40 * 30);
    let b = downscale_blur(&raw, 40, 30, 8, 6);
    assert_eq!((b.width, b.height), (8, 6));
    assert_eq!(b.bgra, [12u8, 34, 56, 255].repeat(48));
    let noisy: Vec<u8> = (0..16 * 16 * 4).map(|i| (i * 37 % 256) as u8).collect();
    let b = downscale_blur(&noisy, 16, 16, 4, 4);
    assert!(b.bgra.chunks(4).all(|p| p[3] == 255));
}

#[test]
fn colours_never_exceed_their_alpha() {
    let icon = Icon { width: 2, height: 1, bgra: vec![255, 128, 3, 100, 9, 9, 9, 255] };
    let out = premultiply(icon);
    assert_eq!(out.bgra, vec![100, 50, 1, 100, 9, 9, 9, 255]);
    assert_eq!((out.width, out.height), (2, 1));
    assert_eq!(ICON_PX, 48);
}
