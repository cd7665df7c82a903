use apex::icon::premultiply;
use apex::plugin::Icon;

fn icon_of(bgra: Vec<u8>) -> Icon {
    Icon {
        width: (bgra.len() / 4) as u32,
        height: 1,
        bgra,
    }
}

#[test]
fn premultiply_scales_colour_by_alpha() {
    // Half-transparent white -> half-intensity white.
    let out = premultiply(icon_of(vec![255, 255, 255, 128]));
    assert_eq!(out.bgra, vec![128, 128, 128, 128]);
}

#[test]
fn fully_transparent_alpha_is_read_as_opaque() {
    // A legacy icon with no alpha channel must not vanish.
    let out = premultiply(icon_of(vec![10, 20, 30, 0, 40, 50, 60, 0]));
    assert_eq!(out.bgra, vec![10, 20, 30, 255, 40, 50, 60, 255]);
}

#[test]
fn transparent_pixels_survive_alongside_opaque_ones() {
    let out = premultiply(icon_of(vec![255, 255, 255, 0, 255, 255, 255, 255]));
    assert_eq!(out.bgra, vec![0, 0, 0, 0, 255, 255, 255, 255]);
}
