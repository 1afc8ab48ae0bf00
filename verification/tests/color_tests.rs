use sim_ui::color::{Argb8, Rgba8};
use sim_ui::color_defs;

#[test]
fn rgba8_u32_conversion() {
    let c = Rgba8::from(0x8A2BE2FF_u32);
    assert_eq!(c.r, 0x8A);
    assert_eq!(c.g, 0x2B);
    assert_eq!(c.b, 0xE2);
    assert_eq!(c.a, 0xFF);

    let u: u32 = c.into();
    assert_eq!(u, 0x8A2BE2FF_u32);
}

#[test]
fn argb8_u32_conversion() {
    let c = Argb8::from(0xFF8A2BE2_u32);
    assert_eq!(c.r, 0x8A);
    assert_eq!(c.g, 0x2B);
    assert_eq!(c.b, 0xE2);
    assert_eq!(c.a, 0xFF);

    let u: u32 = c.into();
    assert_eq!(u, 0xFF8A2BE2_u32);
}

#[test]
fn rgba8_argb8_conversion() {
    let rba8 = Rgba8::new(255, 128, 64, 32);

    let argb = Argb8::from(rba8);
    assert_eq!(argb.r, 255);
    assert_eq!(argb.g, 128);
    assert_eq!(argb.b, 64);
    assert_eq!(argb.a, 32);

    let rba8 = Rgba8::from(argb);
    assert_eq!(rba8.r, 255);
    assert_eq!(rba8.g, 128);
    assert_eq!(rba8.b, 64);
    assert_eq!(rba8.a, 32);
}

#[test]
fn rgba8_init_argb_reorders_channels() {
    let c = Rgba8::init_argb(0x11223344);
    assert_eq!(c, Rgba8::new(0x22, 0x33, 0x44, 0x11));
    let d = Argb8::init_rgba(0x11223344);
    assert_eq!(d, Argb8::new(0x44, 0x11, 0x22, 0x33));
    assert_eq!(Argb8::init(0x11223344), Argb8::new(0x11, 0x22, 0x33, 0x44));
    assert_eq!(Rgba8::init(0x11223344), Rgba8::new(0x11, 0x22, 0x33, 0x44));
}

#[test]
fn with_alpha_keeps_color_channels() {
    let c = Rgba8::new(1, 2, 3, 4).with_alpha(200);
    assert_eq!(c, Rgba8::new(1, 2, 3, 200));
    let d = Argb8::new(4, 1, 2, 3).with_alpha(9);
    assert_eq!(d, Argb8::new(9, 1, 2, 3));
}

#[test]
fn default_rgba8_is_opaque_black() {
    assert_eq!(Rgba8::default(), Rgba8::new(0, 0, 0, 255));
}

#[test]
fn roundtrip_of_every_channel_pattern() {
    for v in [0u32, 1, 0xFF, 0xFF00, 0xFF0000, 0xFF000000, 0xFFFFFFFF, 0x12345678] {
        let u: u32 = Rgba8::from(v).into();
        assert_eq!(u, v);
        let w: u32 = Argb8::from(v).into();
        assert_eq!(w, v);
        let back = Rgba8::from(Argb8::from(Rgba8::from(v)));
        assert_eq!(back, Rgba8::from(v));
    }
}

#[test]
fn palette_values() {
    assert_eq!(color_defs::invisible(), Rgba8::new(0, 0, 0, 0));
    assert_eq!(color_defs::black(), Rgba8::new(0, 0, 0, 0xFF));
    assert_eq!(color_defs::black_87(), Rgba8::new(0, 0, 0, 0xDD));
    assert_eq!(color_defs::white_70(), Rgba8::new(0xFF, 0xFF, 0xFF, 0xB3));
    assert_eq!(color_defs::red_50(), Rgba8::new(0xFF, 0xEB, 0xEE, 0xFF));
    assert_eq!(color_defs::red_500(), Rgba8::new(0xF4, 0x43, 0x36, 0xFF));
    assert_eq!(color_defs::teal_accent_200(), Rgba8::new(0x64, 0xFF, 0xDA, 0xFF));
    assert_eq!(color_defs::cyan_accent_200(), Rgba8::new(0x18, 0xFF, 0xFF, 0xFF));
}
