use sim_ui::ids::{CacheId, DeviceId, ImageId, WidgetId};
use sim_ui::input::{
    Modifiers, ModifiersStateSerialize, ALT_BIT, ALL_MODIFIER_BITS, CTRL_BIT, SHIFT_BIT, VENDOR_BIT,
};
use sim_ui::state_flags::{
    StateFlags, CHILDREN_DRAW, CHILDREN_UPDATE, INIT_FLAGS, IS_ENABLED, IS_OVER, IS_VISIBLE,
    SELF_DELETE, SELF_DRAW, SELF_UPDATE,
};
use sim_ui::text_align::{AlignH, AlignV, TextAlign};

#[test]
fn widget_id_validity() {
    assert!(!WidgetId::invalid().is_valid());
    assert!(!WidgetId::default().is_valid());
    let id = WidgetId::from_raw::<u8>(17);
    assert!(id.is_valid());
    assert_eq!(id.raw(), 17);
    assert_eq!(WidgetId::from_raw::<u8>(17), WidgetId::from_raw::<u16>(17));
    assert_ne!(WidgetId::from_raw::<u8>(17), WidgetId::from_raw::<u8>(18));
}

#[test]
fn cache_and_image_ids() {
    let c = CacheId::invalid();
    assert!(!c.is_valid());
    assert_eq!(c.raw(), u32::MAX);
    assert_eq!(c.raw_opt(), None);
    assert_eq!(CacheId::default().raw_opt(), None);
    let c = CacheId::from_raw(5);
    assert!(c.is_valid());
    assert_eq!(c.raw_opt(), Some(5));

    let i = ImageId::invalid();
    assert!(!i.is_valid());
    assert_eq!(i.raw(), -1);
    assert_eq!(i.raw_opt(), None);
    assert_eq!(ImageId::default().raw_opt(), None);
    let i = ImageId::from_raw(0);
    assert!(i.is_valid());
    assert_eq!(i.raw_opt(), Some(0));
    assert!(!ImageId::from_raw(-7).is_valid());

    assert_eq!(DeviceId::from_raw(3).raw(), 3);
}

#[test]
fn modifiers_bits() {
    assert_eq!(Modifiers::empty().bits(), 0);
    assert_eq!(Modifiers::all().bits(), ALL_MODIFIER_BITS);
    assert_eq!(SHIFT_BIT | CTRL_BIT | ALT_BIT | VENDOR_BIT, ALL_MODIFIER_BITS);
    assert_eq!(Modifiers::from_bits_truncate(0xFFFF_FFFF).bits(), ALL_MODIFIER_BITS);
    assert_eq!(Modifiers::from_bits_truncate(SHIFT_BIT | 1).bits(), SHIFT_BIT);

    let mut m = Modifiers::empty();
    m.set(Modifiers::ctrl_key(), true);
    assert!(m.ctrl() && !m.shift() && !m.alt() && !m.vendor());
    assert!(m.contains(Modifiers::ctrl_key()));
    assert!(!m.contains(Modifiers::all()));
    assert!(m.intersects(Modifiers::all()));
    m.set(Modifiers::vendor_key(), true);
    assert!(m.vendor());
    m.set(Modifiers::ctrl_key(), false);
    assert!(!m.ctrl() && m.vendor());
    assert!(!Modifiers::alt_key().intersects(Modifiers::shift_key()));
}

#[test]
fn modifiers_serialize_roundtrip() {
    for bits in [0u32, SHIFT_BIT, CTRL_BIT | ALT_BIT, ALL_MODIFIER_BITS] {
        let m = Modifiers::from_bits_truncate(bits);
        let s = ModifiersStateSerialize::from_modifiers(&m);
        assert_eq!(s.to_modifiers(), m);
    }
    let s = ModifiersStateSerialize { shift: true, ctrl: false, alt: true, vendor: false };
    let m = s.to_modifiers();
    assert_eq!(m.bits(), SHIFT_BIT | ALT_BIT);
    assert_eq!(ModifiersStateSerialize::from_modifiers(&m), s);
}

#[test]
fn text_align_builders() {
    assert_eq!(TextAlign::new().get(), (false, AlignH::Right, AlignV::BaseLine));
    assert_eq!(TextAlign::default(), TextAlign::new());
    let a = TextAlign::new().left().top().tight();
    assert_eq!(a.get(), (true, AlignH::Left, AlignV::Top));
    let b = a.center().middle();
    assert_eq!(b.get(), (true, AlignH::Center, AlignV::Middle));
    let c = b.right().bottom().baseline();
    assert_eq!(c.get(), (true, AlignH::Right, AlignV::BaseLine));
    assert_eq!(c.h_align(AlignH::Left).v_align(AlignV::Bottom).get(), (true, AlignH::Left, AlignV::Bottom));
}

#[test]
fn state_flags_operations() {
    let f = StateFlags::init();
    assert_eq!(f.bits, INIT_FLAGS);
    for g in [SELF_UPDATE, CHILDREN_UPDATE, SELF_DRAW, CHILDREN_DRAW, IS_VISIBLE, IS_ENABLED] {
        assert!(f.contains(g));
    }
    assert!(!f.contains(SELF_DELETE));
    assert!(!f.contains(IS_OVER));

    let mut f = StateFlags { bits: 0 };
    f.insert(IS_OVER);
    assert!(f.contains(IS_OVER));
    f.set(SELF_DRAW, true);
    assert!(f.contains(SELF_DRAW) && f.contains(IS_OVER));
    f.remove(IS_OVER);
    assert!(!f.contains(IS_OVER) && f.contains(SELF_DRAW));
    f.set(SELF_DRAW, false);
    assert_eq!(f.bits, 0);
}
