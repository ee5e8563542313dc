use mipidsi::color::{BitsPerPixel, Color565};
use mipidsi::model::{
    check_interface_kind, prepare_init, ILI9341Rgb565, ILI9341Rgb666, InterfaceKind,
    InterfaceKinds, Model, ModelError, PixelFormat,
};

fn serial_only() -> InterfaceKinds {
    InterfaceKinds { serial_4_line: true, parallel_8_bit: false, parallel_16_bit: false }
}

#[test]
fn ili9341_rgb565_init() {
    let mut m = ILI9341Rgb565;
    assert_eq!(m.framebuffer_size(), (240, 320));
    for kind in [InterfaceKind::Serial4Line, InterfaceKind::Parallel8Bit, InterfaceKind::Parallel16Bit] {
        assert_eq!(
            m.init(kind),
            Ok(PixelFormat { dpi: BitsPerPixel::Sixteen, dbi: BitsPerPixel::Sixteen })
        );
    }
}

#[test]
fn ili9341_rgb666_init() {
    let mut m = ILI9341Rgb666;
    assert_eq!(m.framebuffer_size(), (240, 320));
    assert_eq!(
        m.init(InterfaceKind::Parallel16Bit),
        Ok(PixelFormat { dpi: BitsPerPixel::Eighteen, dbi: BitsPerPixel::Eighteen })
    );
}

#[test]
fn serial_only_model_rejects_parallel_interface() {
    assert_eq!(
        check_interface_kind(serial_only(), InterfaceKind::Parallel8Bit),
        Err(ModelError::UnsupportedInterface(InterfaceKind::Parallel8Bit))
    );
    assert_eq!(
        prepare_init::<Color565>(serial_only(), InterfaceKind::Parallel16Bit),
        Err(ModelError::UnsupportedInterface(InterfaceKind::Parallel16Bit))
    );
}

#[test]
fn serial_only_model_accepts_serial_interface() {
    assert_eq!(check_interface_kind(serial_only(), InterfaceKind::Serial4Line), Ok(()));
    assert_eq!(
        prepare_init::<Color565>(serial_only(), InterfaceKind::Serial4Line),
        Ok(PixelFormat::with_all(BitsPerPixel::Sixteen))
    );
}

#[test]
fn interface_kind_sets() {
    let all = InterfaceKinds::all();
    assert!(all.contains(InterfaceKind::Serial4Line));
    assert!(all.contains(InterfaceKind::Parallel16Bit));
    assert!(!serial_only().contains(InterfaceKind::Parallel16Bit));
}
