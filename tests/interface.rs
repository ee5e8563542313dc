use mipidsi::bus::BusOp;
use mipidsi::color::{Color565, Color666};
use mipidsi::interface::{SpiError, SpiInterface};

#[test]
fn command_is_framed_by_select_line() {
    let mut di = SpiInterface::new((), (), vec![0u8; 4]);
    let ops = di.send_command(0x2A, &[0, 0, 0, 0xEF]);
    assert_eq!(
        ops,
        vec![BusOp::SelectCommand, BusOp::Write(vec![0x2A]), BusOp::SelectData]
    );
    assert_eq!(di.pending_copy(), vec![0, 0, 0, 0xEF]);
}

#[test]
fn command_flushes_pending_pixels_first() {
    let mut di = SpiInterface::new((), (), vec![0u8; 4]);
    assert!(di.send_repeated_pixel(Color565::new(31, 0, 0), 1).is_empty());
    let ops = di.send_command(0x2C, &[]);
    assert_eq!(
        ops,
        vec![
            BusOp::Write(vec![0xF8, 0x00]),
            BusOp::SelectCommand,
            BusOp::Write(vec![0x2C]),
            BusOp::SelectData,
        ]
    );
    assert!(di.pending_copy().is_empty());
}

#[test]
fn command_with_long_arguments() {
    let mut di = SpiInterface::new((), (), vec![0u8; 2]);
    let ops = di.send_command(0x36, &[1, 2, 3, 4, 5]);
    assert_eq!(
        ops,
        vec![
            BusOp::SelectCommand,
            BusOp::Write(vec![0x36]),
            BusOp::SelectData,
            BusOp::Write(vec![1, 2]),
            BusOp::Write(vec![3, 4]),
        ]
    );
    assert_eq!(di.pending_copy(), vec![5]);
}

#[test]
fn interface_flush_sends_arguments() {
    let mut di = SpiInterface::new((), (), vec![0u8; 8]);
    di.send_command(0x3A, &[0x55]);
    assert_eq!(di.flush(), vec![BusOp::Write(vec![0x55])]);
    assert!(di.flush().is_empty());
}

#[test]
fn repeated_pixel_uses_serialized_color() {
    let mut di = SpiInterface::new((), (), vec![0u8; 4]);
    let ops = di.send_repeated_pixel(Color565::new(0, 63, 0), 5);
    assert_eq!(ops, vec![BusOp::WriteRepeated(vec![0x07, 0xE0, 0x07, 0xE0], 2)]);
    assert_eq!(di.pending_copy(), vec![0x07, 0xE0]);
}

#[test]
fn rgb666_pixels_are_not_split() {
    let mut di = SpiInterface::new((), (), vec![0u8; 4]);
    assert!(di.send_pixel(Color666::new(63, 0, 1)).is_empty());
    assert_eq!(di.pending_copy(), vec![252, 0, 4]);
    let ops = di.send_pixel(Color666::new(63, 0, 1));
    assert_eq!(ops, vec![BusOp::Write(vec![252, 0, 4])]);
    assert_eq!(di.pending_copy(), vec![252, 0, 4]);
}

#[test]
fn bus_and_pin_are_reachable() {
    let mut di = SpiInterface::new(7u32, 9u8, vec![0u8; 4]);
    assert_eq!(*di.bus_mut(), 7);
    *di.dc_mut() = 3;
    assert_eq!(*di.dc_mut(), 3);
    assert_eq!(di.buffer_capacity(), 4);
}

#[test]
fn spi_error_keeps_its_source() {
    let e: SpiError<u8, u16> = SpiError::Dc(4);
    assert!(matches!(e, SpiError::Dc(4)));
    let e: SpiError<u8, u16> = SpiError::Spi(2);
    assert!(matches!(e, SpiError::Spi(2)));
}
