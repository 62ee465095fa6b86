use bootkit::io::serial::{
    confirm, init, RegisterWrite, SerialWriter, SerialWriterInitError, PORT, PROBE, TRANSMIT_EMPTY,
};

#[test]
fn first_line_is_at_port_3f8() {
    assert_eq!(PORT, 0x3f8);
    assert_eq!(PROBE, 0xAE);
    assert_eq!(TRANSMIT_EMPTY, 0x20);
}

#[test]
fn setup_writes_nine_registers_in_order() {
    let writes: Vec<(u16, u8)> = (0..9).map(|step| init(step).unwrap()).map(|w| (w.offset, w.value)).collect();
    assert_eq!(
        writes,
        vec![(1, 0x00), (3, 0x80), (0, 0x03), (1, 0x00), (3, 0x03), (2, 0xC7), (4, 0x0B), (4, 0x1E), (0, 0xAE)]
    );
}

#[test]
fn setup_has_no_tenth_write() {
    assert_eq!(init(9), None);
    assert_eq!(init(10), None);
    assert_eq!(init(usize::MAX), None);
}

#[test]
fn echo_of_the_probe_puts_the_chip_in_normal_operation() {
    assert_eq!(confirm(0xAE), Ok(RegisterWrite { offset: 4, value: 0x0F }));
}

#[test]
fn any_other_echo_is_a_faulty_chip() {
    assert_eq!(confirm(0x00), Err(SerialWriterInitError));
    assert_eq!(confirm(0xAF), Err(SerialWriterInitError));
    assert_eq!(confirm(0xFF), Err(SerialWriterInitError));
}

#[test]
fn writer_keeps_its_port() {
    let writer = SerialWriter::new(PORT);
    assert_eq!(writer.port, 0x3f8);
    assert_eq!(writer.status_port(), 0x3fd);
    assert_eq!(SerialWriter::new(0x2f8).status_port(), 0x2fd);
    assert_eq!(SerialWriter::new(u16::MAX - 5).status_port(), u16::MAX);
}

#[test]
fn transmit_empty_is_bit_five_of_the_status() {
    let writer = SerialWriter::new(PORT);
    assert_eq!(writer.is_transmit_empty(0x00), 0);
    assert_eq!(writer.is_transmit_empty(0x20), 0x20);
    assert_eq!(writer.is_transmit_empty(0x60), 0x20);
    assert_eq!(writer.is_transmit_empty(0xDF), 0);
    assert_eq!(writer.is_transmit_empty(0xFF), 0x20);
}
