use touch_n_drink::pn532::{check_ack, is_ack, parse_response, Error, I2CInterfaceWithIrq, Pn532, BUFFER_SIZE};

fn firmware_version_response() -> Vec<u8> {
    vec![0x00, 0x00, 0xFF, 0x06, 0xFA, 0xD5, 0x03, 0x32, 0x01, 0x06, 0x07, 0xE8, 0x00]
}

#[test]
fn command_frame_of_get_firmware_version() {
    let mut driver = Pn532::new(I2CInterfaceWithIrq::new((), ()));
    assert_eq!(driver.buf.len(), BUFFER_SIZE);
    let frame = driver.command_frame(0x02, &[]).to_vec();
    assert_eq!(frame, vec![0x00, 0x00, 0xFF, 0x02, 0xFE, 0xD4, 0x02, 0x2A, 0x00]);
}

#[test]
fn command_frame_with_data() {
    let mut driver = Pn532::new(I2CInterfaceWithIrq::new((), ()));
    // SAMConfiguration, normal mode, timeout 0x14, use IRQ
    let frame = driver.command_frame(0x14, &[0x01, 0x14, 0x01]).to_vec();
    assert_eq!(
        frame,
        vec![0x00, 0x00, 0xFF, 0x05, 0xFB, 0xD4, 0x14, 0x01, 0x14, 0x01, 0x02, 0x00]
    );
}

#[test]
fn parse_good_response() {
    let buf = firmware_version_response();
    assert_eq!(parse_response(&buf, 0x03), Ok(&[0x32u8, 0x01, 0x06, 0x07][..]));
    // Trailing bytes in the buffer do not matter
    let mut long = buf.clone();
    long.resize(BUFFER_SIZE, 0xAA);
    assert_eq!(parse_response(&long, 0x03), Ok(&[0x32u8, 0x01, 0x06, 0x07][..]));
}

#[test]
fn parse_bad_responses() {
    let good = firmware_version_response();
    // Wrong response command
    assert_eq!(parse_response(&good, 0x05), Err(Error::BadResponseFrame));
    // Wrong preamble
    let mut buf = good.clone();
    buf[2] = 0xFE;
    assert_eq!(parse_response(&buf, 0x03), Err(Error::BadResponseFrame));
    // Wrong length checksum
    let mut buf = good.clone();
    buf[4] = 0xFB;
    assert_eq!(parse_response(&buf, 0x03), Err(Error::CrcError));
    // Wrong data checksum
    let mut buf = good.clone();
    buf[11] = 0xE9;
    assert_eq!(parse_response(&buf, 0x03), Err(Error::CrcError));
    // Missing postamble
    let mut buf = good.clone();
    buf[12] = 0x01;
    assert_eq!(parse_response(&buf, 0x03), Err(Error::BadResponseFrame));
    // Frame longer than the buffer
    assert_eq!(parse_response(&good[..12], 0x03), Err(Error::BufTooSmall));
    // Syntax error frame
    let syntax = [0x00, 0x00, 0xFF, 0x01, 0xFF, 0x7F, 0x81, 0x00];
    assert_eq!(parse_response(&syntax, 0x03), Err(Error::Syntax));
    // Zero length
    let empty = [0x00, 0x00, 0xFF, 0x00, 0x00, 0x00, 0x00];
    assert_eq!(parse_response(&empty, 0x03), Err(Error::BadResponseFrame));
}

#[test]
fn ack_frames() {
    let ack = [0x00, 0x00, 0xFF, 0x00, 0xFF, 0x00];
    assert!(is_ack(&ack));
    assert_eq!(check_ack(&ack), Ok(()));
    let nack = [0x00, 0x00, 0xFF, 0xFF, 0x00, 0x00];
    assert!(!is_ack(&nack));
    assert_eq!(check_ack(&nack), Err(Error::BadAck));
    assert_eq!(check_ack(&ack[..5]), Err(Error::BadAck));
}

#[test]
fn command_frame_then_parse_as_response() {
    // A frame built for the host direction is no response frame
    let mut driver = Pn532::new(I2CInterfaceWithIrq::new((), ()));
    let frame = driver.command_frame(0x4A, &[0x01, 0x00]).to_vec();
    assert_eq!(parse_response(&frame, 0x4A), Err(Error::BadResponseFrame));
}
