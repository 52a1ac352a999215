use std::time::Duration;

use catprinterd::protocol::mxw01::{bytes_per_row, cmd_eject, cmd_flush, cmd_get_battery, cmd_get_status, cmd_get_version, cmd_print_request, cmd_retract, cmd_set_intensity, data_chunk_size, gray_to_level, make_command, min_data_bytes, mode_byte, pack_1bpp, pack_1bpp_from_gray, pack_4bpp, parse_notification, parse_status, print_complete_timeout, Cmd, ProtocolError, State, StatusError, CONNECT_ATTEMPTS, CONNECT_TIMEOUT_S, DEFAULT_INTENSITY, LIVE_CONNECT_TIMEOUT_S, MIN_DATA_BYTES, MIN_DATA_BYTES_4BPP, ROW_BYTES_1BPP, ROW_BYTES_4BPP, WIDTH};
use catprinterd::protocol::{crc8, PrintMode};

#[test]
fn connect_attempt_constants_are_the_public_contract() {
    assert_eq!(CONNECT_TIMEOUT_S, 12);
    assert_eq!(CONNECT_ATTEMPTS, 3);
    assert!(LIVE_CONNECT_TIMEOUT_S < CONNECT_TIMEOUT_S);
    assert!(LIVE_CONNECT_TIMEOUT_S >= 6);
}

#[test]
fn crc8_empty_and_zero() {
    assert_eq!(crc8(&[]), 0x00);
    assert_eq!(crc8(&[0x00]), 0x00);
}

#[test]
fn crc8_known_payload() {
    assert_eq!(crc8(&[0x5D]), 0x94);
}

#[test]
fn make_command_status_layout() {
    let pkt = cmd_get_status();
    assert_eq!(pkt[0], 0x22);
    assert_eq!(pkt[1], 0x21);
    assert_eq!(pkt[2], Cmd::GetStatus.as_u8());
    assert_eq!(pkt[3], 0x00);
    assert_eq!(u16::from_le_bytes([pkt[4], pkt[5]]), 1);
    assert_eq!(pkt[6], 0x00);
    assert_eq!(pkt[7], crc8(&[0x00]));
    assert_eq!(pkt[8], 0xFF);
    assert_eq!(pkt.len(), 9);
}

#[test]
fn make_command_rejects_huge_payload() {
    let big = vec![0u8; 0x1_0000];
    assert_eq!(
        make_command(0xA1, &big),
        Err(ProtocolError::PayloadTooLarge(0x1_0000))
    );
    assert!(make_command(0xA1, &big[..0xFFFF]).is_ok());
}

#[test]
fn print_request_line_count() {
    let pkt = cmd_print_request(384, PrintMode::Mono);
    let payload = &pkt[6..pkt.len() - 2];
    assert_eq!(u16::from_le_bytes([payload[0], payload[1]]), 384);
    assert_eq!(payload[2], 0x30);
    assert_eq!(payload[3], 0x00);
    assert_eq!(pkt[pkt.len() - 2], crc8(payload));
    assert_eq!(pkt[pkt.len() - 1], 0xFF);
}

#[test]
fn print_request_grayscale_mode() {
    let pkt = cmd_print_request(100, PrintMode::Gray4);
    let payload = &pkt[6..pkt.len() - 2];
    assert_eq!(u16::from_le_bytes([payload[0], payload[1]]), 100);
    assert_eq!(payload[3], 0x02);
    assert_eq!(mode_byte(PrintMode::Mono), 0x00);
    assert_eq!(mode_byte(PrintMode::Gray4), 0x02);
}

#[test]
fn set_intensity_byte() {
    assert_eq!(cmd_set_intensity(0xFF)[6], 0xFF);
    assert_eq!(cmd_set_intensity(0x00)[6], 0x00);
    assert_eq!(cmd_set_intensity(DEFAULT_INTENSITY)[6], 0x5D);
    assert_eq!(cmd_set_intensity(0x5D)[7], 0x94);
}

#[test]
fn eject_retract_flush_battery_version() {
    let e = cmd_eject(0x1234);
    assert_eq!(e[2], 0xA3);
    assert_eq!(&e[6..8], &[0x34, 0x12]);
    let r = cmd_retract(40);
    assert_eq!(r[2], 0xA4);
    assert_eq!(&r[6..8], &[40, 0]);
    assert_eq!(cmd_flush()[2], 0xAD);
    assert_eq!(cmd_flush()[6], 0x00);
    assert_eq!(cmd_get_battery()[2], 0xAB);
    assert_eq!(cmd_get_version()[2], 0xB1);
}

#[test]
fn parse_notification_roundtrip() {
    let pkt = cmd_get_status();
    let parsed = parse_notification(&pkt).expect("frame");
    assert_eq!(parsed.cmd, Cmd::GetStatus.as_u8());
    assert_eq!(parsed.payload, vec![0x00]);
    assert_eq!(Cmd::from_u8(parsed.cmd), Some(Cmd::GetStatus));
}

#[test]
fn parse_rejects_garbage() {
    assert!(parse_notification(b"hello").is_none());
    assert!(
        parse_notification(&[0x51, 0x78, 0xA1, 0x00, 0x01, 0x00, 0x00, 0x00, 0xFF]).is_none()
    );
    assert!(parse_notification(&[0x22, 0x21, 0xA1, 0x00, 0x05, 0x00, 0x00]).is_none());
    assert!(parse_notification(&[0x22, 0x21, 0xA1]).is_none());
}

#[test]
fn cmd_from_u8_covers_all_ids() {
    for (b, c) in [
        (0xA1, Cmd::GetStatus),
        (0xA2, Cmd::Intensity),
        (0xA3, Cmd::Eject),
        (0xA4, Cmd::Retract),
        (0xA7, Cmd::QueryCount),
        (0xA9, Cmd::Print),
        (0xAA, Cmd::PrintComplete),
        (0xAB, Cmd::Battery),
        (0xAC, Cmd::CancelPrint),
        (0xAD, Cmd::Flush),
        (0xB0, Cmd::GetPrintType),
        (0xB1, Cmd::GetVersion),
    ] {
        assert_eq!(Cmd::from_u8(b), Some(c));
        assert_eq!(c.as_u8(), b);
    }
    assert_eq!(Cmd::from_u8(0x00), None);
}

fn payload(state: u8, battery: u8, temp: u8, ok: u8, error: u8, length: usize) -> Vec<u8> {
    let mut data = vec![0u8; length];
    data[0] = state;
    if length > 3 {
        data[3] = battery;
    }
    if length > 4 {
        data[4] = temp;
    }
    if length > 6 {
        data[6] = ok;
    }
    if length > 7 {
        data[7] = error;
    }
    data
}

#[test]
fn status_ok_standby() {
    let status = parse_status(&payload(0, 80, 25, 0, 0, 8));
    assert!(status.ok);
    assert_eq!(status.state, State::Standby);
    assert_eq!(status.state.name(), "standby");
    assert_eq!(status.battery, Some(80));
    assert_eq!(status.temperature, Some(25));
    assert_eq!(status.error, None);
    assert!(status.kid_message().to_lowercase().contains("ready"));
    assert_eq!(status.kid_message(), "Printer ready (standby, battery 80%)");
    assert_eq!(status.error_key(), None);
}

#[test]
fn status_no_paper() {
    let status = parse_status(&payload(0, 80, 25, 1, 0x01, 8));
    assert!(!status.ok);
    assert_eq!(status.error, Some(StatusError::NoPaper));
    assert_eq!(status.error.unwrap().name(), "no paper");
    assert!(status.kid_message().to_lowercase().contains("paper"));
    assert_eq!(status.kid_message(), "The cat printer is out of paper.");
    assert_eq!(status.error_key(), Some("no-paper"));
    let status = parse_status(&payload(0, 80, 25, 1, 0x09, 8));
    assert_eq!(status.error, Some(StatusError::NoPaper));
}

#[test]
fn status_overheat() {
    let status = parse_status(&payload(0, 80, 25, 1, 0x04, 8));
    assert_eq!(status.error, Some(StatusError::Overheated));
    assert_eq!(status.error.unwrap().name(), "overheated");
    assert_eq!(
        status.kid_message(),
        "The cat printer is too hot. Give it a minute."
    );
    assert_eq!(status.error_key(), Some("overheated"));
}

#[test]
fn status_low_battery() {
    let status = parse_status(&payload(0, 5, 25, 1, 0x08, 8));
    assert_eq!(status.error, Some(StatusError::LowBattery));
    assert_eq!(status.error.unwrap().name(), "low battery");
    assert_eq!(
        status.kid_message(),
        "The cat printer battery is low. Charge it."
    );
    assert_eq!(status.error_key(), Some("low-battery"));
}

#[test]
fn status_unknown_error_and_short_payload() {
    let status = parse_status(&payload(1, 80, 25, 1, 0x42, 8));
    assert_eq!(status.error, Some(StatusError::Other(0x42)));
    assert_eq!(status.error.unwrap().name(), "error 0x42");
    assert_eq!(status.state, State::Printing);
    assert_eq!(
        status.kid_message(),
        "The cat printer is not ready. Turn it on and check the paper."
    );
    assert_eq!(status.error_key(), Some("other"));
    let status = parse_status(&payload(0, 80, 25, 1, 0, 7));
    assert!(!status.ok);
    assert_eq!(status.error, None);
    assert_eq!(status.error_key(), Some("other"));
    let status = parse_status(&[0x00, 0x00]);
    assert!(!status.ok);
    assert_eq!(status.error, Some(StatusError::ShortPayload));
    assert_eq!(status.battery, None);
    assert_eq!(status.raw, vec![0x00, 0x00]);
}

#[test]
fn state_names() {
    assert_eq!(State::from_u8(2), State::Feeding);
    assert_eq!(State::from_u8(3).name(), "ejecting");
    assert_eq!(State::from_u8(0x7A), State::Unknown(0x7A));
    assert_eq!(State::from_u8(0x7A).name(), "0x7A");
}

fn row_of(v: bool) -> Vec<bool> {
    vec![v; WIDTH]
}

#[test]
fn pack_1bpp_row_all_white() {
    let packed = pack_1bpp(&row_of(false), WIDTH, false).unwrap();
    assert_eq!(packed.len(), ROW_BYTES_1BPP);
    assert_eq!(packed, vec![0x00; ROW_BYTES_1BPP]);
}

#[test]
fn pack_1bpp_row_all_black() {
    let packed = pack_1bpp(&row_of(true), WIDTH, false).unwrap();
    assert_eq!(packed, vec![0xFF; ROW_BYTES_1BPP]);
}

#[test]
fn pack_1bpp_lsb_is_leftmost_pixel() {
    let mut row = row_of(false);
    row[0] = true;
    let packed = pack_1bpp(&row, WIDTH, false).unwrap();
    assert_eq!(packed[0], 0x01);
    assert_eq!(packed[1..].iter().map(|&b| b as u32).sum::<u32>(), 0);
}

#[test]
fn pack_1bpp_wrong_width() {
    assert_eq!(
        pack_1bpp(&[true; 10], 10, false),
        Err(ProtocolError::BadWidth {
            expected: 384,
            got: 10
        })
    );
    let mut bits = row_of(false);
    bits.push(true);
    assert!(matches!(
        pack_1bpp(&bits, WIDTH, false),
        Err(ProtocolError::NotWholeRows { .. })
    ));
    assert_eq!(pack_1bpp(&[], WIDTH, false), Err(ProtocolError::Empty));
}

#[test]
fn pack_1bpp_padding_to_minimum() {
    let rows = vec![false; WIDTH * 10];
    let buf = pack_1bpp(&rows, WIDTH, true).unwrap();
    assert_eq!(buf.len(), MIN_DATA_BYTES);
    assert_eq!(buf, vec![0x00; MIN_DATA_BYTES]);
}

#[test]
fn pack_1bpp_no_pad_when_tall_enough() {
    let rows = vec![false; WIDTH * 100];
    let buf = pack_1bpp(&rows, WIDTH, true).unwrap();
    assert_eq!(buf.len(), 100 * ROW_BYTES_1BPP);
}

#[test]
fn pack_1bpp_matches_bit_loop() {
    let mut row = row_of(false);
    row[0] = true;
    row[7] = true;
    row[8] = true;
    let packed = pack_1bpp(&row, WIDTH, false).unwrap();
    assert_eq!(packed[0], 0x81);
    assert_eq!(packed[1], 0x01);
}

#[test]
fn pack_1bpp_from_gray_thresholds() {
    let mut gray = vec![255u8; WIDTH * 2];
    gray[0] = 0;
    gray[WIDTH + 383] = 10;
    let packed = pack_1bpp_from_gray(&gray, WIDTH, 2, false, |g| g < 128).unwrap();
    assert_eq!(packed.len(), 2 * ROW_BYTES_1BPP);
    assert_eq!(packed[0], 0x01);
    assert_eq!(packed[ROW_BYTES_1BPP + 47], 0x80);
    assert!(matches!(
        pack_1bpp_from_gray(&gray, WIDTH, 3, false, |g| g < 128),
        Err(ProtocolError::NotWholeRows { .. })
    ));
}

#[test]
fn chunk_size_aligns_to_rows() {
    assert_eq!(data_chunk_size(20, false, ROW_BYTES_1BPP), 48);
    assert_eq!(data_chunk_size(200, true, ROW_BYTES_1BPP), 48);
    assert_eq!(data_chunk_size(509, false, ROW_BYTES_1BPP), 480);
    assert_eq!(data_chunk_size(48, false, ROW_BYTES_1BPP), 48);
}

#[test]
fn chunk_size_4bpp_aligns_to_192() {
    assert_eq!(data_chunk_size(509, false, ROW_BYTES_4BPP), 384);
    assert_eq!(data_chunk_size(200, true, ROW_BYTES_4BPP), 192);
    assert_eq!(bytes_per_row(PrintMode::Gray4), 192);
    assert_eq!(bytes_per_row(PrintMode::Mono), 48);
    assert_eq!(min_data_bytes(PrintMode::Mono), 4320);
    assert_eq!(min_data_bytes(PrintMode::Gray4), 17280);
}

#[test]
fn print_complete_timeout_scales_with_lines() {
    assert_eq!(Duration::from_nanos(print_complete_timeout(0)), Duration::from_secs(15));
    assert_eq!(Duration::from_nanos(print_complete_timeout(150)), Duration::from_secs(25));
    assert_eq!(
        Duration::from_nanos(print_complete_timeout(4000)),
        Duration::from_secs(15) + Duration::from_secs_f64(4000.0 / 15.0)
    );
}

#[test]
fn pack_4bpp_row_all_white() {
    let packed = pack_4bpp(&vec![0u8; WIDTH], WIDTH, false).unwrap();
    assert_eq!(packed.len(), ROW_BYTES_4BPP);
    assert_eq!(packed, vec![0x00; ROW_BYTES_4BPP]);
}

#[test]
fn pack_4bpp_row_all_black() {
    let packed = pack_4bpp(&vec![15u8; WIDTH], WIDTH, false).unwrap();
    assert_eq!(packed, vec![0xFF; ROW_BYTES_4BPP]);
}

#[test]
fn pack_4bpp_even_x_is_high_nibble() {
    let mut row = vec![0u8; WIDTH];
    row[0] = 0xA;
    row[1] = 0x3;
    let packed = pack_4bpp(&row, WIDTH, false).unwrap();
    assert_eq!(packed[0], 0xA3);
    assert_eq!(packed[1..].iter().map(|&b| b as u32).sum::<u32>(), 0);
}

#[test]
fn pack_4bpp_maikelchan_formula() {
    let mut row = vec![0u8; WIDTH];
    row[0] = 15;
    row[2] = 1;
    let packed = pack_4bpp(&row, WIDTH, false).unwrap();
    let mut expect = vec![0u8; ROW_BYTES_4BPP];
    for (x, &level) in row.iter().enumerate() {
        expect[x >> 1] |= level << (((x & 1) ^ 1) << 2);
    }
    assert_eq!(packed, expect);
}

#[test]
fn pack_4bpp_padding_to_minimum() {
    let rows = vec![0u8; WIDTH * 10];
    let buf = pack_4bpp(&rows, WIDTH, true).unwrap();
    assert_eq!(buf.len(), MIN_DATA_BYTES_4BPP);
    let rows = vec![0u8; WIDTH * 100];
    let buf = pack_4bpp(&rows, WIDTH, true).unwrap();
    assert_eq!(buf.len(), 100 * ROW_BYTES_4BPP);
}

#[test]
fn pack_4bpp_wrong_width_and_clamp() {
    assert_eq!(
        pack_4bpp(&[1, 2, 3], 3, false),
        Err(ProtocolError::BadWidth {
            expected: 384,
            got: 3
        })
    );
    assert_eq!(pack_4bpp(&[], WIDTH, false), Err(ProtocolError::Empty));
    let mut row = vec![0u8; WIDTH];
    row[0] = 200;
    let packed = pack_4bpp(&row, WIDTH, false).unwrap();
    assert_eq!(packed[0], 0xF0);
}

#[test]
fn gray_to_level_endpoints() {
    assert_eq!(gray_to_level(255), 0);
    assert_eq!(gray_to_level(0), 15);
    assert_eq!(gray_to_level(128), 7);
    assert_eq!(gray_to_level(240), 0);
    assert_eq!(gray_to_level(239), 1);
}
