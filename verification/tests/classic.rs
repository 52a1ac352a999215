use catprinterd::protocol::classic::{byte_encode, cmd, cmd_apply_energy, cmd_feed_paper, cmd_get_dev_info, cmd_get_dev_state, cmd_lattice_end, cmd_lattice_start, cmd_print_img_mode, cmd_print_row, cmd_print_text_mode, cmd_set_energy, cmd_set_paper, cmd_set_quality_200dpi, encode_run_length_repetition, is_ready_notification, make_frame, parse_frame, print_stream, print_stream_from_bitmap, run_length_encode, DEFAULT_ENERGY, DEFAULT_FEED_AFTER};
use catprinterd::protocol::crc8;

fn ready_notification_bytes() -> Vec<u8> {
    catprinterd::protocol::classic::ready_notification()
}

fn hex(b: &[u8]) -> String {
    b.iter().map(|x| format!("{x:02x}")).collect()
}

fn unhex(s: &str) -> Vec<u8> {
    (0..s.len())
        .step_by(2)
        .map(|i| u8::from_str_radix(&s[i..i + 2], 16).unwrap())
        .collect()
}

const GET_DEV_STATE: &str = "5178a30001000000ff";
const SET_QUALITY_200_DPI: &str = "5178a4000100329eff";
const GET_DEV_INFO: &str = "5178a80001000000ff";
const LATTICE_START: &str = "5178a6000b00aa551738445f5f5f44382ca1ff";
const LATTICE_END: &str = "5178a6000b00aa5517000000000000001711ff";
const SET_PAPER: &str = "5178a10002003000f9ff";
const PRINT_IMG: &str = "5178be0001000000ff";
const PRINT_TEXT: &str = "5178be0001000107ff";
const FEED_25: &str = "5178bd000100194fff";
const FEED_40: &str = "5178bd00010028d8ff";
const ENERGY_FFFF: &str = "5178af000200ffff24ff";
const ENERGY_1234: &str = "5178af0002001234f1ff";
const APPLY_ENERGY: &str = "5178be0001000107ff";
const ROW_ALL_BLACK: &str = "5178bf000400ffffff83adff";
const ROW_ALT: &str = "5178a2003000555555555555555555555555555555555555555555555555555555555555555555555555555555555555555555555555a5ff";
const ROW_ALL_WHITE: &str = "5178bf0004007f7f7f03a8ff";
const ROW_0_7_8: &str = "5178bf0006008106827f7f79baff";
const ROW_200B_184W: &str = "5178bf000400ffc97f39a8ff";
const STREAM_2ROWS: &str = "5178a30001000000ff5178a4000100329eff5178af000200ffff24ff5178be0001000107ff5178a6000b00aa551738445f5f5f44382ca1ff5178bf000400ffffff83adff5178bf0004007f7f7f03a8ff5178bd000100194fff5178a10002003000f9ff5178a10002003000f9ff5178a10002003000f9ff5178a6000b00aa5517000000000000001711ff5178a30001000000ff";
const STREAM_2ROWS_ENERGY_1234: &str = "5178a30001000000ff5178a4000100329eff5178af0002001234f1ff5178be0001000107ff5178a6000b00aa551738445f5f5f44382ca1ff5178bf000400ffffff83adff5178bf0004007f7f7f03a8ff5178bd000100194fff5178a10002003000f9ff5178a10002003000f9ff5178a10002003000f9ff5178a6000b00aa5517000000000000001711ff5178a30001000000ff";

#[test]
fn fixed_commands_match_upstream() {
    assert_eq!(hex(&cmd_get_dev_state()), GET_DEV_STATE);
    assert_eq!(hex(&cmd_set_quality_200dpi()), SET_QUALITY_200_DPI);
    assert_eq!(hex(&cmd_get_dev_info()), GET_DEV_INFO);
    assert_eq!(hex(&cmd_lattice_start()), LATTICE_START);
    assert_eq!(hex(&cmd_lattice_end()), LATTICE_END);
    assert_eq!(hex(&cmd_set_paper()), SET_PAPER);
    assert_eq!(hex(&cmd_print_img_mode()), PRINT_IMG);
    assert_eq!(hex(&cmd_print_text_mode()), PRINT_TEXT);
    assert_eq!(hex(&cmd_apply_energy()), APPLY_ENERGY);
}

#[test]
fn parameterised_commands_match_upstream() {
    assert_eq!(hex(&cmd_feed_paper(25)), FEED_25);
    assert_eq!(hex(&cmd_feed_paper(40)), FEED_40);
    assert_eq!(hex(&cmd_set_energy(0xFFFF)), ENERGY_FFFF);
    assert_eq!(hex(&cmd_set_energy(0x1234)), ENERGY_1234);
    assert_eq!(hex(&cmd_set_energy(DEFAULT_ENERGY)), ENERGY_FFFF);
}

#[test]
fn frame_layout() {
    let f = make_frame(0xA3, &[0x00]);
    assert_eq!(f[0], 0x51);
    assert_eq!(f[1], 0x78);
    assert_eq!(f[2], 0xA3);
    assert_eq!(f[3], 0x00);
    assert_eq!(u16::from_le_bytes([f[4], f[5]]), 1);
    assert_eq!(f[6], 0x00);
    assert_eq!(f[7], crc8(&[0x00]));
    assert_eq!(f[8], 0xFF);
    let f = make_frame(0xA2, &[0u8; 300]);
    assert_eq!(&f[4..6], &[0x2C, 0x01]);
    assert_eq!(f.len(), 300 + 8);
}

#[test]
fn parse_frame_roundtrip_and_rejects() {
    let (c, p) = parse_frame(&cmd_set_energy(0x1234)).unwrap();
    assert_eq!(c, cmd::SET_ENERGY);
    assert_eq!(p, vec![0x12, 0x34]);
    let (c, p) = parse_frame(&ready_notification_bytes()).unwrap();
    assert_eq!(c, cmd::READY);
    assert_eq!(p, vec![0x00]);
    assert!(parse_frame(&[0x22, 0x21, 0xA1, 0x00, 0x01, 0x00, 0x00, 0x00, 0xFF]).is_none());
    assert!(parse_frame(&[0x51, 0x78, 0xA1, 0x00, 0x05, 0x00, 0x00]).is_none());
    assert!(parse_frame(b"hi").is_none());
}

#[test]
fn ready_notification() {
    assert!(is_ready_notification(&ready_notification_bytes()));
    assert_eq!(hex(&ready_notification_bytes()), "5178ae0101000000ff");
    assert!(!is_ready_notification(&cmd_get_dev_state()));
    assert!(!is_ready_notification(&ready_notification_bytes()[..8]));
}

#[test]
fn rle_matches_upstream() {
    assert_eq!(run_length_encode(&[true; 384]), vec![255, 255, 255, 131]);
    let mut row = vec![true; 200];
    row.extend(vec![false; 184]);
    assert_eq!(run_length_encode(&row), vec![255, 201, 127, 57]);
    assert_eq!(run_length_encode(&[]), Vec::<u8>::new());
    assert_eq!(
        run_length_encode(&[false; 384]),
        vec![0x7F, 0x7F, 0x7F, 0x03]
    );
    assert_eq!(encode_run_length_repetition(0, true), Vec::<u8>::new());
    assert_eq!(encode_run_length_repetition(127, false), vec![0x7F]);
    assert_eq!(encode_run_length_repetition(128, true), vec![0xFF, 0x81]);
}

#[test]
fn byte_encode_lsb_first() {
    let mut row = vec![false; 384];
    row[0] = true;
    row[7] = true;
    row[8] = true;
    let b = byte_encode(&row);
    assert_eq!(b.len(), 48);
    assert_eq!(b[0], 0x81);
    assert_eq!(b[1], 0x01);
    assert_eq!(b[2..].iter().map(|&x| x as u32).sum::<u32>(), 0);
    let alt: Vec<bool> = (0..384).map(|i| i % 2 == 0).collect();
    assert_eq!(byte_encode(&alt), vec![0x55; 48]);
    assert_eq!(byte_encode(&[true, false, true]), vec![0x05]);
}

#[test]
fn print_row_matches_upstream() {
    assert_eq!(hex(&cmd_print_row(&[true; 384])), ROW_ALL_BLACK);
    assert_eq!(hex(&cmd_print_row(&[false; 384])), ROW_ALL_WHITE);
    let alt: Vec<bool> = (0..384).map(|i| i % 2 == 0).collect();
    assert_eq!(hex(&cmd_print_row(&alt)), ROW_ALT);
    let mut row = vec![false; 384];
    row[0] = true;
    row[7] = true;
    row[8] = true;
    assert_eq!(hex(&cmd_print_row(&row)), ROW_0_7_8);
    let mut row = vec![true; 200];
    row.extend(vec![false; 184]);
    assert_eq!(hex(&cmd_print_row(&row)), ROW_200B_184W);
}

#[test]
fn print_row_picks_raw_when_rle_is_longer_than_48() {
    let row: Vec<bool> = (0..384).map(|i| (i / 4) % 2 == 0).collect();
    let f = cmd_print_row(&row);
    assert_eq!(f[2], cmd::DRAW_BITMAP);
    assert_eq!(u16::from_le_bytes([f[4], f[5]]), 48);
    assert_eq!(f.len(), 48 + 8);
    let row: Vec<bool> = (0..384).map(|i| (i / 32) % 2 == 0).collect();
    let f = cmd_print_row(&row);
    assert_eq!(f[2], cmd::DRAW_BITMAP_RLE);
    assert_eq!(u16::from_le_bytes([f[4], f[5]]), 12);
}

#[test]
fn print_stream_matches_upstream() {
    let rows = [vec![true; 384], vec![false; 384]];
    assert_eq!(
        hex(&print_stream(
            &rows,
            DEFAULT_ENERGY,
            DEFAULT_FEED_AFTER
        )),
        STREAM_2ROWS
    );
    assert_eq!(
        hex(&print_stream(&rows, 0x1234, DEFAULT_FEED_AFTER)),
        STREAM_2ROWS_ENERGY_1234
    );
    let mut bits = vec![true; 384];
    bits.extend(vec![false; 384]);
    assert_eq!(
        hex(&print_stream_from_bitmap(
            &bits,
            384,
            DEFAULT_ENERGY,
            DEFAULT_FEED_AFTER
        )),
        STREAM_2ROWS
    );
    assert_eq!(
        print_stream_from_bitmap(&bits, 384, DEFAULT_ENERGY, DEFAULT_FEED_AFTER),
        unhex(STREAM_2ROWS)
    );
}

#[test]
fn print_stream_structure() {
    let s = print_stream(&Vec::<Vec<bool>>::new(), DEFAULT_ENERGY, 25);
    let expect = [
        hex(&cmd_get_dev_state()),
        hex(&cmd_set_quality_200dpi()),
        hex(&cmd_set_energy(0xFFFF)),
        hex(&cmd_apply_energy()),
        hex(&cmd_lattice_start()),
        hex(&cmd_feed_paper(25)),
        hex(&cmd_set_paper()),
        hex(&cmd_set_paper()),
        hex(&cmd_set_paper()),
        hex(&cmd_lattice_end()),
        hex(&cmd_get_dev_state()),
    ]
    .concat();
    assert_eq!(hex(&s), expect);
}

#[test]
fn no_frame_is_taken_for_ready() {
    assert!(!is_ready_notification(&make_frame(0xAE, &[0])));
    assert!(!is_ready_notification(&make_frame(0xAE, &[])));
    let mut near = ready_notification_bytes();
    near[3] = 0;
    assert!(!is_ready_notification(&near));
    assert_eq!(near, make_frame(0xAE, &[0]));
}
