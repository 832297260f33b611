use tuika::buffer::{Buffer, Cell};
use tuika::components::qr::{encode, Gf, QrCode, QrEcc};
use tuika::geometry::{Position, Rect, Size};
use tuika::style::{Color, Theme};
use tuika::surface::Surface;
use tuika::view::{RenderCtx, View};

fn at(buffer: &Buffer, x: u16, y: u16) -> &Cell {
    buffer
        .cell(Position::new(x, y))
        .expect("position out of the buffer's area")
}

fn render<V: View>(view: &V, width: u16, height: u16, theme: &Theme) -> Buffer {
    let buffer = Buffer::empty(Rect::new(0, 0, width, height));
    let area = buffer.area;
    let mut surface = Surface::new(buffer, area);
    view.render(area, &mut surface, &RenderCtx::new(theme));
    surface.into_buffer()
}

#[test]
fn gf_tables_are_consistent() {
    let gf = Gf::new();
    for a in 1u16..256 {
        assert_eq!(gf.exp[gf.log[a as usize] as usize], a as u8);
    }
    assert_eq!(gf.mul(2, 2), 4);
    assert_eq!(gf.mul(0x53, 0xCA), gf.mul(0xCA, 0x53));
    assert_eq!(gf.mul(0xAB, 1), 0xAB);
}

#[test]
fn rs_ecc_has_expected_length_and_is_deterministic() {
    let gf = Gf::new();
    let data = [0x10, 0x20, 0x0c, 0x56, 0x61, 0x80, 0xec, 0x11];
    let a = gf.rs_ecc(&data, 10);
    let b = gf.rs_ecc(&data, 10);
    assert_eq!(a.len(), 10);
    assert_eq!(a, b);
}

#[test]
fn rs_generator_and_ecc_match_known_vectors() {
    let gf = Gf::new();
    assert_eq!(gf.rs_generator(2), vec![1, 3, 2]);
    let data = [
        0x10, 0x20, 0x0c, 0x56, 0x61, 0x80, 0xec, 0x11, 0xec, 0x11, 0xec, 0x11, 0xec, 0x11, 0xec,
        0x11,
    ];
    assert_eq!(
        gf.rs_ecc(&data, 10),
        vec![0xa5, 0x24, 0xd4, 0xc1, 0xed, 0x36, 0xc7, 0x87, 0x2c, 0x55]
    );
}

fn finder_at(m: &[Vec<bool>], ox: usize, oy: usize) -> bool {
    for dy in 0..7 {
        for dx in 0..7 {
            let dist = (dx as i32 - 3).abs().max((dy as i32 - 3).abs());
            let want = dist != 2;
            if m[oy + dy][ox + dx] != want {
                return false;
            }
        }
    }
    true
}

#[test]
fn encodes_url_to_valid_v1_matrix_with_finders() {
    let m = encode(b"HELLO", QrEcc::Medium).expect("fits v1");
    assert_eq!(m.len(), 21);
    assert!(m.iter().all(|r| r.len() == 21));
    assert!(finder_at(&m, 0, 0), "top-left finder");
    assert!(finder_at(&m, 14, 0), "top-right finder");
    assert!(finder_at(&m, 0, 14), "bottom-left finder");
    assert!(m[21 - 8][8], "dark module present");
}

#[test]
fn version_grows_with_payload_and_caps_at_v4() {
    let small = encode(b"hi", QrEcc::Low).unwrap().len();
    let bigger = encode(&[b'x'; 40], QrEcc::Low).unwrap().len();
    assert!(bigger > small, "{bigger} should exceed {small}");
    assert!(encode(&[b'a'; 78], QrEcc::Low).is_some());
    assert!(encode(&[b'a'; 79], QrEcc::Low).is_none());
}

#[test]
fn timing_patterns_alternate() {
    let m = encode(b"test", QrEcc::Low).unwrap();
    let size = m.len();
    for i in 8..size - 8 {
        assert_eq!(m[6][i], i % 2 == 0, "timing row at {i}");
        assert_eq!(m[i][6], i % 2 == 0, "timing col at {i}");
    }
}

#[test]
fn renders_half_blocks_with_quiet_zone() {
    let theme = Theme::default();
    let ctx = RenderCtx::new(&theme);
    let qr = QrCode::encode("HI", QrEcc::Low).unwrap();
    let size = qr.measure(Size::new(80, 40), &ctx);
    assert_eq!((size.width, size.height), (29, 15));
    let buf = render(&qr, 29, 15, &theme);
    assert_eq!(at(&buf, 0, 0).symbol(), "▀");
    assert_eq!(at(&buf, 0, 0).fg, Color::Rgb(255, 255, 255));
}

#[test]
fn from_matrix_and_custom_colors_do_not_panic() {
    let theme = Theme::default();
    let m = vec![vec![true, false], vec![false, true]];
    let qr = QrCode::from_matrix(m)
        .quiet_zone(1)
        .colors(Color::Rgb(1, 2, 3), Color::Rgb(4, 5, 6));
    for (w, h) in [(0u16, 0u16), (1, 1), (2, 2)] {
        let _ = render(&qr, w, h, &theme);
    }
}

#[test]
fn versions_follow_capacity_at_each_level() {
    // Version 1 holds 17 payload bytes at Low (19 data codewords less the
    // two header bytes) and 7 at High.
    assert_eq!(encode(&[0u8; 17], QrEcc::Low).unwrap().len(), 21);
    assert_eq!(encode(&[0u8; 18], QrEcc::Low).unwrap().len(), 25);
    assert_eq!(encode(&[0u8; 7], QrEcc::High).unwrap().len(), 21);
    assert_eq!(encode(&[0u8; 8], QrEcc::High).unwrap().len(), 25);
    assert!(encode(&[0u8; 35], QrEcc::High).is_none());
    assert_eq!(QrEcc::default(), QrEcc::Medium);
}
