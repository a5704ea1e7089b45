use clipforge::yuv::Yuv420;

fn solid(w: u32, h: u32, rgb: [u8; 3]) -> Vec<u8> {
    let mut v = Vec::new();
    for _ in 0..(w * h) {
        v.extend_from_slice(&[rgb[0], rgb[1], rgb[2], 255]);
    }
    v
}

fn yuv_of(rgb: [u8; 3]) -> (u8, u8, u8) {
    let y = Yuv420::from_rgba(2, 2, &solid(2, 2, rgb));
    (y.data[0], y.data[4], y.data[5])
}

#[test]
fn limited_range_black_white_and_primaries() {
    assert_eq!(yuv_of([0, 0, 0]), (16, 128, 128));
    assert_eq!(yuv_of([255, 255, 255]), (235, 128, 128));
    let (y, u, v) = yuv_of([255, 0, 0]);
    assert!((62..=64).contains(&y) && (100..=103).contains(&u) && (239..=241).contains(&v), "{y} {u} {v}");
    let (y, u, v) = yuv_of([0, 0, 255]);
    assert!((31..=33).contains(&y) && (239..=241).contains(&u) && (117..=119).contains(&v), "{y} {u} {v}");
    let (y, ..) = yuv_of([128, 128, 128]);
    assert!((125..=127).contains(&y));
}

#[test]
fn layout_and_sizes() {
    let y = Yuv420::from_rgba(4, 2, &solid(4, 2, [10, 20, 30]));
    assert_eq!(y.data.len(), Yuv420::byte_len(4, 2));
    assert_eq!(y.data.len(), 8 + 2 * 2);
    assert_eq!(Yuv420::byte_len(1920, 1080), 1920 * 1080 * 3 / 2);
    let odd = Yuv420::from_rgba(3, 3, &solid(3, 3, [0, 0, 0]));
    assert_eq!(odd.data.len(), 9 + 2 * 4);
    assert_eq!((odd.width, odd.height), (3, 3));
    assert_eq!(Yuv420::byte_len(0, 0), 0);
    assert!(Yuv420::from_rgba(0, 5, &[]).data.is_empty());
}

#[test]
fn chroma_is_averaged_over_the_block() {
    let mut f = solid(2, 2, [0, 0, 0]);
    f[0..4].copy_from_slice(&[255, 0, 0, 255]);
    let y = Yuv420::from_rgba(2, 2, &f);
    let v = y.data[5];
    assert!((150..=160).contains(&v), "{v}");
    assert_eq!(y.data[0], 63, "the red pixel's own luma");
    assert_eq!(y.data[1], 16);
}
