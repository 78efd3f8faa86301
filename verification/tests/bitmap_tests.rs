use openuuyc::dib::{dib_to_rgba, rgba_to_dib, DibError};

fn header(size: u32, width: i32, height: i32, depth: u16, compression: u32) -> Vec<u8> {
    let mut h = Vec::new();
    h.extend_from_slice(&size.to_le_bytes());
    h.extend_from_slice(&width.to_le_bytes());
    h.extend_from_slice(&height.to_le_bytes());
    h.extend_from_slice(&1u16.to_le_bytes());
    h.extend_from_slice(&depth.to_le_bytes());
    h.extend_from_slice(&compression.to_le_bytes());
    h.resize(size as usize, 0);
    h
}

#[test]
fn bottom_up_24_bit_rows_are_flipped_and_made_opaque() {
    let mut dib = header(40, 2, 2, 24, 0);
    // Bottom row first, each row padded to 8 bytes.
    dib.extend_from_slice(&[1, 2, 3, 4, 5, 6, 0, 0]);
    dib.extend_from_slice(&[7, 8, 9, 10, 11, 12, 0, 0]);
    let (w, h, rgba) = dib_to_rgba(&dib).unwrap();
    assert_eq!((w, h), (2, 2));
    assert_eq!(
        rgba,
        vec![9, 8, 7, 255, 12, 11, 10, 255, 3, 2, 1, 255, 6, 5, 4, 255]
    );
}

#[test]
fn top_down_32_bit_with_zero_alpha_is_opaque() {
    let mut dib = header(40, 1, -2, 32, 0);
    dib.extend_from_slice(&[10, 20, 30, 0, 40, 50, 60, 0]);
    let (w, h, rgba) = dib_to_rgba(&dib).unwrap();
    assert_eq!((w, h), (1, 2));
    assert_eq!(rgba, vec![30, 20, 10, 255, 60, 50, 40, 255]);
}

#[test]
fn alpha_is_kept_when_any_pixel_has_it() {
    let mut dib = header(40, 2, -1, 32, 0);
    dib.extend_from_slice(&[10, 20, 30, 0, 40, 50, 60, 128]);
    let (_, _, rgba) = dib_to_rgba(&dib).unwrap();
    assert_eq!(rgba, vec![30, 20, 10, 0, 60, 50, 40, 128]);
}

#[test]
fn bitfield_masks_are_skipped() {
    let mut dib = header(40, 1, -1, 32, 3);
    dib.extend_from_slice(&[0; 12]);
    dib.extend_from_slice(&[1, 2, 3, 4]);
    let (_, _, rgba) = dib_to_rgba(&dib).unwrap();
    assert_eq!(rgba, vec![3, 2, 1, 4]);
}

#[test]
fn bitmap_errors() {
    assert_eq!(dib_to_rgba(&[0; 39]).err(), Some(DibError::TooShort));
    assert_eq!(dib_to_rgba(&header(40, 1, 1, 24, 0)).err(), Some(DibError::Header));
    let mut small = header(40, 1, 1, 24, 0);
    small[0] = 12;
    assert_eq!(dib_to_rgba(&small).err(), Some(DibError::Header));
    let mut d = header(40, 1, 1, 16, 0);
    d.extend_from_slice(&[0; 4]);
    assert_eq!(dib_to_rgba(&d).err(), Some(DibError::Depth));
    let mut d = header(40, 1, 1, 24, 1);
    d.extend_from_slice(&[0; 4]);
    assert_eq!(dib_to_rgba(&d).err(), Some(DibError::Compressed));
    let mut d = header(40, i32::MIN, 1, 24, 0);
    d.extend_from_slice(&[0; 4]);
    assert_eq!(dib_to_rgba(&d).err(), Some(DibError::Width));
    let mut d = header(40, 1, i32::MIN, 24, 0);
    d.extend_from_slice(&[0; 4]);
    assert_eq!(dib_to_rgba(&d).err(), Some(DibError::Height));
    let mut d = header(40, 0, 1, 24, 0);
    d.extend_from_slice(&[0; 4]);
    assert_eq!(dib_to_rgba(&d).err(), Some(DibError::Size));
    let mut d = header(40, 40000, 1, 24, 0);
    d.extend_from_slice(&[0; 4]);
    assert_eq!(dib_to_rgba(&d).err(), Some(DibError::Size));
    let mut d = header(40, 2, 2, 24, 0);
    d.extend_from_slice(&[0; 15]);
    assert_eq!(dib_to_rgba(&d).err(), Some(DibError::Incomplete));
}

#[test]
fn rgba_is_packed_bottom_up_as_bgra() {
    let dib = rgba_to_dib(1, 2, &[1, 2, 3, 4, 5, 6, 7, 8]).unwrap();
    assert_eq!(dib.len(), 48);
    assert_eq!(&dib[0..4], &40u32.to_le_bytes());
    assert_eq!(&dib[4..8], &1i32.to_le_bytes());
    assert_eq!(&dib[8..12], &2i32.to_le_bytes());
    assert_eq!(&dib[12..14], &1u16.to_le_bytes());
    assert_eq!(&dib[14..16], &32u16.to_le_bytes());
    assert_eq!(&dib[20..24], &8u32.to_le_bytes());
    assert_eq!(&dib[40..], &[7, 6, 5, 8, 3, 2, 1, 4]);
}

#[test]
fn image_errors() {
    assert_eq!(rgba_to_dib(0, 1, &[]).err(), Some(DibError::ImageSize));
    assert_eq!(rgba_to_dib(2, 1, &[0; 7]).err(), Some(DibError::ImageIncomplete));
    let big = vec![0u8; 4097 * 2048 * 4];
    assert_eq!(rgba_to_dib(4097, 2048, &big).err(), Some(DibError::ImageTooLarge));
}

#[test]
fn image_round_trips_through_a_bitmap() {
    let rgba: Vec<u8> = (0..24).map(|i| i as u8 * 7 + 1).collect();
    let dib = rgba_to_dib(3, 2, &rgba).unwrap();
    assert_eq!(dib_to_rgba(&dib).unwrap(), (3, 2, rgba));
}

#[test]
fn bitmap_error_messages() {
    assert_eq!(DibError::TooShort.message(), "位图数据过短");
    assert_eq!(DibError::ImageTooLarge.message(), "图片过大");
}
