use spinning_cube::buffer::{FrameBuffer, Glyph};

#[test]
fn new_buffer_is_blank() {
    let buf = FrameBuffer::new(4, 3);
    assert_eq!(buf.width(), 4);
    assert_eq!(buf.height(), 3);
    for y in 0..3 {
        for x in 0..4 {
            assert_eq!(buf.get(x, y), Some(Glyph::Blank));
        }
    }
}

#[test]
fn glyph_bytes_are_space_dollar_hash() {
    assert_eq!(Glyph::Blank.to_byte(), b' ');
    assert_eq!(Glyph::Marker.to_byte(), b'$');
    assert_eq!(Glyph::Line.to_byte(), b'#');
}

#[test]
fn get_outside_the_grid_is_none() {
    let buf = FrameBuffer::new(4, 3);
    assert_eq!(buf.get(-1, 0), None);
    assert_eq!(buf.get(0, -1), None);
    assert_eq!(buf.get(4, 0), None);
    assert_eq!(buf.get(0, 3), None);
    assert_eq!(buf.get(i32::MIN, i32::MIN), None);
    assert_eq!(buf.get(i32::MAX, i32::MAX), None);
    assert_eq!(buf.get(3, 2), Some(Glyph::Blank));
}

#[test]
fn plot_writes_one_cell() {
    let mut buf = FrameBuffer::new(4, 3);
    buf.plot(2, 1, Glyph::Marker);
    for y in 0..3 {
        for x in 0..4 {
            let expected = if (x, y) == (2, 1) { Glyph::Marker } else { Glyph::Blank };
            assert_eq!(buf.get(x, y), Some(expected));
        }
    }
}

#[test]
fn plot_reaches_every_corner_of_the_grid() {
    let mut buf = FrameBuffer::new(4, 3);
    buf.plot(0, 0, Glyph::Line);
    buf.plot(3, 0, Glyph::Line);
    buf.plot(0, 2, Glyph::Line);
    buf.plot(3, 2, Glyph::Line);
    assert_eq!(buf.row(0), Some(b"#  #".to_vec()));
    assert_eq!(buf.row(1), Some(b"    ".to_vec()));
    assert_eq!(buf.row(2), Some(b"#  #".to_vec()));
}

#[test]
fn plot_outside_the_grid_changes_nothing() {
    let mut buf = FrameBuffer::new(4, 3);
    buf.plot(1, 1, Glyph::Marker);
    let outside = [
        (-1, 0),
        (0, -1),
        (4, 0),
        (0, 3),
        (4, 3),
        (-1, -1),
        (i32::MIN, 0),
        (0, i32::MIN),
        (i32::MAX, 0),
        (0, i32::MAX),
        (i32::MAX, i32::MAX),
        (65536, 1),
        (1, 65536),
    ];
    for (x, y) in outside {
        buf.plot(x, y, Glyph::Line);
    }
    assert_eq!(buf.row(0), Some(b"    ".to_vec()));
    assert_eq!(buf.row(1), Some(b" $  ".to_vec()));
    assert_eq!(buf.row(2), Some(b"    ".to_vec()));
}

#[test]
fn plot_overwrites_with_the_last_glyph() {
    let mut buf = FrameBuffer::new(2, 2);
    buf.plot(1, 0, Glyph::Marker);
    buf.plot(1, 0, Glyph::Line);
    assert_eq!(buf.get(1, 0), Some(Glyph::Line));
    buf.plot(1, 0, Glyph::Blank);
    assert_eq!(buf.get(1, 0), Some(Glyph::Blank));
}

#[test]
fn clear_blanks_every_cell_and_keeps_the_size() {
    let mut buf = FrameBuffer::new(5, 2);
    buf.plot(0, 0, Glyph::Marker);
    buf.plot(4, 1, Glyph::Line);
    buf.clear();
    assert_eq!(buf.width(), 5);
    assert_eq!(buf.height(), 2);
    assert_eq!(buf.row(0), Some(b"     ".to_vec()));
    assert_eq!(buf.row(1), Some(b"     ".to_vec()));
}

#[test]
fn row_past_the_last_is_none() {
    let buf = FrameBuffer::new(3, 2);
    assert_eq!(buf.row(1), Some(b"   ".to_vec()));
    assert_eq!(buf.row(2), None);
    assert_eq!(buf.row(u16::MAX), None);
}

#[test]
fn rows_are_valid_text() {
    let mut buf = FrameBuffer::new(3, 1);
    buf.plot(0, 0, Glyph::Marker);
    buf.plot(2, 0, Glyph::Line);
    let row = buf.row(0).unwrap();
    assert_eq!(std::str::from_utf8(&row), Ok("$ #"));
}

#[test]
fn empty_grids_hold_nothing() {
    let mut flat = FrameBuffer::new(5, 0);
    flat.plot(0, 0, Glyph::Marker);
    assert_eq!(flat.get(0, 0), None);
    assert_eq!(flat.row(0), None);
    let mut thin = FrameBuffer::new(0, 3);
    thin.plot(0, 0, Glyph::Marker);
    assert_eq!(thin.get(0, 0), None);
    assert_eq!(thin.row(2), Some(Vec::new()));
    thin.clear();
    assert_eq!(thin.height(), 3);
}

#[test]
fn screen_sized_buffer_takes_writes_in_its_last_cell() {
    let mut buf = FrameBuffer::new(60, 30);
    buf.plot(59, 29, Glyph::Marker);
    buf.plot(60, 29, Glyph::Line);
    buf.plot(59, 30, Glyph::Line);
    assert_eq!(buf.get(59, 29), Some(Glyph::Marker));
    let last = buf.row(29).unwrap();
    assert_eq!(last.len(), 60);
    assert_eq!(last[59], b'$');
    assert_eq!(last[58], b' ');
}
