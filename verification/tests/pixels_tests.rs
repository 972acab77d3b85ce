use trance::pixels::{blit_bitmap, dim_rect, fill_rect, letterbox_into};

fn px(buf: &[u8], width: usize, x: usize, y: usize) -> [u8; 4] {
    let o = (y * width + x) * 4;
    [buf[o], buf[o + 1], buf[o + 2], buf[o + 3]]
}

#[test]
fn fill_rect_paints_clipped_rectangle_bgra() {
    let mut buf = vec![0u8; 4 * 3 * 4];
    fill_rect(&mut buf, 4, 3, 1, 1, 2, 5, (10, 20, 30));
    for y in 0..3 {
        for x in 0..4 {
            let inside = (1..3).contains(&x) && (1..3).contains(&y);
            let want = if inside { [30, 20, 10, 255] } else { [0, 0, 0, 0] };
            assert_eq!(px(&buf, 4, x, y), want, "pixel {x},{y}");
        }
    }
}

#[test]
fn fill_rect_empty_or_outside_does_nothing() {
    let mut buf = vec![7u8; 2 * 2 * 4];
    fill_rect(&mut buf, 2, 2, 2, 0, 3, 3, (1, 2, 3));
    fill_rect(&mut buf, 2, 2, 0, 0, 0, 3, (1, 2, 3));
    assert_eq!(buf, vec![7u8; 16]);
}

#[test]
fn fill_rect_skips_rows_past_the_buffer() {
    // a 2x2 frame but a buffer holding only its first row
    let mut buf = vec![0u8; 8];
    fill_rect(&mut buf, 2, 2, 0, 0, 2, 2, (1, 2, 3));
    assert_eq!(buf, vec![3, 2, 1, 255, 3, 2, 1, 255]);
}

#[test]
fn dim_rect_halves_every_byte_in_rect() {
    let mut buf: Vec<u8> = (0..32).map(|i| (i * 8) as u8).collect();
    let before = buf.clone();
    dim_rect(&mut buf, 4, 2, 1, 0, 2, 1);
    for i in 0..32 {
        let x = (i / 4) % 4;
        let y = (i / 4) / 4;
        let want = if y == 0 && (1..3).contains(&x) { before[i] >> 1 } else { before[i] };
        assert_eq!(buf[i], want, "byte {i}");
    }
    assert_eq!(buf[4], 16);
    assert_eq!(buf[7], 28);
}

#[test]
fn blit_bitmap_blends_by_coverage() {
    let mut buf = vec![0u8; 3 * 2 * 4];
    // 2x2 bitmap at (1,0): full, none / half, full
    let bitmap = [255u8, 0, 128, 255];
    blit_bitmap(&mut buf, 3, 2, 1, 0, &bitmap, 2, 2, (200, 100, 50));
    assert_eq!(px(&buf, 3, 0, 0), [0, 0, 0, 0]);
    assert_eq!(px(&buf, 3, 1, 0), [50, 100, 200, 255]);
    assert_eq!(px(&buf, 3, 2, 0), [0, 0, 0, 0]);
    // (50*128)/255 = 25, (100*128)/255 = 50, (200*128)/255 = 100
    assert_eq!(px(&buf, 3, 1, 1), [25, 50, 100, 255]);
    assert_eq!(px(&buf, 3, 2, 1), [50, 100, 200, 255]);
}

#[test]
fn blit_bitmap_blends_over_existing_pixels_and_clips() {
    let mut buf = vec![255u8; 2 * 1 * 4];
    // alpha 51 over white towards black: (0*51 + 255*204)/255 = 204
    let bitmap = [51u8, 51, 51];
    blit_bitmap(&mut buf, 2, 1, 1, 0, &bitmap, 3, 1, (0, 0, 0));
    assert_eq!(buf, vec![255, 255, 255, 255, 204, 204, 204, 255]);
}

#[test]
fn blit_bitmap_missing_cells_count_as_empty() {
    let mut buf = vec![9u8; 2 * 2 * 4];
    let bitmap = [255u8];
    blit_bitmap(&mut buf, 2, 2, 0, 0, &bitmap, 2, 2, (1, 2, 3));
    assert_eq!(px(&buf, 2, 0, 0), [3, 2, 1, 255]);
    assert_eq!(px(&buf, 2, 1, 0), [9, 9, 9, 9]);
    assert_eq!(px(&buf, 2, 0, 1), [9, 9, 9, 9]);
}

#[test]
fn letterbox_centres_content_on_black() {
    let content: Vec<u8> = (1..=8).collect();
    let mut framed = vec![0xAAu8; 3 * 2 * 4];
    letterbox_into(&content, 2, 1, 3, 2, 1, 1, &mut framed);
    let mut want = vec![0u8; 24];
    want[16..24].copy_from_slice(&content);
    assert_eq!(framed, want);
}

#[test]
fn letterbox_leaves_small_buffer_alone() {
    let content = vec![1u8; 4];
    let mut framed = vec![5u8; 10];
    letterbox_into(&content, 1, 1, 2, 2, 0, 0, &mut framed);
    assert_eq!(framed, vec![5u8; 10]);
}

#[test]
fn letterbox_stops_at_bottom_edge_and_skips_short_content() {
    // content of 1x3 but only 2 rows of frame below offset 0 row 1... frame 1x2, offset_y 1
    let content: Vec<u8> = (1..=12).collect();
    let mut framed = vec![0xFFu8; 8];
    letterbox_into(&content, 1, 3, 1, 2, 0, 1, &mut framed);
    assert_eq!(framed, vec![0, 0, 0, 0, 1, 2, 3, 4]);
    // a content row past the end of the content is skipped
    let mut framed = vec![0xFFu8; 8];
    letterbox_into(&content[..2], 1, 1, 1, 2, 0, 0, &mut framed);
    assert_eq!(framed, vec![0u8; 8]);
}

#[test]
fn letterbox_twice_equals_once() {
    let content: Vec<u8> = (1..=16).collect();
    let mut once = vec![9u8; 4 * 3 * 4 + 8];
    letterbox_into(&content, 2, 2, 4, 3, 1, 1, &mut once);
    let mut twice = once.clone();
    letterbox_into(&content, 2, 2, 4, 3, 1, 1, &mut twice);
    assert_eq!(twice, once);
    assert_eq!(px(&once, 4, 0, 0), [0, 0, 0, 0]);
    assert_eq!(px(&once, 4, 1, 1), [1, 2, 3, 4]);
    assert_eq!(&once[48..], &[9u8; 8]);
}

#[test]
fn opaque_blit_twice_equals_once() {
    let bitmap = [255u8, 0, 0, 255];
    let mut once: Vec<u8> = (0..3 * 3 * 4).map(|v| v as u8).collect();
    blit_bitmap(&mut once, 3, 3, 1, 1, &bitmap, 2, 2, (10, 20, 30));
    let mut twice = once.clone();
    blit_bitmap(&mut twice, 3, 3, 1, 1, &bitmap, 2, 2, (10, 20, 30));
    assert_eq!(twice, once);
    assert_eq!(px(&once, 3, 1, 1), [30, 20, 10, 255]);
    assert_eq!(px(&once, 3, 2, 1), [20, 21, 22, 23]);
}
