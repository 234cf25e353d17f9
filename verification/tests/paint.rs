use crustagent::paint::{menu_hover, menu_max_scroll, menu_size, Canvas, MENU_MAX_H, MENU_ROW_H, MENU_SCALE};

fn px(buf: &[u8], w: usize, x: usize, y: usize) -> [u8; 4] {
    let o = (y * w + x) * 4;
    [buf[o], buf[o + 1], buf[o + 2], buf[o + 3]]
}

#[test]
fn menu_constants() {
    assert_eq!(MENU_SCALE, 2);
    assert_eq!(MENU_ROW_H, 8 * MENU_SCALE + 6);
}

#[test]
fn blit_scales_opaque_pixels_and_skips_transparent_ones() {
    let mut buf = vec![0u8; 4 * 4 * 4];
    let img = [10u8, 20, 30, 255, 1, 2, 3, 0];
    {
        let mut c = Canvas::new(&mut buf, 4, 4);
        c.blit_scaled(&img, 2, 1, 1, 1, 2);
    }
    for y in 0..4 {
        for x in 0..4 {
            let want = if (1..3).contains(&x) && (1..3).contains(&y) { [10, 20, 30, 255] } else { [0, 0, 0, 0] };
            assert_eq!(px(&buf, 4, x, y), want, "pixel ({x}, {y})");
        }
    }
}

#[test]
fn blit_clips_to_the_canvas() {
    let mut buf = vec![0u8; 3 * 3 * 4];
    let img = [7u8, 8, 9, 1];
    {
        let mut c = Canvas::new(&mut buf, 3, 3);
        c.blit_scaled(&img, 1, 1, -1, -1, 2);
    }
    assert_eq!(px(&buf, 3, 0, 0), [7, 8, 9, 255]);
    assert_eq!(px(&buf, 3, 1, 0), [0, 0, 0, 0]);
    assert_eq!(px(&buf, 3, 0, 1), [0, 0, 0, 0]);
}

#[test]
fn blit_of_an_empty_image_changes_nothing() {
    let mut buf = vec![5u8; 2 * 2 * 4];
    {
        let mut c = Canvas::new(&mut buf, 2, 2);
        c.blit_scaled(&[], 0, 3, 0, 0, 1);
    }
    assert!(buf.iter().all(|&b| b == 5));
}

#[test]
fn menu_fills_background_highlights_hover_and_outlines() {
    let (w, h) = (10usize, 30usize);
    let mut buf = vec![0u8; w * h * 4];
    let labels = vec![String::new(), String::new()];
    {
        let mut c = Canvas::new(&mut buf, w as u32, h as u32);
        c.menu_list(&labels, 0, Some(1));
    }
    let bg = [0xF2, 0xF2, 0xF2, 0xFF];
    let hi = [0xC8, 0xD8, 0xF0, 0xFF];
    let border = [0x30, 0x30, 0x30, 0xFF];
    assert_eq!(px(&buf, w, 5, 5), bg);
    assert_eq!(px(&buf, w, 5, 23), bg);
    assert_eq!(px(&buf, w, 5, 24), hi);
    assert_eq!(px(&buf, w, 5, 28), hi);
    assert_eq!(px(&buf, w, 0, 5), border);
    assert_eq!(px(&buf, w, 9, 25), border);
    assert_eq!(px(&buf, w, 5, 0), border);
    assert_eq!(px(&buf, w, 5, 29), border);
}

#[test]
fn menu_draws_labels_in_the_bitmap_font() {
    let (w, h) = (40usize, 30usize);
    let mut buf = vec![0u8; w * h * 4];
    let labels = vec!["A".to_string()];
    {
        let mut c = Canvas::new(&mut buf, w as u32, h as u32);
        c.menu_list(&labels, 0, None);
    }
    let bg = [0xF2, 0xF2, 0xF2, 0xFF];
    let ink = [0x10, 0x10, 0x10, 0xFF];
    // 'A' row 0 is 0x0C: columns 2 and 3, each 2x2, from (6, 5).
    assert_eq!(px(&buf, w, 10, 5), ink);
    assert_eq!(px(&buf, w, 13, 6), ink);
    assert_eq!(px(&buf, w, 6, 5), bg);
    assert_eq!(px(&buf, w, 14, 5), bg);
}

#[test]
fn menu_scroll_moves_rows_up() {
    let (w, h) = (10usize, 30usize);
    let mut buf = vec![0u8; w * h * 4];
    let labels = vec![String::new(), String::new()];
    {
        let mut c = Canvas::new(&mut buf, w as u32, h as u32);
        c.menu_list(&labels, 22, Some(0));
    }
    // Row 0 now spans y = -20 .. 2: only its last two lines show.
    assert_eq!(px(&buf, w, 5, 1), [0xC8, 0xD8, 0xF0, 0xFF]);
    assert_eq!(px(&buf, w, 5, 2), [0xF2, 0xF2, 0xF2, 0xFF]);
}

#[test]
fn menu_size_fits_the_longest_label_within_bounds() {
    assert_eq!(menu_size(&[]), (6 * 16 + 12, 26));
    let labels: Vec<String> = vec!["Hide".into(), "Speak".into(), "Think".into()];
    assert_eq!(menu_size(&labels), (5 * 16 + 12, 3 * 22 + 4));
    assert_eq!(menu_size(&["Hi".to_string()]), (80, 26));
    let wide = vec!["GetAttentionContinued".to_string()];
    assert_eq!(menu_size(&wide), (21 * 16 + 12, 26));
    let very_wide = vec!["x".repeat(40)];
    assert_eq!(menu_size(&very_wide).0, 480);
    let many: Vec<String> = (0..50).map(|i| format!("a{i}")).collect();
    assert_eq!(menu_size(&many).1, MENU_MAX_H as u32);
}

#[test]
fn menu_scrolls_only_past_its_window() {
    assert_eq!(menu_max_scroll(3, 100), 0);
    assert_eq!(menu_max_scroll(50, 640), 50 * 22 + 4 - 640);
}

#[test]
fn menu_hover_maps_the_pointer_to_a_row() {
    let dim = (100, 200);
    assert_eq!(menu_hover((5, 1), dim, 0, 5), Some(0));
    assert_eq!(menu_hover((5, 2 + 22), dim, 0, 5), Some(1));
    assert_eq!(menu_hover((5, 10), dim, 22, 5), Some(1));
    assert_eq!(menu_hover((5, 150), dim, 0, 5), None);
    assert_eq!(menu_hover((-1, 5), dim, 0, 5), None);
    assert_eq!(menu_hover((5, 200), dim, 0, 5), None);
    assert_eq!(menu_hover((5, 0), dim, -30, 5), None);
}
