use walrs::cache::{get_cache_path, load_cached_colors, render_cache_content, sanitize_path};

fn sample_palette() -> Vec<(u8, u8, u8)> {
    let mut p: Vec<(u8, u8, u8)> = Vec::new();
    p.push((0x00, 0x00, 0x00));
    p.push((0xff, 0x00, 0x00));
    for i in 2..16u16 {
        p.push(((i * 3) as u8, (i * 7) as u8, (255 - i) as u8));
    }
    p
}

#[test]
fn round_trip_returns_original_sequence() {
    let palette = sample_palette();
    let bytes = render_cache_content(&palette);
    let loaded = load_cached_colors(&bytes);
    assert_eq!(loaded, Some(palette));
}

#[test]
fn round_trip_keeps_entries_beyond_sixteen() {
    let mut palette = sample_palette();
    palette.push((1, 2, 3));
    palette.push((4, 5, 6));
    let bytes = render_cache_content(&palette);
    let loaded = load_cached_colors(&bytes);
    assert_eq!(loaded, Some(palette));
}

#[test]
fn fifteen_valid_lines_are_a_miss() {
    let mut content = String::new();
    for i in 0..15 {
        content.push_str(&format!("#{:02x}{:02x}{:02x}\n", i, i, i));
    }
    assert_eq!(load_cached_colors(&content.into_bytes()), None);
}

#[test]
fn sixteen_valid_lines_interleaved_with_garbage_are_a_hit() {
    let mut content = String::new();
    let mut expected: Vec<(u8, u8, u8)> = Vec::new();
    for i in 0..16u32 {
        content.push_str("not a color\n");
        content.push_str("#zzzzzz\n");
        content.push_str("#12345\n");
        content.push_str(&format!("#{:02x}{:02x}{:02x}\n", i, 2 * i, 3 * i));
        expected.push((i as u8, (2 * i) as u8, (3 * i) as u8));
    }
    content.push_str("\n#\n");
    let loaded = load_cached_colors(&content.into_bytes());
    assert_eq!(loaded, Some(expected));
}

#[test]
fn marker_line_with_trailing_garbage_still_counts() {
    let mut content = String::new();
    for _ in 0..16 {
        content.push_str("#aabbccZZZ\n");
    }
    let loaded = load_cached_colors(&content.into_bytes()).unwrap();
    assert_eq!(loaded.len(), 16);
    assert_eq!(loaded[0], (0xaa, 0xbb, 0xcc));
}

#[test]
fn crlf_line_endings_parse() {
    let mut content = String::new();
    for _ in 0..16 {
        content.push_str("#010203\r\n");
    }
    let loaded = load_cached_colors(&content.into_bytes()).unwrap();
    assert_eq!(loaded, vec![(1, 2, 3); 16]);
}

#[test]
fn uppercase_hex_is_accepted_on_load() {
    let mut content = String::new();
    for _ in 0..16 {
        content.push_str("#AABBCC\n");
    }
    let loaded = load_cached_colors(&content.into_bytes()).unwrap();
    assert_eq!(loaded[7], (0xaa, 0xbb, 0xcc));
}

#[test]
fn rendering_is_lowercase_with_no_trailing_newline() {
    let palette = vec![(0xAB, 0xCD, 0xEF); 2];
    let bytes = render_cache_content(&palette);
    assert_eq!(bytes, b"#abcdef\n#abcdef".to_vec());
}

#[test]
fn sanitize_collides_dot_and_slash() {
    let a = sanitize_path(&b"/a.b".to_vec());
    let b = sanitize_path(&b"/a/b".to_vec());
    assert_eq!(a, b"a_b".to_vec());
    assert_eq!(a, b);
}

#[test]
fn sanitize_strips_all_leading_slashes() {
    assert_eq!(sanitize_path(&b"//x/y.png".to_vec()), b"x_y_png".to_vec());
    assert_eq!(sanitize_path(&b"plain".to_vec()), b"plain".to_vec());
    assert_eq!(sanitize_path(&b"".to_vec()), b"".to_vec());
}

#[test]
fn cache_path_is_root_subdir_and_key() {
    let p = get_cache_path(&b"/home/u/.cache".to_vec(), &b"/img/pic.png".to_vec());
    assert_eq!(p, b"/home/u/.cache/wal/cache/img_pic_png".to_vec());
}
