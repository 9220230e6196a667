use std::collections::hash_map::DefaultHasher;
use std::hash::{Hash, Hasher};

use clipdmenu::hash::digest;
use clipdmenu::{
    hash_bytes, human_size, last_image_preview, make_image_preview, make_text_preview,
    png_dimensions, read_last_image, LAST_IMAGE_ID, PREVIEW_MAX_CHARS,
};

fn png(width: u32, height: u32) -> Vec<u8> {
    let mut data = b"\x89PNG\r\n\x1a\n\x00\x00\x00\x0dIHDR".to_vec();
    data.extend(width.to_be_bytes());
    data.extend(height.to_be_bytes());
    data
}

#[test]
fn hash_is_two_passes_of_the_standard_hasher() {
    for data in [&b""[..], &b"a"[..], &b"hello world"[..], &[0u8; 300][..]] {
        let mut h1 = DefaultHasher::new();
        data.hash(&mut h1);
        let mut h2 = DefaultHasher::new();
        0x9e3779b97f4a7c15u64.hash(&mut h2);
        data.hash(&mut h2);
        let want = format!("{:016x}{:016x}", h1.finish(), h2.finish());
        assert_eq!(hash_bytes(data), want);
        assert_eq!(hash_bytes(data).len(), 32);
        assert!(hash_bytes(data).chars().all(|c| c.is_ascii_hexdigit()));
    }
    assert_ne!(hash_bytes(b"a"), hash_bytes(b"b"));
    assert_eq!(hash_bytes(b"same"), hash_bytes(b"same"));
}

#[test]
fn digest_has_leading_zeros() {
    assert_eq!(digest(0, 1), "00000000000000000000000000000001");
    assert_eq!(digest(0xabcd, u64::MAX), "000000000000abcdffffffffffffffff");
}

#[test]
fn text_preview_of_one_line() {
    assert_eq!(make_text_preview(""), "");
    assert_eq!(make_text_preview("hello"), "hello");
    assert_eq!(make_text_preview("  hello\tworld  "), "hello world");
    assert_eq!(make_text_preview("hello\n"), "hello");
    assert_eq!(make_text_preview("hello\r"), "hello");
}

#[test]
fn text_preview_counts_lines() {
    assert_eq!(make_text_preview("a\nb"), "a b  [2 lines]");
    assert_eq!(make_text_preview("a\r\nb\r\n"), "a  b  [2 lines]");
    assert_eq!(make_text_preview("\n\n\n"), "  [3 lines]");
    let text: Vec<String> = (0..12).map(|i| i.to_string()).collect();
    assert_eq!(make_text_preview(&text.join("\n")), "0 1 2 3 4 5 6 7 8 9 10 11  [12 lines]");
}

#[test]
fn text_preview_is_cut_with_an_ellipsis() {
    let exact = "x".repeat(PREVIEW_MAX_CHARS);
    assert_eq!(make_text_preview(&exact), exact);
    let long = "é".repeat(PREVIEW_MAX_CHARS + 1);
    let want = format!("{}\u{2026}", "é".repeat(PREVIEW_MAX_CHARS));
    assert_eq!(make_text_preview(&long), want);
    let lines = format!("{}\nend", "y".repeat(200));
    assert_eq!(make_text_preview(&lines), format!("{}\u{2026}  [2 lines]", "y".repeat(120)));
}

#[test]
fn text_preview_never_breaks_its_line() {
    for text in ["a\nb\tc\rd", "\u{85}\n\u{2028}x\r\n", "tail\r"] {
        let p = make_text_preview(text);
        assert!(!p.contains('\n') && !p.contains('\t') && !p.contains('\r'));
    }
}

#[test]
fn png_dimensions_come_from_the_first_chunk() {
    assert_eq!(png_dimensions(&png(640, 480)), Some((640, 480)));
    assert_eq!(png_dimensions(&png(0x01020304, u32::MAX)), Some((0x01020304, u32::MAX)));
    let mut longer = png(1, 2);
    longer.extend(vec![0u8; 100]);
    assert_eq!(png_dimensions(&longer), Some((1, 2)));
}

#[test]
fn other_data_has_no_dimensions() {
    assert_eq!(png_dimensions(b""), None);
    assert_eq!(png_dimensions(&png(1, 2)[..23]), None);
    let mut bad = png(1, 2);
    bad[1] = b'J';
    assert_eq!(png_dimensions(&bad), None);
    let mut bad = png(1, 2);
    bad[12] = b'X';
    assert_eq!(png_dimensions(&bad), None);
    assert_eq!(png_dimensions(&[0u8; 64]), None);
}

#[test]
fn sizes_for_people() {
    assert_eq!(human_size(0), "0B");
    assert_eq!(human_size(1023), "1023B");
    assert_eq!(human_size(1024), "1.0KB");
    assert_eq!(human_size(1280), "1.2KB");
    assert_eq!(human_size(1792), "1.8KB");
    assert_eq!(human_size(1536), "1.5KB");
    assert_eq!(human_size(1024 * 1024 - 1), "1024.0KB");
    assert_eq!(human_size(1024 * 1024), "1.0MB");
    assert_eq!(human_size(1024 * 1024 * 1024), "1.0GB");
    assert_eq!(human_size(5 * 1024 * 1024 * 1024 * 1024), "5120.0GB");
    assert_eq!(human_size(usize::MAX), "17179869184.0GB");
}

fn floating(bytes: usize) -> String {
    let units = ["B", "KB", "MB", "GB"];
    let mut size = bytes as f64;
    let mut unit = 0usize;
    while size >= 1024.0 && unit < units.len() - 1 {
        size /= 1024.0;
        unit += 1;
    }
    if unit == 0 {
        format!("{}{}", bytes, units[0])
    } else {
        format!("{:.1}{}", size, units[unit])
    }
}

#[test]
fn sizes_agree_with_floating_point() {
    for n in 0..70_000usize {
        assert_eq!(human_size(n), floating(n));
    }
    let mut x: u64 = 0x2545_F491_4F6C_DD1D;
    for i in 0..200_000u32 {
        x ^= x << 13;
        x ^= x >> 7;
        x ^= x << 17;
        let n = (x >> (i % 64)) as usize;
        assert_eq!(human_size(n), floating(n));
    }
    for shift in 0..64 {
        for d in 0..3000usize {
            let n = (1usize << shift).wrapping_sub(1500).wrapping_add(d);
            assert_eq!(human_size(n), floating(n));
        }
    }
    for k in 0..4000usize {
        let tie = (1usize << 53) + k;
        assert_eq!(human_size(tie), floating(tie));
        let tie = k * 268_435_456 + (k % 5);
        assert_eq!(human_size(tie), floating(tie));
    }
}

#[test]
fn image_preview_names_type_dimensions_and_size() {
    assert_eq!(make_image_preview("image/png", &png(640, 480)), "[image]  image/png  640x480  24B");
    assert_eq!(make_image_preview("image/bmp", &[0u8; 2048]), "[image]  image/bmp  ?x?  2.0KB");
    assert_eq!(make_image_preview("", b""), "[image]    ?x?  0B");
}

#[test]
fn last_image_needs_both_files() {
    assert_eq!(
        read_last_image(Some(" image/png\n"), Some(vec![1, 2])),
        Some(("image/png".to_string(), vec![1, 2]))
    );
    assert_eq!(read_last_image(None, Some(vec![1])), None);
    assert_eq!(read_last_image(Some("image/png"), None), None);
    assert_eq!(
        last_image_preview(Some("image/png"), Some(png(3, 4))),
        Some("[image]  image/png  3x4  24B".to_string())
    );
    assert_eq!(last_image_preview(None, Some(png(3, 4))), None);
    assert_eq!(last_image_preview(Some("image/png"), None), None);
    assert_eq!(LAST_IMAGE_ID, "last_image");
}
