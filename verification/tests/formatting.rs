use parquetta::formatting::{
    human_size, initial_column_width, FALLBACK_TABLE_WIDTH, MIN_INITIAL_COLUMN_WIDTH, PAGE_SIZE,
};

#[test]
fn formats_byte_sizes() {
    assert_eq!(human_size(0), "0.0 B");
    assert_eq!(human_size(512), "512.0 B");
    assert_eq!(human_size(1024), "1.0 KB");
    assert_eq!(human_size(1536), "1.5 KB");
    assert_eq!(human_size(1024 * 1024 * 3), "3.0 MB");
    assert_eq!(human_size(1024_u64.pow(4) * 2), "2.0 TB");
}

#[test]
fn calculates_initial_column_width() {
    assert_eq!(initial_column_width(1200, 3), 400);
    assert_eq!(initial_column_width(300, 3), 320);
    assert_eq!(initial_column_width(960, 20), MIN_INITIAL_COLUMN_WIDTH);
    assert_eq!(initial_column_width(960, 0), 960);
}

/// The size text as the floating-point formatting computes it.
fn float_size(bytes: u64) -> String {
    const UNITS: [&str; 5] = ["B", "KB", "MB", "GB", "TB"];
    let mut size = bytes as f64;
    let mut unit = 0;
    while size >= 1024.0 && unit < UNITS.len() - 1 {
        size /= 1024.0;
        unit += 1;
    }
    format!("{size:.1} {}", UNITS[unit])
}

#[test]
fn byte_sizes_agree_with_float_formatting() {
    let mut samples: Vec<u64> = vec![
        0, 1, 9, 10, 99, 100, 1023, 1024, 1025, 1075, 1076, 1126, 1127, 1280, 1331, 1332, 1433,
        1434, 1484, 1485, 10240, 1048063, 1048064, 1048575, 1048576, 1572864, 1289748,
        u64::MAX, u64::MAX - 1, 1 << 53, (1 << 53) + 1, (1 << 53) + 3, 1 << 60, (1 << 60) + 12345,
        0x1234_5678_9abc_def0, 1099511627775, 1099511627776, 1125899906842624,
    ];
    let mut x: u64 = 0x9e37_79b9_7f4a_7c15;
    for shift in 0..64 {
        x = x.wrapping_mul(6364136223846793005).wrapping_add(1442695040888963407);
        samples.push(x >> shift);
        samples.push((x >> shift) | 0x80);
    }
    for k in 1..5u32 {
        let unit = 1024u64.pow(k);
        for t in 0..40u64 {
            samples.push(unit / 20 * (2 * t + 1));
            samples.push(unit / 4 * t);
            samples.push(unit * 1023 + unit / 20 * 19);
        }
    }
    for bytes in samples {
        assert_eq!(human_size(bytes), float_size(bytes), "bytes = {bytes}");
    }
}

#[test]
fn byte_sizes_round_ties_to_even() {
    assert_eq!(human_size(1280), "1.2 KB");
    assert_eq!(human_size(1024 + 768), "1.8 KB");
    assert_eq!(human_size(1024 * 1023 + 1023), "1024.0 KB");
    assert_eq!(human_size(u64::MAX), "16777216.0 TB");
}

#[test]
fn small_sizes_stay_in_bytes() {
    assert_eq!(human_size(1), "1.0 B");
    assert_eq!(human_size(1023), "1023.0 B");
}

#[test]
fn column_width_edges() {
    assert_eq!(initial_column_width(i32::MIN, 1), FALLBACK_TABLE_WIDTH);
    assert_eq!(initial_column_width(i32::MAX, 1), i32::MAX);
    assert_eq!(initial_column_width(i32::MAX, usize::MAX), MIN_INITIAL_COLUMN_WIDTH);
    assert_eq!(initial_column_width(2000, 7), 285);
    assert_eq!(PAGE_SIZE, 1000);
}
