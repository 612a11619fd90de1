use turing_soup::complexity::{byte_histogram, compressed_size};

#[test]
fn histogram_of_repeated_value_has_one_bin() {
    let data = vec![0u8; 256];
    let h = byte_histogram(&data);
    assert_eq!(h.len(), 256);
    assert_eq!(h[0], 256);
    assert!(h[1..].iter().all(|&c| c == 0));
}

#[test]
fn histogram_of_all_values_is_flat() {
    let data: Vec<u8> = (0..=255).collect();
    let h = byte_histogram(&data);
    assert!(h.iter().all(|&c| c == 1));
}

#[test]
fn histogram_counts_each_value() {
    let h = byte_histogram(b"abca");
    assert_eq!(h[b'a' as usize], 2);
    assert_eq!(h[b'b' as usize], 1);
    assert_eq!(h[b'c' as usize], 1);
    assert_eq!(h.iter().sum::<usize>(), 4);
    assert!(byte_histogram(&[]).iter().all(|&c| c == 0));
}

#[test]
fn compressed_size_is_deterministic() {
    let data: Vec<u8> = (0..500u32).map(|i| (i * 7 % 256) as u8).collect();
    assert_eq!(compressed_size(&data), compressed_size(&data));
}

#[test]
fn compressed_size_of_empty_is_none() {
    assert_eq!(compressed_size(&[]), None);
}

#[test]
fn repetitive_data_compresses_well() {
    let data = vec![0u8; 1000];
    let n = compressed_size(&data).unwrap();
    assert!(n > 0);
    assert!(n < 100);
}
