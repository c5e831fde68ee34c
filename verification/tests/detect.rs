use wirecheck::detect::{compare_chunk, is_zero_chunk, Mismatch};

#[test]
fn equal_bytes_give_no_report() {
    let reference = b"0123456789";
    assert_eq!(compare_chunk(reference, 0, b"0123456789"), vec![]);
    assert_eq!(compare_chunk(reference, 4, b"456"), vec![]);
    assert_eq!(compare_chunk(reference, 10, b""), vec![]);
    assert_eq!(compare_chunk(reference, 3, b""), vec![]);
}

#[test]
fn one_corrupted_byte_is_reported_once() {
    let reference = b"0123456789";
    let found = compare_chunk(reference, 0, b"01234X6789");
    assert_eq!(found, vec![Mismatch { offset: 5, expected: Some(b'5'), observed: b'X' }]);
}

#[test]
fn the_offset_is_that_of_the_stream() {
    let reference = b"0123456789";
    let found = compare_chunk(reference, 4, b"4X6");
    assert_eq!(found, vec![Mismatch { offset: 5, expected: Some(b'5'), observed: b'X' }]);
}

#[test]
fn every_differing_offset_is_reported_in_order() {
    let reference = b"abcdefgh";
    let found = compare_chunk(reference, 2, b"cXeYZh");
    assert_eq!(
        found,
        vec![
            Mismatch { offset: 3, expected: Some(b'd'), observed: b'X' },
            Mismatch { offset: 5, expected: Some(b'f'), observed: b'Y' },
            Mismatch { offset: 6, expected: Some(b'g'), observed: b'Z' },
        ]
    );
}

#[test]
fn bytes_past_the_reference_are_reported_without_an_expected_byte() {
    let reference = b"abc";
    let found = compare_chunk(reference, 2, b"cde");
    assert_eq!(
        found,
        vec![
            Mismatch { offset: 3, expected: None, observed: b'd' },
            Mismatch { offset: 4, expected: None, observed: b'e' },
        ]
    );
    assert_eq!(
        compare_chunk(b"", 7, b"\0"),
        vec![Mismatch { offset: 7, expected: None, observed: 0 }]
    );
}

#[test]
fn reports_on_chunks_are_the_reports_on_the_stream() {
    let reference: Vec<u8> = (0..200u8).collect();
    let mut stream = reference.clone();
    for at in [0usize, 17, 18, 99, 199] {
        stream[at] ^= 0x40;
    }
    let whole = compare_chunk(&reference, 0, &stream);
    assert_eq!(whole.iter().map(|m| m.offset).collect::<Vec<usize>>(), vec![0, 17, 18, 99, 199]);
    for m in &whole {
        assert_eq!(m.expected, Some(reference[m.offset]));
        assert_eq!(m.observed, stream[m.offset]);
    }
    for size in [1usize, 7, 18, 64, 200] {
        let mut found = Vec::new();
        let mut offset = 0;
        for chunk in stream.chunks(size) {
            found.extend(compare_chunk(&reference, offset, chunk));
            offset += chunk.len();
        }
        assert_eq!(found, whole);
    }
}

#[test]
fn all_zero_chunks_are_flagged() {
    assert!(is_zero_chunk(&[0]));
    assert!(is_zero_chunk(&[0; 17]));
    assert!(is_zero_chunk(&vec![0u8; 128 * 1024]));
}

#[test]
fn a_chunk_with_one_byte_that_is_not_zero_is_not_flagged() {
    assert!(!is_zero_chunk(&[1]));
    assert!(!is_zero_chunk(&[0, 0, 0, 1]));
    assert!(!is_zero_chunk(&[1, 0, 0, 0]));
    for at in [0usize, 1, 4095, 131071] {
        let mut chunk = vec![0u8; 128 * 1024];
        chunk[at] = 0x80;
        assert!(!is_zero_chunk(&chunk));
    }
}

#[test]
fn an_empty_chunk_is_not_flagged() {
    assert!(!is_zero_chunk(&[]));
}
