use bytes::BytesMut;
use wirecheck::accumulate::Accumulator;

fn collect(acc: &Accumulator) -> Vec<u8> {
    let mut bytes = Vec::new();
    let mut k = 0;
    while let Some(chunk) = acc.chunk(k) {
        bytes.extend_from_slice(chunk);
        k += 1;
    }
    assert_eq!(k, acc.num_chunks());
    bytes
}

#[test]
fn a_new_accumulator_holds_nothing() {
    let acc = Accumulator::new();
    assert_eq!(acc.num_chunks(), 0);
    assert_eq!(acc.num_bytes(), 0);
    assert_eq!(acc.chunk(0), None);
}

#[test]
fn chunks_are_kept_in_their_order() {
    let mut acc = Accumulator::new();
    acc.push(BytesMut::from(&b"0123"[..]));
    acc.push(BytesMut::from(&b"456789"[..]));
    assert_eq!(acc.num_chunks(), 2);
    assert_eq!(acc.num_bytes(), 10);
    assert_eq!(acc.chunk(0), Some(&b"0123"[..]));
    assert_eq!(acc.chunk(1), Some(&b"456789"[..]));
    assert_eq!(acc.chunk(2), None);
    assert_eq!(collect(&acc), b"0123456789");
}

#[test]
fn an_empty_chunk_is_dropped() {
    let mut acc = Accumulator::new();
    acc.push(BytesMut::new());
    assert_eq!(acc.num_chunks(), 0);
    acc.push(BytesMut::from(&b"a"[..]));
    acc.push(BytesMut::new());
    acc.push(BytesMut::from(&b"b"[..]));
    assert_eq!(acc.num_chunks(), 2);
    assert_eq!(acc.num_bytes(), 2);
    assert_eq!(collect(&acc), b"ab");
}

#[test]
fn no_data_is_lost_across_chunk_boundaries() {
    let body: Vec<u8> = (0..1000u32).map(|k| (k * 7 % 251) as u8).collect();
    let splits: [&[usize]; 5] = [
        &[1000],
        &[1, 999],
        &[500, 0, 500],
        &[3, 5, 7, 11, 13, 961],
        &[0, 0, 1000, 0],
    ];
    for sizes in splits {
        assert_eq!(sizes.iter().sum::<usize>(), body.len());
        let mut acc = Accumulator::new();
        let mut at = 0;
        for size in sizes {
            acc.push(BytesMut::from(&body[at..at + size]));
            at += size;
        }
        assert_eq!(collect(&acc), body);
        assert_eq!(acc.num_bytes(), 1000);
        assert_eq!(acc.num_chunks(), sizes.iter().filter(|size| **size > 0).count());
    }
}

#[test]
fn one_byte_chunks_make_the_body() {
    let body = b"the quick brown fox";
    let mut acc = Accumulator::new();
    for byte in body {
        acc.push(BytesMut::from(&[*byte][..]));
    }
    assert_eq!(acc.num_chunks(), body.len());
    assert_eq!(acc.num_bytes(), body.len());
    assert_eq!(collect(&acc), body);
}

#[test]
fn try_push_adds_what_fits() {
    let mut acc = Accumulator::new();
    assert!(acc.try_push(BytesMut::from(&b"ab"[..])).is_ok());
    assert!(acc.try_push(BytesMut::new()).is_ok());
    assert!(acc.try_push(BytesMut::from(&b"cd"[..])).is_ok());
    assert_eq!(acc.num_chunks(), 2);
    assert_eq!(acc.num_bytes(), 4);
    assert_eq!(collect(&acc), b"abcd");
}
