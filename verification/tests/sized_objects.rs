use bastionai::sized_objects::SizedObjectsBytes;

#[test]
fn new_buffer_is_empty() {
    let b = SizedObjectsBytes::new();
    assert!(b.get().is_empty());
}

#[test]
fn append_back_writes_little_endian_length_then_bytes() {
    let mut b = SizedObjectsBytes::new();
    b.append_back(vec![7, 8, 9]);
    assert_eq!(b.get(), &vec![3, 0, 0, 0, 0, 0, 0, 0, 7, 8, 9]);
}

#[test]
fn append_back_of_empty_object_writes_zero_header() {
    let mut b = SizedObjectsBytes::new();
    b.append_back(Vec::new());
    assert_eq!(b.get(), &vec![0u8; 8]);
}

#[test]
fn length_header_uses_all_bytes() {
    let mut b = SizedObjectsBytes::new();
    b.append_back(vec![1u8; 300]);
    let bytes = b.get();
    assert_eq!(&bytes[..8], &[44, 1, 0, 0, 0, 0, 0, 0]);
    assert_eq!(bytes.len(), 308);
}

#[test]
fn remove_front_returns_objects_in_order() {
    let mut b = SizedObjectsBytes::new();
    b.append_back(vec![1, 2]);
    b.append_back(vec![]);
    b.append_back(vec![3, 4, 5]);
    assert_eq!(b.remove_front(), vec![1, 2]);
    assert_eq!(b.remove_front(), Vec::<u8>::new());
    assert_eq!(b.get(), &vec![3, 0, 0, 0, 0, 0, 0, 0, 3, 4, 5]);
    assert_eq!(b.remove_front(), vec![3, 4, 5]);
    assert!(b.get().is_empty());
}

#[test]
fn next_walks_the_stream_and_ends_with_none() {
    let mut b = SizedObjectsBytes::new();
    b.append_back(b"samples".to_vec());
    b.append_back(b"labels".to_vec());
    assert_eq!(b.next(), Some(b"samples".to_vec()));
    assert_eq!(b.next(), Some(b"labels".to_vec()));
    assert_eq!(b.next(), None);
    assert_eq!(b.next(), None);
}

#[test]
fn has_complete_front_checks_header_and_payload() {
    let short: SizedObjectsBytes = SizedObjectsBytes::from(vec![1, 0, 0]);
    assert!(!short.has_complete_front());
    let truncated = SizedObjectsBytes::from(vec![2, 0, 0, 0, 0, 0, 0, 0, 9]);
    assert!(!truncated.has_complete_front());
    let whole = SizedObjectsBytes::from(vec![2, 0, 0, 0, 0, 0, 0, 0, 9, 9, 1]);
    assert!(whole.has_complete_front());
    let huge = SizedObjectsBytes::from(vec![0, 0, 0, 0, 0, 0, 0, 0x80, 1]);
    assert!(!huge.has_complete_front());
    assert!(!SizedObjectsBytes::new().has_complete_front());
}

#[test]
fn remove_front_leaves_trailing_bytes() {
    let mut b = SizedObjectsBytes::from(vec![1, 0, 0, 0, 0, 0, 0, 0, 42, 5, 6]);
    assert_eq!(b.remove_front(), vec![42]);
    assert_eq!(b.get(), &vec![5, 6]);
}

#[test]
fn conversions_to_and_from_bytes_round_trip() {
    let raw = vec![4, 0, 0, 0, 0, 0, 0, 0, 1, 2, 3, 4];
    let b = SizedObjectsBytes::from(raw.clone());
    assert_eq!(b.get(), &raw);
    let back: Vec<u8> = b.into();
    assert_eq!(back, raw);
}

#[test]
fn objects_appended_come_back_in_order() {
    let objects: Vec<Vec<u8>> = vec![vec![], vec![0xff; 17], vec![1, 2, 3], b"x".to_vec()];
    let mut b = SizedObjectsBytes::new();
    for o in &objects {
        b.append_back(o.clone());
    }
    let mut out = Vec::new();
    while let Some(o) = b.next() {
        out.push(o);
    }
    assert_eq!(out, objects);
}

#[test]
fn collect_objects_returns_every_object_in_order() {
    let objects: Vec<Vec<u8>> = vec![vec![5; 3], vec![], vec![1]];
    let mut b = SizedObjectsBytes::new();
    for o in &objects {
        b.append_back(o.clone());
    }
    assert_eq!(b.collect_objects(), objects);
    assert_eq!(SizedObjectsBytes::new().collect_objects(), Vec::<Vec<u8>>::new());
}

#[test]
fn each_next_shortens_the_buffer_by_header_and_object() {
    let mut b = SizedObjectsBytes::new();
    b.append_back(vec![1, 2, 3]);
    b.append_back(vec![4]);
    let before = b.get().len();
    let o = b.next().unwrap();
    assert_eq!(b.get().len(), before - 8 - o.len());
}
