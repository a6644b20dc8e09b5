use buid::ID;
use std::cmp::Ordering;

/// The kind used by most tests: a 3-byte tag, a 32-byte payload, and an
/// 8-byte trailer, 43 bytes in all.
type UserId = ID<3, 8, 43>;

fn user_id_buffer() -> [u8; 43] {
    let mut buf = [0u8; 43];
    buf[0] = b'u';
    buf[1] = b's';
    buf[2] = b'r';
    for i in 3..35 {
        buf[i] = (i as u8) * 2 + 1;
    }
    for i in 35..43 {
        buf[i] = 0xA0 + (i as u8 - 35);
    }
    buf
}

#[test]
fn segments_of_concrete_user_id() {
    let buf = user_id_buffer();
    let id = UserId::new(buf);

    assert_eq!(id.prefix(), b"usr");

    let mut pattern = [0u8; 32];
    for i in 0..32 {
        pattern[i] = ((i + 3) as u8) * 2 + 1;
    }
    assert_eq!(id.content(), &pattern);

    let timestamp = [0xA0, 0xA1, 0xA2, 0xA3, 0xA4, 0xA5, 0xA6, 0xA7];
    assert_eq!(id.suffix(), &timestamp);
}

#[test]
fn segment_lengths_are_fixed_by_the_kind() {
    let id = UserId::new([0xFF; 43]);
    assert_eq!(id.prefix().len(), 3);
    assert_eq!(id.content().len(), 32);
    assert_eq!(id.suffix().len(), 8);
    assert_eq!(id.as_bytes().len(), 43);
}

#[test]
fn segments_reassemble_the_buffer() {
    let buf = user_id_buffer();
    let id = UserId::new(buf);
    let mut rebuilt = Vec::new();
    rebuilt.extend_from_slice(id.prefix());
    rebuilt.extend_from_slice(id.content());
    rebuilt.extend_from_slice(id.suffix());
    assert_eq!(rebuilt.as_slice(), &buf);
    assert_eq!(id.as_bytes(), &buf);
}

#[test]
fn degenerate_kind_is_all_content() {
    let buf = [0x5A; 16];
    let id = ID::<0, 0, 16>::new(buf);
    assert_eq!(id.prefix(), &[] as &[u8]);
    assert_eq!(id.suffix(), &[] as &[u8]);
    assert_eq!(id.content(), &buf);
    assert_eq!(id.as_bytes(), &buf);
}

#[test]
fn empty_kind_has_empty_views() {
    let id = ID::<0, 0, 0>::new([]);
    assert_eq!(id.prefix(), &[] as &[u8]);
    assert_eq!(id.content(), &[] as &[u8]);
    assert_eq!(id.suffix(), &[] as &[u8]);
    assert_eq!(id.as_bytes(), &[] as &[u8]);
}

#[test]
fn all_prefix_and_suffix_kind_has_empty_content() {
    let id = ID::<2, 2, 4>::new([1, 2, 3, 4]);
    assert_eq!(id.prefix(), &[1, 2]);
    assert_eq!(id.content(), &[] as &[u8]);
    assert_eq!(id.suffix(), &[3, 4]);
}

#[test]
fn equal_buffers_give_equal_ids() {
    let buf = user_id_buffer();
    let a = UserId::new(buf);
    let b = UserId::new(buf);
    assert_eq!(a, b);
    assert_eq!(a.compare(&b), Ordering::Equal);
}

#[test]
fn ids_order_as_their_buffers() {
    let buf = user_id_buffer();
    let mut higher = buf;
    higher[20] = buf[20] + 1;
    let a = UserId::new(buf);
    let b = UserId::new(higher);
    assert_eq!(a.compare(&b), Ordering::Less);
    assert_eq!(b.compare(&a), Ordering::Greater);
    assert_ne!(a, b);
    // The derived order agrees with the verified comparison.
    assert!(a < b);
    assert!(buf < higher);
}

#[test]
fn ids_sort_by_the_verified_comparison() {
    let a = ID::<1, 1, 4>::new([2, 0, 0, 0]);
    let b = ID::<1, 1, 4>::new([1, 9, 9, 9]);
    let c = ID::<1, 1, 4>::new([1, 9, 8, 0]);
    let mut v = vec![a, b, c];
    v.sort_by(|x, y| x.compare(y));
    assert_eq!(v[0].as_bytes(), &[1, 9, 8, 0]);
    assert_eq!(v[1].as_bytes(), &[1, 9, 9, 9]);
    assert_eq!(v[2].as_bytes(), &[2, 0, 0, 0]);
    // The derived ordering sorts the same way.
    let mut w = vec![a, b, c];
    w.sort();
    assert_eq!(v, w);
}

#[test]
fn ordering_is_decided_at_the_first_difference() {
    // b is larger at position 1 but smaller at position 2: position 1 wins.
    let a = ID::<1, 1, 3>::new([5, 1, 9]);
    let b = ID::<1, 1, 3>::new([5, 2, 0]);
    assert_eq!(a.compare(&b), Ordering::Less);
    assert_eq!(b.compare(&a), Ordering::Greater);
}
