//! The packed initialization bitmap on its own: growth, truncation, range
//! queries across block boundaries.

use mirvm::undef_mask::UndefMask;

#[test]
fn fresh_bits_are_undefined() {
    let m = UndefMask::new(100);
    assert!(!m.is_range_defined(0, 1));
    assert!(!m.is_range_defined(0, 100));
    // an empty range of a fresh mask is trivially defined
    assert!(m.is_range_defined(5, 5));
    // a range past the end is never defined
    assert!(!m.is_range_defined(0, 101));
}

#[test]
fn set_and_get_across_block_boundaries() {
    let mut m = UndefMask::new(130);
    m.set(63, true);
    m.set(64, true);
    m.set(129, true);
    assert!(m.get(63));
    assert!(m.get(64));
    assert!(m.get(129));
    assert!(!m.get(62));
    assert!(!m.get(65));
    assert!(m.is_range_defined(63, 65));
    assert!(!m.is_range_defined(63, 66));
}

#[test]
fn set_range_defines_exactly_the_range() {
    let mut m = UndefMask::new(16);
    m.set_range(4, 12, true);
    assert!(!m.is_range_defined(3, 4));
    assert!(m.is_range_defined(4, 12));
    assert!(!m.is_range_defined(4, 13));
    m.set_range(6, 8, false);
    assert!(m.is_range_defined(4, 6));
    assert!(!m.is_range_defined(6, 7));
    assert!(m.is_range_defined(8, 12));
}

#[test]
fn grow_and_truncate() {
    let mut m = UndefMask::new(8);
    m.set_range(0, 8, true);
    m.grow(8, false);
    assert!(m.is_range_defined(0, 8));
    assert!(!m.is_range_defined(8, 16));
    m.truncate(4);
    assert!(m.is_range_defined(0, 4));
    assert!(!m.is_range_defined(0, 5));
}
