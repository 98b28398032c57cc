use mf66::codearena::{arena_size, ArenaCursor};

#[test]
fn the_arena_is_a_whole_number_of_64k_pages() {
    assert_eq!(arena_size(1), 0x10000);
    assert_eq!(arena_size(0x10000), 0x10000);
    assert_eq!(arena_size(0x10001), 0x20000);
    assert_eq!(arena_size(0), 0);
}

#[test]
fn bodies_are_placed_aligned_one_after_another() {
    let mut a = ArenaCursor::new(64);
    assert_eq!(a.next_start(), 0);
    assert_eq!(a.place(3), Some(0)); // 12 bytes
    assert_eq!(a.next_start(), 16);
    assert_eq!(a.place(4), Some(16)); // 16 bytes, ends at 32
    assert_eq!(a.place(8), Some(32)); // exactly fills the arena
    assert_eq!(a.place(0), Some(64));
    assert_eq!(a.cap(), 64);
}

#[test]
fn a_body_past_the_end_is_refused_and_nothing_moves() {
    let mut a = ArenaCursor::new(32);
    assert_eq!(a.place(1), Some(0));
    assert_eq!(a.place(5), None); // 16 + 20 > 32
    assert_eq!(a.next_start(), 16);
    assert_eq!(a.place(4), Some(16));
}
