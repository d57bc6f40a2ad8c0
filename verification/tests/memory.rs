use stockkit::align::{align_up, check_alignment};
use stockkit::arena::Arena;
use stockkit::fixed_arena::Arena as FixedArena;

#[test]
fn align_up_rounds_to_the_next_multiple() {
    assert_eq!(align_up(0, 8), 0);
    assert_eq!(align_up(5, 8), 8);
    assert_eq!(align_up(8, 8), 8);
    assert_eq!(align_up(9, 4), 12);
    assert_eq!(align_up(7, 1), 7);
}

#[test]
fn only_powers_of_two_are_alignments() {
    assert!(check_alignment(1));
    assert!(check_alignment(8));
    assert!(check_alignment(4096));
    assert!(!check_alignment(0));
    assert!(!check_alignment(3));
    assert!(!check_alignment(12));
}

#[test]
fn arena_demo_values_are_updated_in_place() {
    let mut arena = Arena::new(1024);
    let a = arena.alloc_bytes(&10i32.to_le_bytes(), 4);
    let v = i32::from_le_bytes(arena.read(a, 4).try_into().unwrap()) + 1;
    arena.write(a, &v.to_le_bytes());
    assert_eq!(i32::from_le_bytes(arena.read(a, 4).try_into().unwrap()), 11);

    let b = arena.alloc_bytes(&20i64.to_le_bytes(), 8);
    assert_eq!(b, 8);
    let v = i64::from_le_bytes(arena.read(b, 8).try_into().unwrap()) + 2;
    arena.write(b, &v.to_le_bytes());
    assert_eq!(i64::from_le_bytes(arena.read(b, 8).try_into().unwrap()), 22);

    let c = arena.alloc_bytes(&20i64.to_le_bytes(), 8);
    assert_eq!(c, 16);
    assert_eq!(i64::from_le_bytes(arena.read(c, 8).try_into().unwrap()), 20);
    // the earlier values are untouched
    assert_eq!(i32::from_le_bytes(arena.read(a, 4).try_into().unwrap()), 11);
}

#[test]
fn arena_pads_with_zeros_before_an_aligned_value() {
    let mut arena = Arena::new(64);
    assert_eq!(arena.offset(), 0);
    let a = arena.alloc_bytes(&[0xff], 1);
    assert_eq!(a, 0);
    assert_eq!(arena.offset(), 1);
    let b = arena.alloc_bytes(&[1, 2, 3, 4], 4);
    assert_eq!(b, 4);
    assert_eq!(arena.offset(), 8);
    assert_eq!(arena.read(0, 8), vec![0xff, 0, 0, 0, 1, 2, 3, 4]);
}

#[test]
fn arena_reports_out_of_memory() {
    let mut arena = Arena::new(10);
    assert!(arena.fits(8, 8));
    arena.alloc_bytes(&[7; 8], 8);
    assert!(arena.fits(2, 8));
    assert!(!arena.fits(3, 8));
    assert!(!arena.fits(1, 16));
    assert!(arena.fits(2, 1));
    assert!(!arena.fits(3, 1));
    assert!(!arena.fits(1, 3));
}

#[test]
fn fixed_arena_allocates_within_its_block() {
    let mut arena = FixedArena::new(1024);
    let a = arena.alloc_bytes(&10i32.to_le_bytes(), 4);
    let b = arena.alloc_bytes(&20i32.to_le_bytes(), 4);
    assert_eq!((a, b), (0, 4));
    let v = i32::from_le_bytes(arena.read(a, 4).try_into().unwrap()) + 1;
    arena.write(a, &v.to_le_bytes());
    let w = i32::from_le_bytes(arena.read(b, 4).try_into().unwrap()) + 2;
    arena.write(b, &w.to_le_bytes());
    assert_eq!(i32::from_le_bytes(arena.read(a, 4).try_into().unwrap()), 11);
    assert_eq!(i32::from_le_bytes(arena.read(b, 4).try_into().unwrap()), 22);
    let c = arena.alloc_bytes(&[9], 16);
    assert_eq!(c, 16);
}

#[test]
fn fixed_arena_never_goes_past_its_block() {
    let mut arena = FixedArena::new(16);
    assert!(arena.fits(16, 8));
    arena.alloc_bytes(&[1; 9], 1);
    assert!(!arena.fits(1, 8));
    assert!(arena.fits(7, 1));
    assert!(!arena.fits(8, 1));
}
