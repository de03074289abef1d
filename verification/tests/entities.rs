use swept_collision::movement::{EntityId, EntityIdAllocator};

#[test]
fn ids_ascend_from_zero() {
    let mut allocator = EntityIdAllocator::new();
    let first: EntityId = allocator.allocate();
    let second = allocator.allocate();
    let third = allocator.allocate();
    assert_eq!((first, second, third), (0, 1, 2));
    assert!(allocator.has_next());
}

#[test]
fn reset_starts_again_at_zero() {
    let mut allocator = EntityIdAllocator::default();
    allocator.allocate();
    allocator.allocate();
    allocator.reset();
    assert_eq!(allocator.allocate(), 0);
    assert_eq!(allocator.allocate(), 1);
}
