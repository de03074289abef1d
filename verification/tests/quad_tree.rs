use swept_collision::aabb::Aabb;
use swept_collision::loose_quad_tree::LooseQuadTree;
use swept_collision::vector::Vector2;

fn px(x: i64, y: i64) -> Vector2 {
    Vector2::new(x * 1000, y * 1000)
}

fn values(found: &[(Aabb, u32)]) -> Vec<u32> {
    let mut values: Vec<u32> = found.iter().map(|(_, value)| *value).collect();
    values.sort();
    values
}

#[test]
fn inserted_item_is_found_by_a_query_that_meets_it() {
    let mut tree = LooseQuadTree::new(px(1024, 1024));
    let item = Aabb::new(px(100, 100), px(10, 10));
    tree.insert(item, 7u32);
    let found = tree.for_each_intersection(Aabb::new(px(105, 105), px(50, 50)));
    assert_eq!(found, vec![(item, 7)]);
    let touching = tree.for_each_intersection(Aabb::new(px(110, 110), px(1, 1)));
    assert_eq!(touching, vec![(item, 7)]);
    let around = tree.for_each_intersection(Aabb::new(px(0, 0), px(1024, 1024)));
    assert_eq!(around, vec![(item, 7)]);
    let beside = tree.for_each_intersection(Aabb::new(px(111, 100), px(50, 50)));
    assert_eq!(beside, vec![]);
}

#[test]
fn query_of_a_cleared_tree_finds_nothing() {
    let mut tree = LooseQuadTree::new(px(1024, 1024));
    tree.insert(Aabb::new(px(100, 100), px(10, 10)), 1u32);
    tree.insert(Aabb::new(px(600, 600), px(10, 10)), 2u32);
    tree.insert(Aabb::new(px(0, 0), px(1024, 1024)), 3u32);
    let everything = Aabb::new(px(-2000, -2000), px(5000, 5000));
    assert_eq!(values(&tree.for_each_intersection(everything)), vec![1, 2, 3]);
    tree.clear();
    assert_eq!(tree.for_each_intersection(everything), vec![]);
    assert_eq!(
        tree.for_each_intersection(Aabb::new(px(100, 100), px(10, 10))),
        vec![]
    );
}

#[test]
fn query_of_a_new_tree_finds_nothing() {
    let tree: LooseQuadTree<u32> = LooseQuadTree::new(px(1024, 1024));
    assert_eq!(
        tree.for_each_intersection(Aabb::new(px(0, 0), px(1024, 1024))),
        vec![]
    );
}

#[test]
fn item_near_a_quadrant_boundary_is_found_from_both_sides() {
    let mut tree = LooseQuadTree::new(px(1024, 1024));
    // The centre lies just left of the line x = 512 between two quadrants;
    // the box hangs over into the right one.
    let item = Aabb::new(px(505, 200), px(12, 12));
    tree.insert(item, 9u32);
    let from_the_left = tree.for_each_intersection(Aabb::new(px(400, 190), px(106, 30)));
    assert_eq!(from_the_left, vec![(item, 9)]);
    let from_the_right = tree.for_each_intersection(Aabb::new(px(516, 190), px(100, 30)));
    assert_eq!(from_the_right, vec![(item, 9)]);
    let only_right_of_it = tree.for_each_intersection(Aabb::new(px(518, 190), px(100, 30)));
    assert_eq!(only_right_of_it, vec![]);
    // and across the line between the top and the bottom quadrants
    let low = Aabb::new(px(100, 507), px(8, 8));
    tree.insert(low, 10u32);
    assert_eq!(
        tree.for_each_intersection(Aabb::new(px(90, 513), px(30, 30))),
        vec![(low, 10)]
    );
    assert_eq!(
        tree.for_each_intersection(Aabb::new(px(90, 480), px(30, 28))),
        vec![(low, 10)]
    );
}

#[test]
fn every_item_is_found_once() {
    let mut tree = LooseQuadTree::new(px(1024, 1024));
    let mut expected = Vec::new();
    let mut id = 0u32;
    for x in 0..16 {
        for y in 0..16 {
            let aabb = Aabb::new(px(x * 64 + 3, y * 64 + 5), px(1 + x * 5, 1 + y * 3));
            tree.insert(aabb, id);
            expected.push((aabb, id));
            id += 1;
        }
    }
    let queries = [
        Aabb::new(px(0, 0), px(1024, 1024)),
        Aabb::new(px(100, 100), px(1, 1)),
        Aabb::new(px(500, 0), px(24, 1024)),
        Aabb::new(px(0, 510), px(1024, 4)),
        Aabb::new(px(900, 900), px(500, 500)),
        Aabb::new(px(-50, -50), px(60, 60)),
    ];
    for query in queries.iter() {
        let mut want: Vec<u32> = expected
            .iter()
            .filter(|(aabb, _)| aabb.is_intersecting(query))
            .map(|(_, id)| *id)
            .collect();
        want.sort();
        assert_eq!(values(&tree.for_each_intersection(*query)), want);
    }
}

#[test]
fn same_item_twice_is_found_twice() {
    let mut tree = LooseQuadTree::new(px(1024, 1024));
    let item = Aabb::new(px(100, 100), px(10, 10));
    tree.insert(item, 7u32);
    tree.insert(item, 7u32);
    assert_eq!(
        tree.for_each_intersection(Aabb::new(px(0, 0), px(200, 200))),
        vec![(item, 7), (item, 7)]
    );
}

#[test]
fn tree_is_used_again_after_clear() {
    let mut tree = LooseQuadTree::new(px(1024, 1024));
    for round in 0..5u32 {
        for i in 0..40i64 {
            tree.insert(Aabb::new(px(i * 25, (i * 37) % 1000), px(4, 4)), round * 100 + i as u32);
        }
        let found = tree.for_each_intersection(Aabb::new(px(0, 0), px(1024, 1024)));
        assert_eq!(found.len(), 40);
        assert!(found.iter().all(|(_, value)| value / 100 == round));
        tree.clear();
        assert_eq!(
            tree.for_each_intersection(Aabb::new(px(0, 0), px(1024, 1024))),
            vec![]
        );
    }
}

#[test]
fn small_items_and_items_without_size_are_found() {
    let mut tree = LooseQuadTree::new(px(1024, 1024));
    let point = Aabb::new(px(300, 300), px(0, 0));
    let speck = Aabb::new(Vector2::new(700_001, 700_001), Vector2::new(1, 1));
    tree.insert(point, 1u32);
    tree.insert(speck, 2u32);
    assert_eq!(
        tree.for_each_intersection(Aabb::new(px(300, 300), px(0, 0))),
        vec![(point, 1)]
    );
    assert_eq!(
        tree.for_each_intersection(Aabb::new(Vector2::new(700_002, 700_002), px(1, 1))),
        vec![(speck, 2)]
    );
    assert_eq!(
        values(&tree.for_each_intersection(Aabb::new(px(0, 0), px(1024, 1024)))),
        vec![1, 2]
    );
}

#[test]
fn tree_of_odd_size_keeps_its_items_at_the_root() {
    let mut tree = LooseQuadTree::new(Vector2::new(1001, 777));
    let item = Aabb::new(Vector2::new(10, 10), Vector2::new(2, 2));
    tree.insert(item, 1u32);
    assert_eq!(
        tree.for_each_intersection(Aabb::new(Vector2::new(0, 0), Vector2::new(20, 20))),
        vec![(item, 1)]
    );
    assert_eq!(
        tree.for_each_intersection(Aabb::new(Vector2::new(500, 500), Vector2::new(20, 20))),
        vec![]
    );
}

#[test]
fn item_larger_than_the_tree_is_found() {
    let mut tree = LooseQuadTree::new(px(1024, 1024));
    let huge = Aabb::new(px(-5000, -5000), px(10000, 10000));
    tree.insert(huge, 1u32);
    assert_eq!(
        tree.for_each_intersection(Aabb::new(px(4000, 4000), px(10, 10))),
        vec![(huge, 1)]
    );
}

#[test]
fn item_outside_the_tree_can_be_missed() {
    // An item far outside the box that the tree covers goes down toward the
    // nearest corner, where a query about the item does not look.
    let mut tree = LooseQuadTree::new(px(1024, 1024));
    let outside = Aabb::new(px(-1000, -1000), px(1, 1));
    tree.insert(outside, 1u32);
    assert_eq!(tree.for_each_intersection(outside), vec![]);
    // a query that reaches the corner finds it
    assert_eq!(
        tree.for_each_intersection(Aabb::new(px(-1000, -1000), px(1001, 1001))),
        vec![(outside, 1)]
    );
}
