use luola2::objarray::{kept_order, sort_order, GameObject, GameObjectArray, DESTROYED_KEY};

#[derive(Clone, Copy, Debug, PartialEq)]
struct Ball {
    x: i32,
    r: i32,
    destroyed: bool,
}

impl GameObject for Ball {
    fn x_order(&self) -> i32 {
        self.x
    }
    fn left_order(&self) -> i32 {
        self.x - self.r
    }
    fn right_order(&self) -> i32 {
        self.x + self.r
    }
    fn destroyed_mark(&self) -> bool {
        self.destroyed
    }
    fn x_key(&self) -> i32 {
        self.x
    }
    fn left_key(&self) -> i32 {
        self.x - self.r
    }
    fn right_key(&self) -> i32 {
        self.x + self.r
    }
    fn is_destroyed(&self) -> bool {
        self.destroyed
    }
}

fn ball(x: i32, r: i32) -> Ball {
    Ball { x, r, destroyed: false }
}

fn sorted(balls: &[Ball]) -> GameObjectArray<Ball> {
    let mut a = GameObjectArray::new();
    for b in balls {
        a.push(*b);
    }
    a.sort();
    a
}

#[test]
fn sorting_orders_by_x_and_drops_destroyed_objects() {
    let mut doomed = ball(5, 1);
    doomed.destroyed = true;
    let a = sorted(&[ball(30, 1), doomed, ball(10, 1), ball(20, 1)]);
    let xs: Vec<i32> = a.iter().map(|b| b.x).collect();
    assert_eq!(xs, vec![10, 20, 30]);
    assert_eq!(a.len(), 3);
}

#[test]
fn sort_order_is_stable() {
    assert_eq!(sort_order(&vec![3, 1, 2, 1]), vec![1, 3, 2, 0]);
    assert_eq!(sort_order(&vec![]), Vec::<usize>::new());
}

#[test]
fn range_slices_hold_the_possible_colliders() {
    let a = sorted(&[ball(0, 2), ball(10, 2), ball(20, 2), ball(30, 2)]);
    let xs: Vec<i32> = a.range_slice(9, 21).iter().map(|b| b.x).collect();
    assert_eq!(xs, vec![10, 20]);
    let xs: Vec<i32> = a.range_slice(13, 17).iter().map(|b| b.x).collect();
    assert!(xs.is_empty());
    let xs: Vec<i32> = a.range_slice(-100, 100).iter().map(|b| b.x).collect();
    assert_eq!(xs, vec![0, 10, 20, 30]);
}

#[test]
fn collider_slices_can_be_changed() {
    let mut a = sorted(&[ball(0, 2), ball(10, 2), ball(20, 2)]);
    let probe = ball(11, 1);
    for b in a.collider_slice_mut(&probe) {
        b.r = 5;
    }
    let rs: Vec<i32> = a.iter().map(|b| b.r).collect();
    assert_eq!(rs, vec![2, 5, 2]);
}

#[test]
fn self_collision_pairs() {
    let mut a = sorted(&[ball(0, 3), ball(5, 3), ball(20, 3), ball(24, 3)]);
    let mut it = a.self_collision_iter_mut();
    let mut pairs = Vec::new();
    while let Some((head, tail)) = it.next(&mut a) {
        for other in tail.iter() {
            pairs.push((head.x, other.x));
        }
    }
    assert_eq!(pairs, vec![(0, 5), (20, 24)]);
}

#[test]
fn last_and_clear() {
    let mut a = sorted(&[ball(1, 1), ball(2, 1)]);
    a.last_mut().r = 9;
    assert_eq!(a.iter().last().unwrap().r, 9);
    a.clear();
    assert_eq!(a.len(), 0);
}

#[test]
fn kept_order_drops_the_destroyed_tail() {
    let d = DESTROYED_KEY;
    assert_eq!(kept_order(&vec![5, 1, d, 3], &vec![false, false, true, false]), vec![1, 3, 0]);
    assert_eq!(kept_order(&vec![d, d], &vec![true, true]), Vec::<usize>::new());
    // a live object that sorts last keeps the destroyed ones before it
    assert_eq!(kept_order(&vec![d, d], &vec![true, false]), vec![0, 1]);
    assert_eq!(kept_order(&vec![], &vec![]), Vec::<usize>::new());
}

#[test]
fn sorting_keeps_only_live_objects_in_position_order() {
    let dead = |x| Ball { x, r: 1, destroyed: true };
    let a = sorted(&[ball(3, 1), dead(1), ball(2, 1), dead(0)]);
    let xs: Vec<i32> = a.iter().map(|b| b.x).collect();
    assert_eq!(xs, vec![2, 3]);
}

#[test]
fn collision_tails_hold_every_reachable_follower() {
    let mut a = sorted(&[ball(0, 10), ball(5, 1), ball(8, 1), ball(30, 1)]);
    let mut it = a.self_collision_iter_mut();
    let mut tails = Vec::new();
    while let Some((head, tail)) = it.next(&mut a) {
        tails.push((head.x, tail.iter().map(|b| b.x).collect::<Vec<i32>>()));
    }
    assert_eq!(
        tails,
        vec![(0, vec![5, 8]), (5, vec![]), (8, vec![]), (30, vec![])]
    );
    let xs: Vec<i32> = a.iter().map(|b| b.x).collect();
    assert_eq!(xs, vec![0, 5, 8, 30]);
}

#[test]
fn iter_mut_visits_every_object_in_order() {
    let mut a = sorted(&[ball(3, 1), ball(1, 1), ball(2, 1)]);
    let mut seen = Vec::new();
    for b in a.iter_mut() {
        seen.push(b.x);
        b.r = 7;
    }
    assert_eq!(seen, vec![1, 2, 3]);
    assert!(a.iter().all(|b| b.r == 7));
}
