//! Game object arrays kept in the order of the objects' x coordinates for
//! broadphase collision checks.

use vstd::prelude::*;

verus! {

/// std's mutable slice iterator, carried through opaquely.
#[verifier::external_type_specification]
#[verifier::external_body]
#[verifier::reject_recursive_types(Elem)]
pub struct ExSliceIterMut<'a, Elem: 'a>(std::slice::IterMut<'a, Elem>);

/// Calls std's `<[T]>::iter_mut`, which std documents as an iterator that yields
/// a mutable reference to each element of the slice, from start to end: the
/// contract claims that it yields one reference per element, in order, each to the
/// element's value at the call. What writes through the references do to the slice
/// is not stated.
#[verifier::external_body]
fn slice_iter_mut<'a, Elem>(s: &'a mut [Elem]) -> (r: std::slice::IterMut<'a, Elem>)
    ensures
        vstd::std_specs::iter::IteratorSpec::remaining(&r).len() == old(s)@.len(),
        forall|i: int|
            0 <= i < old(s)@.len() ==> *#[trigger] vstd::std_specs::iter::IteratorSpec::remaining(&r)[i] == old(s)@[i],
{
    s.iter_mut()
}

/// Order key that destroyed objects sort by: the key of the largest finite
/// coordinate, so destroyed objects gather at the end of the array.
pub const DESTROYED_KEY: i32 = 0x7f7f_ffff;

/// A game object as the broadphase sees it.
///
/// Positions are compared through order keys: integers whose order is the
/// total order of the underlying x coordinates.
pub trait GameObject {
    /// The order key of the x coordinate of the object's center, as the object reports it
    spec fn x_order(&self) -> i32;

    /// The order key of the x coordinate of the object's left edge, as the object reports it
    spec fn left_order(&self) -> i32;

    /// The order key of the x coordinate of the object's right edge, as the object reports it
    spec fn right_order(&self) -> i32;

    /// Whether the object reports itself marked for deletion
    spec fn destroyed_mark(&self) -> bool;

    /// Order key of the x coordinate of the object's center
    fn x_key(&self) -> (r: i32)
        ensures
            r == self.x_order(),
    ;

    /// Order key of the x coordinate of the object's left edge (center minus radius)
    fn left_key(&self) -> (r: i32)
        ensures
            r == self.left_order(),
    ;

    /// Order key of the x coordinate of the object's right edge (center plus radius)
    fn right_key(&self) -> (r: i32)
        ensures
            r == self.right_order(),
    ;

    /// Is this object marked for deletion
    fn is_destroyed(&self) -> (r: bool)
        ensures
            r == self.destroyed_mark(),
    ;
}

/// The key an object sorts by: its center's order key, or [`DESTROYED_KEY`] once destroyed
pub open spec fn sort_key<T: GameObject>(o: T) -> i32 {
    if o.destroyed_mark() {
        DESTROYED_KEY
    } else {
        o.x_order()
    }
}

/// The sort keys of a sequence of objects
pub open spec fn sort_keys<T: GameObject>(s: Seq<T>) -> Seq<i32> {
    Seq::new(s.len(), |i: int| sort_key(s[i]))
}

/// The destroyed marks of a sequence of objects
pub open spec fn destroyed_marks<T: GameObject>(s: Seq<T>) -> Seq<bool> {
    Seq::new(s.len(), |i: int| s[i].destroyed_mark())
}

/// Does the run of objects after object p end at e: every object from p + 1 up to
/// e has its left edge at or before p's right edge, and the object at e (if any)
/// does not
pub open spec fn tail_end<T: GameObject>(s: Seq<T>, p: int, e: int) -> bool {
    &&& forall|j: int| p + 1 <= j < e ==> #[trigger] s[j].left_order() <= s[p].right_order()
    &&& e == s.len() || s[e].left_order() > s[p].right_order()
}

/// Is [a, b) the run of objects that may overlap the horizontal span [left, right]:
/// it starts where the right edges reach `left` (the object before it ends left of
/// `left`, the first one of it does not) and runs as long as left edges do not pass
/// `right`
pub open spec fn collider_window<T: GameObject>(s: Seq<T>, left: i32, right: i32, a: int, b: int) -> bool {
    &&& 0 <= a <= b <= s.len()
    &&& a == 0 || s[a - 1].right_order() < left
    &&& a == s.len() || s[a].right_order() >= left
    &&& forall|i: int| a <= i < b ==> #[trigger] s[i].left_order() <= right
    &&& b == s.len() || s[b].left_order() > right
}

/// Is p a permutation of 0..n?
pub open spec fn is_permutation(p: Seq<usize>, n: int) -> bool {
    &&& p.len() == n
    &&& forall|i: int| 0 <= i < n ==> #[trigger] p[i] < n
    &&& forall|i: int, j: int| 0 <= i < j < n ==> p[i] != p[j]
}

/// Does index x come before index y when ordering by key (ties broken by index)?
pub open spec fn key_order(keys: Seq<i32>, x: usize, y: usize) -> bool {
    keys[x as int] < keys[y as int] || (keys[x as int] == keys[y as int] && x < y)
}

/// Are the keys, read in the order of p, non-decreasing?
pub open spec fn sorted_by(keys: Seq<i32>, p: Seq<usize>) -> bool {
    forall|i: int, j: int| 0 <= i < j < p.len() ==> keys[p[i] as int] <= keys[p[j] as int]
}

/// Is p the order that stably sorts the keys: a permutation of their indices
/// under which the keys are non-decreasing and equal keys keep their order?
pub open spec fn sorts(keys: Seq<i32>, p: Seq<usize>) -> bool {
    &&& is_permutation(p, keys.len() as int)
    &&& forall|i: int, j: int| 0 <= i < j < p.len() ==> key_order(keys, #[trigger] p[i], #[trigger] p[j])
}

/// Is q the order p without its trailing run of destroyed objects?
pub open spec fn drops_destroyed_tail(destroyed: Seq<bool>, p: Seq<usize>, q: Seq<usize>) -> bool {
    &&& q.len() <= p.len()
    &&& q == p.subrange(0, q.len() as int)
    &&& forall|j: int| q.len() <= j < p.len() ==> destroyed[#[trigger] p[j] as int]
    &&& q.len() == 0 || !destroyed[q[q.len() - 1] as int]
}

/// Is q the objects that sorting keeps, in their new order: the stable sorting
/// order of the keys without its trailing run of destroyed objects?
pub open spec fn kept_by_sort(keys: Seq<i32>, destroyed: Seq<bool>, q: Seq<usize>) -> bool {
    exists|p: Seq<usize>| #[trigger] sorts(keys, p) && drops_destroyed_tail(destroyed, p, q)
}

/// A permutation of 0..n takes every value in 0..n
proof fn lemma_permutation_onto(p: Seq<usize>, n: int, i: int)
    requires
        is_permutation(p, n),
        0 <= i < n,
    ensures
        exists|j: int| 0 <= j < n && p[j] == i,
{
    if !(exists|j: int| 0 <= j < n && p[j] == i) {
        let pi = Seq::new(n as nat, |j: int| p[j] as int);
        assert(pi.no_duplicates()) by {
            assert forall|a: int, b: int| 0 <= a < pi.len() && 0 <= b < pi.len() && a != b implies pi[a] != pi[b] by {
                if a < b {
                    assert(p[a] != p[b]);
                } else {
                    assert(p[b] != p[a]);
                }
            }
        }
        pi.unique_seq_to_set();
        let range = vstd::set_lib::set_int_range(0, n).remove(i);
        vstd::set_lib::lemma_int_range(0, n);
        assert(pi.to_set().subset_of(range)) by {
            assert forall|v: int| #[trigger] pi.to_set().contains(v) implies range.contains(v) by {
                let j = choose|j: int| 0 <= j < pi.len() && pi[j] == v;
                assert(p[j] < n);
            }
        }
        vstd::set_lib::lemma_len_subset(pi.to_set(), range);
    }
}

/// When every destroyed object sorts at [`DESTROYED_KEY`] and every live one
/// before it, sorting keeps exactly the live objects: none destroyed remains,
/// each live one remains, and they come in non-decreasing key order.
pub proof fn law_sort_keeps_live(keys: Seq<i32>, destroyed: Seq<bool>, q: Seq<usize>)
    requires
        keys.len() == destroyed.len(),
        kept_by_sort(keys, destroyed, q),
        forall|i: int| 0 <= i < keys.len() && #[trigger] destroyed[i] ==> keys[i] == DESTROYED_KEY,
        forall|i: int| 0 <= i < keys.len() && !destroyed[i] ==> #[trigger] keys[i] < DESTROYED_KEY,
    ensures
        forall|k: int| 0 <= k < q.len() ==> q[k] < keys.len() && !destroyed[#[trigger] q[k] as int],
        forall|a: int, b: int| 0 <= a < b < q.len() ==> keys[#[trigger] q[a] as int] <= keys[#[trigger] q[b] as int],
        forall|i: int| 0 <= i < keys.len() && !destroyed[i] ==> exists|k: int| 0 <= k < q.len() && #[trigger] q[k] == i,
{
    let p = choose|p: Seq<usize>| #[trigger] sorts(keys, p) && drops_destroyed_tail(destroyed, p, q);
    let n = keys.len() as int;
    let m = q.len() as int;
    assert forall|k: int| 0 <= k < m implies q[k] < keys.len() && !destroyed[#[trigger] q[k] as int] by {
        assert(q[k] == p[k]);
        assert(q[m - 1] == p[m - 1]);
        if k < m - 1 {
            assert(key_order(keys, p[k], p[m - 1]));
        }
    }
    assert forall|a: int, b: int| 0 <= a < b < m implies keys[#[trigger] q[a] as int] <= keys[#[trigger] q[b] as int] by {
        assert(q[a] == p[a] && q[b] == p[b]);
        assert(key_order(keys, p[a], p[b]));
    }
    assert forall|i: int| 0 <= i < n && !destroyed[i] implies exists|k: int| 0 <= k < m && #[trigger] q[k] == i by {
        lemma_permutation_onto(p, n, i);
        let j = choose|j: int| 0 <= j < n && p[j] == i;
        if j >= m {
            assert(destroyed[p[j] as int]);
        }
        assert(q[j] == p[j]);
    }
}

/// The order that sorts the keys: a permutation of their indices under which
/// the keys are non-decreasing (equal keys keep their relative order).
pub fn sort_order(keys: &Vec<i32>) -> (p: Vec<usize>)
    ensures
        sorts(keys@, p@),
{
    let n = keys.len();
    let mut p: Vec<usize> = Vec::new();
    let mut i: usize = 0;
    while i < n
        invariant
            n == keys.len(),
            i <= n,
            p@.len() == i,
            forall|k: int| 0 <= k < i ==> #[trigger] p@[k] == k,
        decreases n - i,
    {
        p.push(i);
        i += 1;
    }
    // insertion sort over the index array
    let mut i: usize = 1;
    while i < n
        invariant
            n == keys.len(),
            n == p@.len(),
            1 <= i || n == 0,
            i <= n || n == 0,
            forall|k: int| 0 <= k < n ==> #[trigger] p@[k] < n,
            forall|a: int, b: int| 0 <= a < b < n ==> p@[a] != p@[b],
            forall|k: int| i <= k < n ==> #[trigger] p@[k] == k,
            forall|k: int| 0 <= k < i && k < n ==> #[trigger] p@[k] < i,
            forall|a: int, b: int| 0 <= a < b < i ==> key_order(keys@, #[trigger] p@[a], #[trigger] p@[b]),
        decreases n - i,
    {
        let mut j = i;
        while j > 0 && keys[p[j - 1]] > keys[p[j]]
            invariant
                n == keys.len(),
                n == p@.len(),
                0 <= j <= i < n,
                forall|k: int| 0 <= k < n ==> #[trigger] p@[k] < n,
                forall|a: int, b: int| 0 <= a < b < n ==> p@[a] != p@[b],
                forall|k: int| i < k < n ==> #[trigger] p@[k] == k,
                forall|k: int| 0 <= k <= i ==> #[trigger] p@[k] <= i,
                p@[j as int] == i,
                forall|k: int| j < k <= i ==> key_order(keys@, i, #[trigger] p@[k]),
                forall|a: int, b: int|
                    0 <= a < b <= i && a != j && b != j ==> key_order(keys@, #[trigger] p@[a], #[trigger] p@[b]),
            decreases j,
        {
            let a = p[j - 1];
            let b = p[j];
            p.set(j - 1, b);
            p.set(j, a);
            j -= 1;
        }
        proof {
            assert forall|k: int| 0 <= k < j implies key_order(keys@, #[trigger] p@[k], i) by {
                if k < j - 1 {
                    assert(key_order(keys@, p@[k], p@[j - 1]));
                }
                assert(p@[k] != i);
            }
        }
        i += 1;
    }
    p
}

/// The objects sorting keeps, in their new order, given each object's order key
/// and whether it is destroyed: the stable sorting order of the keys, without the
/// run of destroyed objects it ends with.
pub fn kept_order(keys: &Vec<i32>, destroyed: &Vec<bool>) -> (r: Vec<usize>)
    requires
        keys.len() == destroyed.len(),
    ensures
        kept_by_sort(keys@, destroyed@, r@),
        r@.len() <= keys.len(),
        forall|k: int| 0 <= k < r@.len() ==> #[trigger] r@[k] < keys.len(),
        forall|a: int, b: int| 0 <= a < b < r@.len() ==> r@[a] != r@[b],
{
    let order = sort_order(keys);
    let n = keys.len();
    let mut count: usize = 0;
    while count < n && destroyed[order[n - 1 - count]]
        invariant
            count <= n,
            n == keys.len(),
            destroyed.len() == n,
            sorts(keys@, order@),
            forall|j: int| n - count <= j < n ==> destroyed@[#[trigger] order@[j] as int],
        decreases n - count,
    {
        count += 1;
    }
    let m = n - count;
    let mut r: Vec<usize> = Vec::new();
    let mut k: usize = 0;
    while k < m
        invariant
            k <= m,
            m <= n,
            n == keys.len(),
            sorts(keys@, order@),
            r@ == order@.subrange(0, k as int),
        decreases m - k,
    {
        r.push(order[k]);
        k += 1;
    }
    proof {
        assert(drops_destroyed_tail(destroyed@, order@, r@));
    }
    r
}

impl<T: GameObject> GameObjectArray<T> {
    pub closed spec fn view(&self) -> Seq<T> {
        self.0@
    }

    pub fn new() -> (r: Self)
        ensures
            r.view() == Seq::<T>::empty(),
    {
        Self(Vec::new())
    }

    pub fn len(&self) -> (r: usize)
        ensures
            r == self.view().len(),
    {
        self.0.len()
    }

    /// Iterate over the objects in order
    pub fn iter(&self) -> (r: std::slice::Iter<'_, T>)
        ensures
            vstd::std_specs::iter::IteratorSpec::remaining(&r) == self.view().as_ref(),
    {
        proof {
            broadcast use vstd::std_specs::slice::axiom_spec_slice_iter;
        }
        self.0.as_slice().iter()
    }

    /// Iterate over the objects in order, each by a mutable reference
    pub fn iter_mut(&mut self) -> (r: std::slice::IterMut<'_, T>)
        ensures
            vstd::std_specs::iter::IteratorSpec::remaining(&r).len() == old(self).view().len(),
            forall|i: int|
                0 <= i < old(self).view().len() ==> *#[trigger] vstd::std_specs::iter::IteratorSpec::remaining(&r)[i] == old(
                    self,
                ).view()[i],
    {
        slice_iter_mut(self.0.as_mut_slice())
    }

    pub fn push(&mut self, obj: T)
        ensures
            final(self).view() == old(self).view().push(obj),
    {
        self.0.push(obj);
    }

    pub fn clear(&mut self)
        ensures
            final(self).view() == Seq::<T>::empty(),
    {
        self.0.clear();
    }

    /// The last object (the array must not be empty)
    pub fn last_mut(&mut self) -> (r: &mut T)
        requires
            old(self).view().len() > 0,
        ensures
            *r == old(self).view().last(),
            final(self).view() == old(self).view().update(old(self).view().len() - 1, *final(r)),
    {
        let n = self.0.len();
        &mut self.0[n - 1]
    }

    /// The index range of the objects that may overlap the horizontal span
    /// [left, right] (given as order keys): it starts at the first object whose
    /// right edge reaches `left` (found by binary search) and runs while the
    /// objects' left edges do not pass `right`.
    fn find_potential_collider_slice(&self, left: i32, right: i32) -> (r: (usize, usize))
        ensures
            collider_window(self.view(), left, right, r.0 as int, r.1 as int),
    {
        let n = self.0.len();
        let mut lo: usize = 0;
        let mut hi: usize = n;
        while lo < hi
            invariant
                lo <= hi <= n,
                n == self.0.len(),
                lo == 0 || self.0@[lo - 1].right_order() < left,
                hi == n || self.0@[hi as int].right_order() >= left,
            decreases hi - lo,
        {
            let mid = lo + (hi - lo) / 2;
            if self.0[mid].right_key() < left {
                lo = mid + 1;
            } else {
                hi = mid;
            }
        }
        let start = lo;
        let mut end = start;
        while end < n && self.0[end].left_key() <= right
            invariant
                start <= end <= n,
                n == self.0.len(),
                forall|i: int| start <= i < end ==> #[trigger] self.0@[i].left_order() <= right,
            decreases n - end,
        {
            end += 1;
        }
        (start, end)
    }

    /// The objects that may overlap the horizontal span [left, right] (order keys)
    pub fn range_slice(&self, left: i32, right: i32) -> (r: &[T])
        ensures
            exists|a: int, b: int| collider_window(self.view(), left, right, a, b) && r@ == self.view().subrange(a, b),
    {
        let (start, end) = self.find_potential_collider_slice(left, right);
        let (_, rest) = self.0.as_slice().split_at(start);
        let (mid, _) = rest.split_at(end - start);
        assert(mid@ == self.view().subrange(start as int, end as int));
        mid
    }

    /// The objects that may overlap the horizontal span [left, right] (order keys)
    pub fn range_slice_mut(&mut self, left: i32, right: i32) -> (r: &mut [T])
        ensures
            exists|a: int, b: int|
                collider_window(old(self).view(), left, right, a, b) && r@ == old(self).view().subrange(a, b)
                    && final(self).view() == old(self).view().subrange(0, a) + final(r)@
                    + old(self).view().subrange(b, old(self).view().len() as int),
    {
        let (start, end) = self.find_potential_collider_slice(left, right);
        let ghost before = self.0@;
        let s = self.0.as_mut_slice();
        let (pre, rest) = s.split_at_mut(start);
        let (mid, post) = rest.split_at_mut(end - start);
        proof {
            assert(final(pre)@ == pre@);
            assert(final(post)@ == post@);
            assert(pre@ == before.subrange(0, start as int));
            assert(post@ == before.subrange(end as int, before.len() as int));
            assert(mid@ == before.subrange(start as int, end as int));
            lemma_concat_assoc(pre@, final(mid)@, post@);
        }
        mid
    }

    /// The objects that may overlap the given object horizontally
    pub fn collider_slice_mut<U: GameObject>(&mut self, obj: &U) -> (r: &mut [T])
        ensures
            exists|a: int, b: int|
                collider_window(old(self).view(), obj.left_order(), obj.right_order(), a, b) && r@ == old(
                    self,
                ).view().subrange(a, b)
                    && final(self).view() == old(self).view().subrange(0, a) + final(r)@
                    + old(self).view().subrange(b, old(self).view().len() as int),
    {
        self.range_slice_mut(obj.left_key(), obj.right_key())
    }

    /// Start iterating over each object paired with the objects after it that may collide with it
    pub fn self_collision_iter_mut(&self) -> (r: GameObjectTailedIterMut)
        ensures
            r.position() == 0,
    {
        GameObjectTailedIterMut::new()
    }

    /// Sort the game object array for broadphase collision checks.
    /// Also removes destroyed objects.
    ///
    /// Objects are ordered by the order key of their x coordinate; destroyed
    /// objects sort as if they stood at the largest finite coordinate, and the run
    /// of destroyed objects at the end of the sorted array is dropped. The keys and
    /// destroyed flags are what the objects report; [`kept_order`] says which
    /// objects remain, in which order, for each such report.
    pub fn sort(&mut self)
        ensures
            exists|q: Seq<usize>|
                {
                    &&& kept_by_sort(sort_keys(old(self).view()), destroyed_marks(old(self).view()), q)
                    &&& final(self).view().len() == q.len()
                    &&& forall|k: int| 0 <= k < q.len() ==> #[trigger] final(self).view()[k] == old(self).view()[q[k] as int]
                },
    {
        let ghost orig = self.0@;
        let n = self.0.len();
        let mut keys: Vec<i32> = Vec::new();
        let mut destroyed: Vec<bool> = Vec::new();
        let mut i: usize = 0;
        while i < n
            invariant
                n == self.0.len(),
                self.0@ == orig,
                i <= n,
                keys.len() == i,
                destroyed.len() == i,
                forall|k: int| 0 <= k < i ==> #[trigger] keys@[k] == sort_key(orig[k]),
                forall|k: int| 0 <= k < i ==> #[trigger] destroyed@[k] == orig[k].destroyed_mark(),
            decreases n - i,
        {
            let d = self.0[i].is_destroyed();
            destroyed.push(d);
            keys.push(if d { DESTROYED_KEY } else { self.0[i].x_key() });
            i += 1;
        }

        proof {
            assert(keys@ =~= sort_keys(orig));
            assert(destroyed@ =~= destroyed_marks(orig));
        }
        let kept = kept_order(&keys, &destroyed);
        let m = kept.len();

        // take the objects out, last first
        let mut slots: Vec<Option<T>> = Vec::new();
        while self.0.len() > 0
            invariant
                self.0@.len() + slots@.len() == n,
                n == orig.len(),
                forall|k: int| 0 <= k < self.0@.len() ==> #[trigger] self.0@[k] == orig[k],
                forall|k: int| 0 <= k < slots@.len() ==> #[trigger] slots@[k] == Some(orig[n - 1 - k]),
            decreases self.0@.len(),
        {
            let x = self.0.pop().unwrap();
            slots.push(Some(x));
        }

        // put the kept ones back in their sorted order
        let mut k: usize = 0;
        while k < m
            invariant
                n == orig.len(),
                m == kept@.len(),
                m <= n,
                slots@.len() == n,
                forall|a: int| 0 <= a < m ==> #[trigger] kept@[a] < n,
                forall|a: int, b: int| 0 <= a < b < m ==> kept@[a] != kept@[b],
                k <= m,
                self.0@.len() == k,
                forall|j: int| 0 <= j < k ==> #[trigger] self.0@[j] == orig[kept@[j] as int],
                forall|j: int|
                    k <= j < m ==> #[trigger] slots@[n - 1 - kept@[j]] == Some(orig[kept@[j] as int]),
            decreases m - k,
        {
            let idx = n - 1 - kept[k];
            let item = slots[idx].take();
            proof {
                assert forall|j: int| k + 1 <= j < m implies #[trigger] slots@[n - 1 - kept@[j]] == Some(
                    orig[kept@[j] as int],
                ) by {
                    assert(kept@[j] != kept@[k as int]);
                }
            }
            match item {
                Some(x) => {
                    self.0.push(x);
                },
                None => {
                    assert(false);
                },
            }
            k += 1;
        }
        proof {
            assert(self.0@.len() == kept@.len());
        }
    }
}

proof fn lemma_concat_assoc<A>(a: Seq<A>, b: Seq<A>, c: Seq<A>)
    ensures
        a + (b + c) == (a + b) + c,
{
    assert(a + (b + c) =~= (a + b) + c);
}

/// A sorted array of game objects
pub struct GameObjectArray<T>(Vec<T>);


/// Iteration state over a game object array that yields each object together
/// with the objects after it whose left edge does not pass its right edge.
pub struct GameObjectTailedIterMut {
    position: usize,
}

impl GameObjectTailedIterMut {
    pub closed spec fn position(&self) -> nat {
        self.position as nat
    }

    fn new() -> (r: Self)
        ensures
            r.position() == 0,
    {
        Self { position: 0 }
    }

    /// The next object and the objects that follow it and may collide with it.
    /// None once every object has been visited.
    pub fn next<'a, T: GameObject>(&mut self, objects: &'a mut GameObjectArray<T>) -> (r: Option<(&'a mut T, &'a mut [T])>)
        ensures
            old(self).position() < old(objects).view().len() ==> (r matches Some((h, tail)) && {
                let p = old(self).position() as int;
                &&& *h == old(objects).view()[p]
                &&& final(self).position() == p + 1
                &&& exists|e: int|
                    p + 1 <= e <= old(objects).view().len() && tail_end(old(objects).view(), p, e) && tail@ == old(
                        objects,
                    ).view().subrange(p + 1, e)
                    && final(objects).view() == old(objects).view().subrange(0, p) + seq![*final(h)] + final(tail)@
                    + old(objects).view().subrange(e, old(objects).view().len() as int)
            }),
            old(self).position() >= old(objects).view().len() ==> r is None && final(objects).view()
                == old(objects).view() && final(self).position() == old(self).position(),
    {
        let n = objects.0.len();
        if self.position >= n {
            return None;
        }
        let p = self.position;
        let right_edge = objects.0[p].right_key();
        let mut end = p + 1;
        while end < n && objects.0[end].left_key() <= right_edge
            invariant
                p + 1 <= end <= n,
                n == objects.0.len(),
                right_edge == objects.0@[p as int].right_order(),
                forall|j: int| p + 1 <= j < end ==> #[trigger] objects.0@[j].left_order() <= right_edge,
            decreases n - end,
        {
            end += 1;
        }
        self.position = p + 1;
        let ghost before = objects.0@;
        let (pre, rest) = objects.0.as_mut_slice().split_at_mut(p);
        let (head, tail) = rest.split_at_mut(1);
        let (potentials, post) = tail.split_at_mut(end - p - 1);
        let h = head.first_mut().unwrap();
        proof {
            assert(final(pre)@ == pre@);
            assert(final(post)@ == post@);
            assert(pre@ == before.subrange(0, p as int));
            assert(post@ == before.subrange(end as int, before.len() as int));
            assert(potentials@ == before.subrange(p + 1, end as int));
            assert(tail_end(before, p as int, end as int));
            lemma_concat_assoc(pre@, seq![*final(h)], final(potentials)@ + post@);
            lemma_concat_assoc(seq![*final(h)], final(potentials)@, post@);
            lemma_concat_assoc(pre@ + seq![*final(h)], final(potentials)@, post@);
        }
        Some((h, potentials))
    }
}

} // verus!
