use vstd::prelude::*;

verus! {

/// `near(a, b)` answered `true`: `b` lies within the exclusion radius of `a`.
pub open spec fn seen_near<P, N: Fn(&P, &P) -> bool>(near: N, a: P, b: P) -> bool {
    near.ensures((&a, &b), true)
}

/// `near(a, b)` answered `false`: `b` keeps its distance from `a`.
pub open spec fn seen_apart<P, N: Fn(&P, &P) -> bool>(near: N, a: P, b: P) -> bool {
    near.ensures((&a, &b), false)
}

/// Every point of `s` keeps its distance from each point before it.
pub open spec fn pairwise_apart<P, N: Fn(&P, &P) -> bool>(near: N, s: Seq<P>) -> bool {
    forall|i: int, j: int| 0 <= i < j < s.len() ==> #[trigger] seen_apart(near, s[i], s[j])
}

/// `c` is one of the points of `s`, or lies near one of them.
pub open spec fn covered<P, N: Fn(&P, &P) -> bool>(near: N, s: Seq<P>, c: P) -> bool {
    exists|k: int| 0 <= k < s.len() && (#[trigger] s[k] == c || seen_near(near, s[k], c))
}

/// Coverage by a sequence carries over to every sequence that extends it.
pub proof fn lemma_covered_extends<P, N: Fn(&P, &P) -> bool>(near: N, s: Seq<P>, t: Seq<P>, c: P)
    requires
        s.len() <= t.len(),
        t.subrange(0, s.len() as int) == s,
        covered(near, s, c),
    ensures
        covered(near, t, c),
{
    let k = choose|k: int| 0 <= k < s.len() && (#[trigger] s[k] == c || seen_near(near, s[k], c));
    assert(t[k] == t.subrange(0, s.len() as int)[k]);
    assert(t[k] == c || seen_near(near, t[k], c));
}

/// A point set searched by linear scan: the plain form of the spatial index.
/// Points stay in insertion order and are never removed but by `clear`.
pub struct PointIndex<P> {
    items: Vec<P>,
}

impl<P: Copy> PointIndex<P> {
    /// The points held, in insertion order.
    pub closed spec fn view(&self) -> Seq<P> {
        self.items@
    }

    pub fn new() -> (r: Self)
        ensures
            r@ == Seq::<P>::empty(),
    {
        PointIndex { items: Vec::new() }
    }

    pub fn len(&self) -> (r: usize)
        ensures
            r == self@.len(),
    {
        self.items.len()
    }

    /// Adds one point.
    pub fn push(&mut self, p: P)
        ensures
            final(self)@ == old(self)@.push(p),
    {
        self.items.push(p);
    }

    /// Adds a batch of points, in their order.
    pub fn append(&mut self, points: Vec<P>)
        ensures
            final(self)@ == old(self)@ + points@,
    {
        let mut points = points;
        self.items.append(&mut points);
    }

    /// Removes every point.
    pub fn clear(&mut self)
        ensures
            final(self)@ == Seq::<P>::empty(),
    {
        self.items.clear();
    }

    /// Whether some held point has `near(point, q)`. A `false` answer means
    /// every held point was asked and answered `false`.
    pub fn any_near<N: Fn(&P, &P) -> bool>(&self, q: &P, near: &N) -> (r: bool)
        requires
            forall|a: &P, b: &P| #[trigger] near.requires((a, b)),
        ensures
            r ==> exists|k: int| 0 <= k < self@.len() && #[trigger] seen_near(*near, self@[k], *q),
            !r ==> forall|k: int| 0 <= k < self@.len() ==> #[trigger] seen_apart(*near, self@[k], *q),
    {
        let mut i: usize = 0;
        while i < self.items.len()
            invariant
                i <= self@.len(),
                forall|a: &P, b: &P| #[trigger] near.requires((a, b)),
                forall|k: int| 0 <= k < i ==> #[trigger] seen_apart(*near, self@[k], *q),
            decreases self@.len() - i,
        {
            if near(&self.items[i], q) {
                assert(seen_near(*near, self@[i as int], *q));
                return true;
            }
            i += 1;
        }
        false
    }

    /// The points held, in insertion order.
    pub fn items(&self) -> (r: &Vec<P>)
        ensures
            r@ == self@,
    {
        &self.items
    }

    /// Gives up the points held, leaving the index empty.
    pub fn into_items(self) -> (r: Vec<P>)
        ensures
            r@ == self@,
    {
        self.items
    }
}

} // verus!
