//! Spatial index: a recursive bounding-box partition over a dynamic point
//! set, supporting insert and radius query. A leaf that overflows its
//! capacity subdivides into four equal quadrants and hands its points down;
//! the whole tree is discarded and rebuilt each tick by its owner.

use vstd::prelude::*;

verus! {

use crate::vec2::Vec2;
use vstd::seq_lib::lemma_multiset_commutative;
use vstd::seq_lib::group_to_multiset_ensures;

/// Bound on every coordinate a tree works with; squared distances of points
/// within it stay far inside `i64`.
pub const QT_COORD_LIMIT: i64 = 100_000_000;

/// An axis-aligned rectangle spanning `[x, x+width)` by `[y, y+height)`.
#[derive(Clone, Copy, Debug, PartialEq, Eq, Structural)]
pub struct Rectangle {
    pub x: i64,
    pub y: i64,
    pub width: i64,
    pub height: i64,
}

impl Rectangle {
    /// Membership in the half-open span of the rectangle.
    pub open spec fn contains_spec(self, p: Vec2) -> bool {
        &&& p.x >= self.x
        &&& self.x + self.width > p.x
        &&& p.y >= self.y
        &&& self.y + self.height > p.y
    }

    /// Nonnegative extent, lying inside the coordinate limit.
    pub open spec fn bounded(self) -> bool {
        &&& -QT_COORD_LIMIT <= self.x
        &&& self.x + self.width <= QT_COORD_LIMIT
        &&& self.width >= 0
        &&& -QT_COORD_LIMIT <= self.y
        &&& self.y + self.height <= QT_COORD_LIMIT
        &&& self.height >= 0
    }

    pub fn contains(&self, point: Vec2) -> (r: bool)
        requires
            i64::MIN <= self.x + self.width <= i64::MAX,
            i64::MIN <= self.y + self.height <= i64::MAX,
        ensures
            r == self.contains_spec(point),
    {
        point.x >= self.x && self.x + self.width > point.x && point.y >= self.y && self.y
            + self.height > point.y
    }

    /// Whether this rectangle meets the bounding square of the circle
    /// `(cx, cy, radius)` — the cheap conservative test query prunes with.
    pub open spec fn meets_square(self, c: (int, int, int)) -> bool {
        &&& c.0 + c.2 >= self.x
        &&& c.0 - c.2 < self.x + self.width
        &&& c.1 + c.2 >= self.y
        &&& c.1 - c.2 < self.y + self.height
    }

    #[allow(non_snake_case)]
    pub fn intersectCircle(&self, circle: (i64, i64, i64)) -> (r: bool)
        requires
            self.bounded(),
            -QT_COORD_LIMIT <= circle.0 <= QT_COORD_LIMIT,
            -QT_COORD_LIMIT <= circle.1 <= QT_COORD_LIMIT,
            0 <= circle.2 <= QT_COORD_LIMIT,
        ensures
            r == self.meets_square((circle.0 as int, circle.1 as int, circle.2 as int)),
    {
        circle.0 + circle.2 >= self.x && circle.0 - circle.2 < self.x + self.width && circle.1
            + circle.2 >= self.y && circle.1 - circle.2 < self.y + self.height
    }
}

/// The south-west quadrant of `r`.
pub open spec fn sw_rect(r: Rectangle) -> Rectangle {
    Rectangle { x: r.x, y: r.y, width: (r.width / 2) as i64, height: (r.height / 2) as i64 }
}

/// The north-west quadrant of `r`.
pub open spec fn nw_rect(r: Rectangle) -> Rectangle {
    Rectangle {
        x: r.x,
        y: (r.y + r.height / 2) as i64,
        width: (r.width / 2) as i64,
        height: (r.height - r.height / 2) as i64,
    }
}

/// The south-east quadrant of `r`.
pub open spec fn se_rect(r: Rectangle) -> Rectangle {
    Rectangle {
        x: (r.x + r.width / 2) as i64,
        y: r.y,
        width: (r.width - r.width / 2) as i64,
        height: (r.height / 2) as i64,
    }
}

/// The north-east quadrant of `r`.
pub open spec fn ne_rect(r: Rectangle) -> Rectangle {
    Rectangle {
        x: (r.x + r.width / 2) as i64,
        y: (r.y + r.height / 2) as i64,
        width: (r.width - r.width / 2) as i64,
        height: (r.height - r.height / 2) as i64,
    }
}

/// The four quadrants partition their rectangle: a point lies in it exactly
/// when it lies in exactly one of them.
pub proof fn lemma_quadrants_partition(r: Rectangle, p: Vec2)
    requires
        r.bounded(),
        r.width >= 2,
        r.height >= 2,
    ensures
        r.contains_spec(p) <==> (sw_rect(r).contains_spec(p) || nw_rect(r).contains_spec(p)
            || se_rect(r).contains_spec(p) || ne_rect(r).contains_spec(p)),
        !(sw_rect(r).contains_spec(p) && nw_rect(r).contains_spec(p)),
        !(sw_rect(r).contains_spec(p) && se_rect(r).contains_spec(p)),
        !(sw_rect(r).contains_spec(p) && ne_rect(r).contains_spec(p)),
        !(nw_rect(r).contains_spec(p) && se_rect(r).contains_spec(p)),
        !(nw_rect(r).contains_spec(p) && ne_rect(r).contains_spec(p)),
        !(se_rect(r).contains_spec(p) && ne_rect(r).contains_spec(p)),
{
}

/// Whether point `p` lies within the circle `(cx, cy, radius)`, by squared
/// distance.
pub open spec fn in_circle(p: Vec2, c: (int, int, int)) -> bool {
    (p.x - c.0) * (p.x - c.0) + (p.y - c.1) * (p.y - c.1) <= c.2 * c.2
}

/// The ids of the stored points within the circle, in storage order.
pub open spec fn query_seq(s: Seq<(Vec2, usize)>, c: (int, int, int)) -> Seq<usize>
    decreases s.len(),
{
    if s.len() == 0 {
        Seq::empty()
    } else {
        let rest = query_seq(s.drop_last(), c);
        if in_circle(s.last().0, c) {
            rest.push(s.last().1)
        } else {
            rest
        }
    }
}

/// `query_seq` distributes over concatenation.
pub proof fn lemma_query_seq_concat(a: Seq<(Vec2, usize)>, b: Seq<(Vec2, usize)>, c: (
    int,
    int,
    int,
))
    ensures
        query_seq(a + b, c) == query_seq(a, c) + query_seq(b, c),
    decreases b.len(),
{
    if b.len() == 0 {
        assert(a + b =~= a);
        assert(query_seq(a, c) + query_seq(b, c) =~= query_seq(a, c));
    } else {
        lemma_query_seq_concat(a, b.drop_last(), c);
        assert((a + b).drop_last() =~= a + b.drop_last());
        assert((a + b).last() == b.last());
        if in_circle(b.last().0, c) {
            assert(query_seq(a, c) + query_seq(b.drop_last(), c).push(b.last().1) =~= (query_seq(
                a,
                c,
            ) + query_seq(b.drop_last(), c)).push(b.last().1));
        }
    }
}

/// An id is among the query results exactly when some stored entry carries
/// it on a point within the circle.
pub proof fn lemma_query_seq_membership(s: Seq<(Vec2, usize)>, c: (int, int, int))
    ensures
        forall|id: usize|
            #[trigger] query_seq(s, c).contains(id) <==> exists|k: int|
                0 <= k < s.len() && (#[trigger] s[k]).1 == id && in_circle(s[k].0, c),
    decreases s.len(),
{
    if s.len() > 0 {
        lemma_query_seq_membership(s.drop_last(), c);
        assert forall|id: usize| #[trigger] query_seq(s, c).contains(id) implies exists|k: int|
            0 <= k < s.len() && (#[trigger] s[k]).1 == id && in_circle(s[k].0, c) by {
            if in_circle(s.last().0, c) && s.last().1 == id {
                assert(s[s.len() - 1] == s.last());
            } else {
                assert(query_seq(s.drop_last(), c).contains(id)) by {
                    let q = query_seq(s, c);
                    let qd = query_seq(s.drop_last(), c);
                    let j = choose|j: int| 0 <= j < q.len() && q[j] == id;
                    if in_circle(s.last().0, c) {
                        assert(q == qd.push(s.last().1));
                        assert(j < qd.len());
                        assert(qd[j] == id);
                    }
                }
                let k = choose|k: int|
                    0 <= k < s.drop_last().len() && (#[trigger] s.drop_last()[k]).1 == id
                        && in_circle(s.drop_last()[k].0, c);
                assert(s[k] == s.drop_last()[k]);
            }
        }
        assert forall|id: usize|
            (exists|k: int| 0 <= k < s.len() && (#[trigger] s[k]).1 == id && in_circle(s[k].0, c))
                implies #[trigger] query_seq(s, c).contains(id) by {
            let k = choose|k: int|
                0 <= k < s.len() && (#[trigger] s[k]).1 == id && in_circle(s[k].0, c);
            if k == s.len() - 1 {
                let qd = query_seq(s.drop_last(), c);
                assert(query_seq(s, c) == qd.push(id));
                assert(query_seq(s, c)[qd.len() as int] == id);
            } else {
                assert(s.drop_last()[k] == s[k]);
                assert(query_seq(s.drop_last(), c).contains(id));
                let qd = query_seq(s.drop_last(), c);
                let j = choose|j: int| 0 <= j < qd.len() && qd[j] == id;
                if in_circle(s.last().0, c) {
                    assert(query_seq(s, c)[j] == id);
                } else {
                    assert(query_seq(s, c)[j] == id);
                }
            }
        }
    }
}

/// A sequence with no point inside the circle yields no ids.
pub proof fn lemma_query_seq_empty(s: Seq<(Vec2, usize)>, c: (int, int, int))
    requires
        forall|k: int| 0 <= k < s.len() ==> !in_circle((#[trigger] s[k]).0, c),
    ensures
        query_seq(s, c) == Seq::<usize>::empty(),
    decreases s.len(),
{
    if s.len() > 0 {
        assert(s[s.len() - 1] == s.last());
        lemma_query_seq_empty(s.drop_last(), c);
    }
}

/// A squared-sum comparison bounds each component's absolute value.
proof fn lemma_square_sum_le(a: int, b: int, r: int)
    requires
        a * a + b * b <= r * r,
        r >= 0,
    ensures
        -r <= a <= r,
        -r <= b <= r,
{
    assert(-r <= a <= r && -r <= b <= r) by (nonlinear_arith)
        requires
            a * a + b * b <= r * r,
            r >= 0,
    ;
}

/// A recursive bounding-box partition of stored `(point, id)` pairs.
pub struct Quadtree {
    rectangle: Rectangle,
    capacity: i16,
    points: Vec<(Vec2, usize)>,
    divided: bool,
    nw: Option<Box<Quadtree>>,
    sw: Option<Box<Quadtree>>,
    ne: Option<Box<Quadtree>>,
    se: Option<Box<Quadtree>>,
}

impl Quadtree {
    /// The stored points of an optional subtree.
    pub closed spec fn opt_pts(node: Option<Box<Quadtree>>) -> Seq<(Vec2, usize)>
        decreases node,
    {
        match node {
            None => Seq::empty(),
            Some(b) => b.pts(),
        }
    }

    /// The stored points of the four children, in query order.
    pub closed spec fn children_pts(self) -> Seq<(Vec2, usize)> {
        Self::opt_pts(self.ne) + Self::opt_pts(self.nw) + Self::opt_pts(self.se) + Self::opt_pts(
            self.sw,
        )
    }

    /// Every stored `(point, id)` pair of the tree, in query order.
    pub closed spec fn pts(self) -> Seq<(Vec2, usize)>
        decreases self,
    {
        Self::opt_pts(self.ne) + Self::opt_pts(self.nw) + Self::opt_pts(self.se) + Self::opt_pts(
            self.sw,
        ) + self.points@
    }

    /// The tree's bounding rectangle.
    pub closed spec fn rect(self) -> Rectangle {
        self.rectangle
    }

    /// The leaf capacity the tree was built with.
    pub closed spec fn capacity_spec(self) -> int {
        self.capacity as int
    }

    /// Well-formedness: points lie in their node's rectangle, a node is a
    /// leaf or has exactly the four quadrant children, and a divided node
    /// holds no points of its own.
    pub closed spec fn wf(self) -> bool
        decreases self,
    {
        &&& self.rectangle.bounded()
        &&& self.capacity >= 1
        &&& forall|k: int|
            0 <= k < self.points@.len() ==> self.rectangle.contains_spec(
                (#[trigger] self.points@[k]).0,
            )
        &&& if self.divided {
            &&& self.points@.len() == 0
            &&& self.rectangle.width >= 2
            &&& self.rectangle.height >= 2
            &&& self.nw is Some
            &&& self.ne is Some
            &&& self.sw is Some
            &&& self.se is Some
            &&& self.nw->0.rectangle == nw_rect(self.rectangle)
            &&& self.ne->0.rectangle == ne_rect(self.rectangle)
            &&& self.sw->0.rectangle == sw_rect(self.rectangle)
            &&& self.se->0.rectangle == se_rect(self.rectangle)
            &&& self.nw->0.wf()
            &&& self.ne->0.wf()
            &&& self.sw->0.wf()
            &&& self.se->0.wf()
        } else {
            &&& self.nw is None
            &&& self.ne is None
            &&& self.sw is None
            &&& self.se is None
            &&& self.rectangle.width >= 2 && self.rectangle.height >= 2
                ==> self.points@.len() <= self.capacity as int
        }
    }

    /// The divided-node part of well-formedness, allowing own points to be
    /// present while a subdivision is in flight.
    pub closed spec fn wf_children(self) -> bool {
        &&& self.rectangle.bounded()
        &&& self.capacity >= 1
        &&& self.divided
        &&& self.rectangle.width >= 2
        &&& self.rectangle.height >= 2
        &&& self.nw is Some
        &&& self.ne is Some
        &&& self.sw is Some
        &&& self.se is Some
        &&& self.nw->0.rectangle == nw_rect(self.rectangle)
        &&& self.ne->0.rectangle == ne_rect(self.rectangle)
        &&& self.sw->0.rectangle == sw_rect(self.rectangle)
        &&& self.se->0.rectangle == se_rect(self.rectangle)
        &&& self.nw->0.wf()
        &&& self.ne->0.wf()
        &&& self.sw->0.wf()
        &&& self.se->0.wf()
    }

    pub fn new(capacity: i16, rectangle: Rectangle) -> (r: Self)
        requires
            capacity >= 1,
            rectangle.bounded(),
        ensures
            r.wf(),
            r.rect() == rectangle,
            r.capacity_spec() == capacity,
            !r.divided_spec(),
            r.pts() == Seq::<(Vec2, usize)>::empty(),
    {
        let r = Quadtree {
            rectangle,
            capacity,
            nw: None,
            sw: None,
            ne: None,
            se: None,
            divided: false,
            points: Vec::new(),
        };
        proof {
            assert(r.pts() =~= Seq::<(Vec2, usize)>::empty());
        }
        r
    }

    /// Drop the four children and the divided mark, keeping the leaf list.
    pub fn reset(&mut self)
        requires
            old(self).wf(),
        ensures
            final(self).wf(),
            final(self).rect() == old(self).rect(),
            final(self).pts() == if old(self).divided_spec() {
                Seq::<(Vec2, usize)>::empty()
            } else {
                old(self).pts()
            },
    {
        self.divided = false;
        self.nw = None;
        self.sw = None;
        self.ne = None;
        self.se = None;
        proof {
            if old(self).divided_spec() {
                assert(self.pts() =~= Seq::<(Vec2, usize)>::empty());
            } else {
                assert(self.pts() =~= old(self).pts());
            }
        }
    }

    /// Whether the node has subdivided.
    pub closed spec fn divided_spec(self) -> bool {
        self.divided
    }

    /// Replace the rectangle's extent. The caller is expected to rebuild or
    /// refill the tree afterwards; on an undivided node whose points all lie
    /// in the new extent, well-formedness is kept outright.
    pub fn set_dimensions(&mut self, width: i64, height: i64)
        requires
            -QT_COORD_LIMIT <= old(self).rect().x,
            old(self).rect().x + width <= QT_COORD_LIMIT,
            -QT_COORD_LIMIT <= old(self).rect().y,
            old(self).rect().y + height <= QT_COORD_LIMIT,
            width >= 0,
            height >= 0,
        ensures
            final(self).rect() == (Rectangle {
                x: old(self).rect().x,
                y: old(self).rect().y,
                width,
                height,
            }),
            final(self).pts() == old(self).pts(),
            final(self).divided_spec() == old(self).divided_spec(),
            old(self).wf() && !old(self).divided_spec() && (width >= 2 && height >= 2 ==> old(
                self,
            ).pts().len() <= old(self).capacity_spec()) && (forall|k: int|
                0 <= k < old(self).pts().len() ==> (Rectangle {
                    x: old(self).rect().x,
                    y: old(self).rect().y,
                    width,
                    height,
                }).contains_spec((#[trigger] old(self).pts()[k]).0)) ==> final(self).wf(),
    {
        self.rectangle.width = width;
        self.rectangle.height = height;
        proof {
            assert(self.pts() =~= old(self).pts());
            if old(self).wf() && !old(self).divided && (width >= 2 && height >= 2 ==> old(
                self,
            ).pts().len() <= old(self).capacity_spec()) && (forall|k: int|
                0 <= k < old(self).pts().len() ==> self.rectangle.contains_spec(
                    (#[trigger] old(self).pts()[k]).0,
                )) {
                assert(old(self).pts() =~= old(self).points@);
                assert forall|k: int| 0 <= k < self.points@.len() implies self.rectangle
                    .contains_spec((#[trigger] self.points@[k]).0) by {
                    assert(old(self).pts()[k] == self.points@[k]);
                }
            }
        }
    }

    /// Insert into a child known to exist.
    fn insert_opt(node: &mut Option<Box<Quadtree>>, position: Vec2, boid_index: usize) -> (r: bool)
        requires
            old(node).is_some(),
            old(node).unwrap().wf(),
        ensures
            final(node).is_some(),
            final(node).unwrap().wf(),
            final(node).unwrap().rectangle == old(node).unwrap().rectangle,
            r == old(node).unwrap().rectangle.contains_spec(position),
            r ==> Self::opt_pts(*final(node)).to_multiset() == Self::opt_pts(
                *old(node),
            ).to_multiset().insert((position, boid_index)),
            !r ==> *final(node) == *old(node),
        decreases old(node).unwrap().rectangle.width + old(node).unwrap().rectangle.height, 4int,
    {
        match node.take() {
            Some(mut boxed) => {
                let r = boxed.insert(position, boid_index);
                *node = Some(boxed);
                r
            },
            None => false,
        }
    }

    /// Hand the point to whichever child's quadrant holds it.
    fn insert_children(&mut self, position: Vec2, boid_index: usize) -> (r: bool)
        requires
            old(self).wf_children(),
        ensures
            final(self).wf_children(),
            final(self).rectangle == old(self).rectangle,
            final(self).capacity == old(self).capacity,
            final(self).points == old(self).points,
            final(self).divided == old(self).divided,
            r == old(self).rectangle.contains_spec(position),
            r ==> final(self).children_pts().to_multiset() == old(
                self,
            ).children_pts().to_multiset().insert((position, boid_index)),
            !r ==> *final(self) == *old(self),
        decreases old(self).rectangle.width + old(self).rectangle.height, 1int,
    {
        proof {
            lemma_quadrants_partition(self.rectangle, position);
        }
        let r1 = Self::insert_opt(&mut self.nw, position, boid_index);
        let r2 = if r1 {
            false
        } else {
            Self::insert_opt(&mut self.ne, position, boid_index)
        };
        let r3 = if r1 || r2 {
            false
        } else {
            Self::insert_opt(&mut self.sw, position, boid_index)
        };
        let r4 = if r1 || r2 || r3 {
            false
        } else {
            Self::insert_opt(&mut self.se, position, boid_index)
        };
        let r = r1 || r2 || r3 || r4;
        proof {
            let pre = *old(self);
            let post = *self;
            if r {
                let pair = (position, boid_index);
                assert(post.children_pts().to_multiset() =~= pre.children_pts().to_multiset()
                    .insert(pair)) by {
                    lemma_multiset_commutative(
                        Self::opt_pts(pre.ne) + Self::opt_pts(pre.nw) + Self::opt_pts(pre.se),
                        Self::opt_pts(pre.sw),
                    );
                    lemma_multiset_commutative(
                        Self::opt_pts(pre.ne) + Self::opt_pts(pre.nw),
                        Self::opt_pts(pre.se),
                    );
                    lemma_multiset_commutative(Self::opt_pts(pre.ne), Self::opt_pts(pre.nw));
                    lemma_multiset_commutative(
                        Self::opt_pts(post.ne) + Self::opt_pts(post.nw) + Self::opt_pts(post.se),
                        Self::opt_pts(post.sw),
                    );
                    lemma_multiset_commutative(
                        Self::opt_pts(post.ne) + Self::opt_pts(post.nw),
                        Self::opt_pts(post.se),
                    );
                    lemma_multiset_commutative(Self::opt_pts(post.ne), Self::opt_pts(post.nw));
                }
            }
        }
        r
    }

    /// Split a full leaf into four quadrant children and hand every held
    /// point down to them.
    #[verifier::loop_isolation(false)]
    fn subdivide(&mut self)
        requires
            old(self).wf(),
            !old(self).divided_spec(),
            old(self).rect().width >= 2,
            old(self).rect().height >= 2,
        ensures
            final(self).wf(),
            final(self).divided_spec(),
            final(self).rectangle == old(self).rectangle,
            final(self).capacity == old(self).capacity,
            final(self).pts().to_multiset() == old(self).pts().to_multiset(),
        decreases old(self).rect().width + old(self).rect().height, 2int,
    {
        let rect = self.rectangle;
        let cap = self.capacity;
        let half_w = ((rect.width as u64) / 2) as i64;
        let half_h = ((rect.height as u64) / 2) as i64;
        self.sw = Some(
            Box::new(
                Quadtree::new(
                    cap,
                    Rectangle { x: rect.x, y: rect.y, width: half_w, height: half_h },
                ),
            ),
        );
        self.nw = Some(
            Box::new(
                Quadtree::new(
                    cap,
                    Rectangle {
                        x: rect.x,
                        y: rect.y + half_h,
                        width: half_w,
                        height: rect.height - half_h,
                    },
                ),
            ),
        );
        self.se = Some(
            Box::new(
                Quadtree::new(
                    cap,
                    Rectangle {
                        x: rect.x + half_w,
                        y: rect.y,
                        width: rect.width - half_w,
                        height: half_h,
                    },
                ),
            ),
        );
        self.ne = Some(
            Box::new(
                Quadtree::new(
                    cap,
                    Rectangle {
                        x: rect.x + half_w,
                        y: rect.y + half_h,
                        width: rect.width - half_w,
                        height: rect.height - half_h,
                    },
                ),
            ),
        );
        self.divided = true;
        proof {
            assert(self.children_pts().to_multiset() =~= self.points@.take(
                0,
            ).to_multiset()) by {
                broadcast use group_to_multiset_ensures;

                assert(self.children_pts() =~= Seq::<(Vec2, usize)>::empty());
                assert(self.points@.take(0) =~= Seq::<(Vec2, usize)>::empty());
            }
        }
        let n = self.points.len();
        let mut k: usize = 0;
        while k < n
            invariant
                self.wf_children(),
                self.rectangle == old(self).rectangle,
                self.capacity == old(self).capacity,
                self.points == old(self).points,
                n == self.points@.len(),
                k <= n,
                self.children_pts().to_multiset() == self.points@.take(k as int).to_multiset(),
            decreases n - k,
        {
            let pr = self.points[k];
            proof {
                assert(self.rectangle.contains_spec(pr.0));
            }
            let inserted = self.insert_children(pr.0, pr.1);
            proof {
                broadcast use group_to_multiset_ensures;

                assert(self.points@.take(k as int + 1) =~= self.points@.take(k as int).push(pr));
            }
            k = k + 1;
        }
        self.points = Vec::new();
        proof {
            assert(old(self).points@.take(n as int) =~= old(self).points@);
            assert(self.pts() =~= self.children_pts());
            assert(old(self).pts() =~= old(self).points@) by {
                assert(Self::opt_pts(old(self).ne) =~= Seq::<(Vec2, usize)>::empty());
                assert(old(self).pts() =~= Seq::<(Vec2, usize)>::empty() + Seq::<
                    (Vec2, usize),
                >::empty() + Seq::<(Vec2, usize)>::empty() + Seq::<(Vec2, usize)>::empty() + old(
                    self,
                ).points@);
            }
        }
    }

    /// Insert `position` under `boid_index`: succeeds exactly when the point
    /// lies in this node's rectangle, and then adds the pair to the stored
    /// set; a point outside leaves the tree untouched.
    pub fn insert(&mut self, position: Vec2, boid_index: usize) -> (r: bool)
        requires
            old(self).wf(),
        ensures
            final(self).wf(),
            final(self).rect() == old(self).rect(),
            r == old(self).rect().contains_spec(position),
            r ==> final(self).pts().to_multiset() == old(self).pts().to_multiset().insert(
                (position, boid_index),
            ),
            !r ==> *final(self) == *old(self),
        decreases old(self).rect().width + old(self).rect().height, 3int,
    {
        if !self.rectangle.contains(position) {
            false
        } else if self.divided {
            let r = self.insert_children(position, boid_index);
            proof {
                let pre = *old(self);
                let post = *self;
                lemma_multiset_commutative(pre.children_pts(), pre.points@);
                lemma_multiset_commutative(post.children_pts(), post.points@);
                assert(pre.pts() =~= pre.children_pts() + pre.points@);
                assert(post.pts() =~= post.children_pts() + post.points@);
                assert(post.pts().to_multiset() =~= pre.pts().to_multiset().insert(
                    (position, boid_index),
                ));
            }
            r
        } else if self.points.len() < self.capacity as usize {
            self.points.push((position, boid_index));
            proof {
                broadcast use group_to_multiset_ensures;

                let pre = *old(self);
                let post = *self;
                lemma_multiset_commutative(pre.children_pts(), pre.points@);
                lemma_multiset_commutative(post.children_pts(), post.points@);
                assert(pre.pts() =~= pre.children_pts() + pre.points@);
                assert(post.pts() =~= post.children_pts() + post.points@);
                assert(post.points@ == pre.points@.push((position, boid_index)));
                assert(post.pts().to_multiset() =~= pre.pts().to_multiset().insert(
                    (position, boid_index),
                ));
            }
            true
        } else if self.rectangle.width >= 2 && self.rectangle.height >= 2 {
            self.subdivide();
            let ghost mid = *self;
            let r = self.insert_children(position, boid_index);
            proof {
                let post = *self;
                lemma_multiset_commutative(mid.children_pts(), mid.points@);
                lemma_multiset_commutative(post.children_pts(), post.points@);
                assert(mid.pts() =~= mid.children_pts() + mid.points@);
                assert(post.pts() =~= post.children_pts() + post.points@);
                assert(post.pts().to_multiset() =~= old(self).pts().to_multiset().insert(
                    (position, boid_index),
                ));
            }
            true
        } else {
            // A degenerate rectangle cannot subdivide into nonempty
            // quadrants; the leaf takes the point beyond its capacity so
            // that insertion still succeeds everywhere in the rectangle.
            self.points.push((position, boid_index));
            proof {
                broadcast use group_to_multiset_ensures;

                let pre = *old(self);
                let post = *self;
                lemma_multiset_commutative(pre.children_pts(), pre.points@);
                lemma_multiset_commutative(post.children_pts(), post.points@);
                assert(pre.pts() =~= pre.children_pts() + pre.points@);
                assert(post.pts() =~= post.children_pts() + post.points@);
                assert(post.pts().to_multiset() =~= pre.pts().to_multiset().insert(
                    (position, boid_index),
                ));
            }
            true
        }
    }

    /// Collect the ids of all stored points within the given circle. The
    /// node prunes its own point check when its rectangle misses the
    /// circle's bounding square, and always descends into children.
    #[verifier::loop_isolation(false)]
    pub fn query(&self, circle: (i64, i64, i64)) -> (found: Vec<usize>)
        requires
            self.wf(),
            -QT_COORD_LIMIT <= circle.0 <= QT_COORD_LIMIT,
            -QT_COORD_LIMIT <= circle.1 <= QT_COORD_LIMIT,
            0 <= circle.2 <= QT_COORD_LIMIT,
        ensures
            found@ == query_seq(
                self.pts(),
                (circle.0 as int, circle.1 as int, circle.2 as int),
            ),
        decreases *self,
    {
        let ghost c = (circle.0 as int, circle.1 as int, circle.2 as int);
        let mut found: Vec<usize> = Vec::new();
        if self.divided {
            match &self.ne {
                Some(b) => {
                    let mut part = b.query(circle);
                    found.append(&mut part);
                },
                None => {},
            }
            match &self.nw {
                Some(b) => {
                    let mut part = b.query(circle);
                    found.append(&mut part);
                },
                None => {},
            }
            match &self.se {
                Some(b) => {
                    let mut part = b.query(circle);
                    found.append(&mut part);
                },
                None => {},
            }
            match &self.sw {
                Some(b) => {
                    let mut part = b.query(circle);
                    found.append(&mut part);
                },
                None => {},
            }
        }
        let ghost base = found@;
        proof {
            assert(base =~= query_seq(self.children_pts(), c)) by {
                if self.divided {
                    lemma_query_seq_concat(
                        Self::opt_pts(self.ne) + Self::opt_pts(self.nw) + Self::opt_pts(self.se),
                        Self::opt_pts(self.sw),
                        c,
                    );
                    lemma_query_seq_concat(
                        Self::opt_pts(self.ne) + Self::opt_pts(self.nw),
                        Self::opt_pts(self.se),
                        c,
                    );
                    lemma_query_seq_concat(Self::opt_pts(self.ne), Self::opt_pts(self.nw), c);
                } else {
                    assert(self.children_pts() =~= Seq::<(Vec2, usize)>::empty());
                }
            }
        }
        if self.rectangle.intersectCircle(circle) {
            let n = self.points.len();
            let mut k: usize = 0;
            while k < n
                invariant
                    self.wf(),
                    n == self.points@.len(),
                    k <= n,
                    -QT_COORD_LIMIT <= circle.0 <= QT_COORD_LIMIT,
                    -QT_COORD_LIMIT <= circle.1 <= QT_COORD_LIMIT,
                    0 <= circle.2 <= QT_COORD_LIMIT,
                    c == (circle.0 as int, circle.1 as int, circle.2 as int),
                    found@ == base + query_seq(self.points@.take(k as int), c),
                decreases n - k,
            {
                let p = self.points[k];
                proof {
                    assert(self.rectangle.contains_spec(p.0));
                }
                let dx = p.0.x - circle.0;
                let dy = p.0.y - circle.1;
                proof {
                    assert(0 <= (dx as int) * (dx as int) <= 40_000_000_000_000_000 && 0 <= (
                    dy as int) * (dy as int) <= 40_000_000_000_000_000 && 0 <= (circle.2 as int) * (
                    circle.2 as int) <= 10_000_000_000_000_000) by (nonlinear_arith)
                        requires
                            -200_000_000 <= dx as int <= 200_000_000,
                            -200_000_000 <= dy as int <= 200_000_000,
                            0 <= circle.2 as int <= 100_000_000,
                    ;
                }
                if dx * dx + dy * dy <= circle.2 * circle.2 {
                    found.push(p.1);
                }
                proof {
                    let prefix = self.points@.take(k as int);
                    let taken = self.points@.take(k as int + 1);
                    assert(taken =~= prefix.push(p));
                    assert(taken.drop_last() =~= prefix);
                    assert(taken.last() == p);
                    if in_circle(p.0, c) {
                        assert(query_seq(taken, c) == query_seq(prefix, c).push(p.1));
                        assert(found@ =~= base + query_seq(prefix, c).push(p.1));
                    } else {
                        assert(query_seq(taken, c) == query_seq(prefix, c));
                    }
                }
                k = k + 1;
            }
            proof {
                assert(self.points@.take(n as int) =~= self.points@);
            }
        } else {
            proof {
                assert forall|k: int| 0 <= k < self.points@.len() implies !in_circle(
                    (#[trigger] self.points@[k]).0,
                    c,
                ) by {
                    let p = self.points@[k].0;
                    if in_circle(p, c) {
                        lemma_square_sum_le(p.x - c.0, p.y - c.1, c.2);
                    }
                }
                lemma_query_seq_empty(self.points@, c);
            }
        }
        proof {
            lemma_query_seq_concat(self.children_pts(), self.points@, c);
            assert(self.pts() =~= self.children_pts() + self.points@);
        }
        found
    }
}

/// Every point inserted inside the root rectangle is found again by any
/// query circle that holds it: insertion leaves the pair in the stored
/// set, and the query result carries its id.
pub proof fn lemma_inserted_point_is_found(
    pre: Seq<(Vec2, usize)>,
    post: Seq<(Vec2, usize)>,
    p: Vec2,
    id: usize,
    c: (int, int, int),
)
    requires
        post.to_multiset() == pre.to_multiset().insert((p, id)),
        in_circle(p, c),
    ensures
        query_seq(post, c).contains(id),
{
    broadcast use group_to_multiset_ensures;

    assert(post.to_multiset().count((p, id)) > 0);
    assert(post.contains((p, id)));
    let k = choose|k: int| 0 <= k < post.len() && post[k] == (p, id);
    lemma_query_seq_membership(post, c);
    assert(post[k].1 == id && in_circle(post[k].0, c));
}

/// A query with radius zero returns exactly the ids whose stored point
/// equals the query center.
pub proof fn lemma_zero_radius_query_exact(s: Seq<(Vec2, usize)>, cx: int, cy: int)
    ensures
        forall|id: usize|
            #[trigger] query_seq(s, (cx, cy, 0)).contains(id) <==> exists|k: int|
                0 <= k < s.len() && (#[trigger] s[k]).1 == id && s[k].0.x == cx && s[k].0.y == cy,
{
    lemma_query_seq_membership(s, (cx, cy, 0));
    assert forall|p: Vec2| #[trigger] in_circle(p, (cx, cy, 0)) implies p.x == cx && p.y == cy by {
        lemma_square_sum_le(p.x - cx, p.y - cy, 0);
    }
    assert forall|p: Vec2| p.x == cx && p.y == cy implies #[trigger] in_circle(
        p,
        (cx, cy, 0),
    ) by {}
}

} // verus!
