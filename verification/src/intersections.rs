//! Intersections of a ray with objects: which of them is seen, and what is
//! known of the surface there.

use vstd::prelude::*;
use crate::object::Object;
use crate::rays::Ray;
use crate::scalar::Scalar;
use crate::scalar::ONE_BITS;
use crate::tuples::Tuple;

verus! {

/// A place where a ray meets an object: `t` along the ray.
#[derive(Clone, Copy, Debug, PartialEq)]
pub struct Intersection<'a> {
    pub t: Scalar,
    pub object: &'a Object,
}

/// What arithmetic finds of the surface at an intersection, before it is known
/// from which side the ray comes.
#[derive(Clone, Copy, Debug)]
pub struct Surface {
    /// The point of the ray at the intersection.
    pub point: Tuple,
    /// The normal of the object at that point.
    pub normal: Tuple,
    /// The dot product of that normal with the vector to the eye.
    pub normal_dot_eye: Scalar,
    /// The ray's direction reflected about the normal. About the opposite
    /// normal it is the same vector.
    pub reflectv: Tuple,
    /// The point, moved a little along the normal.
    pub above: Tuple,
    /// The point, moved a little against the normal.
    pub below: Tuple,
}

/// What shading needs to know of the place where a ray hits.
#[derive(Clone, Copy, Debug)]
pub struct Computations<'a> {
    pub t: Scalar,
    pub object: &'a Object,
    pub point: Tuple,
    /// The point, moved off the surface to the side that the eye is on.
    pub over_point: Tuple,
    /// The point, moved off the surface to the side away from the eye.
    pub under_point: Tuple,
    pub eyev: Tuple,
    /// The normal on the side that the eye is on.
    pub normalv: Tuple,
    pub reflectv: Tuple,
    /// The refractive index of what the ray leaves.
    pub n1: Scalar,
    /// The refractive index of what the ray enters.
    pub n2: Scalar,
    /// Whether the ray hits the surface from inside the object.
    pub inside: bool,
}

/// An object that a ray is inside of, as far as refraction goes.
pub struct Medium {
    pub id: u128,
    pub refractive_index: Scalar,
}

/// Whether the intersection can be seen: it lies at zero or further along the
/// ray. What lies behind the ray's origin cannot.
pub open spec fn visible(x: Intersection) -> bool {
    x.t.non_negative()
}

/// The hit among the first `n` intersections, by its index: the visible one
/// with the least `t`, and of several with that `t` the first.
pub open spec fn nearest(xs: Seq<Intersection>, n: int) -> Option<int>
    decreases n,
{
    if n <= 0 {
        None
    } else {
        match nearest(xs, n - 1) {
            None => if visible(xs[n - 1]) {
                Some(n - 1)
            } else {
                None
            },
            Some(best) => if visible(xs[n - 1]) && xs[n - 1].t.less(xs[best].t) {
                Some(n - 1)
            } else {
                Some(best)
            },
        }
    }
}

/// The index of the hit among all of `xs`.
pub open spec fn hit_index(xs: Seq<Intersection>) -> Option<int> {
    nearest(xs, xs.len() as int)
}

/// What it is to be the hit: to be visible, with no visible intersection
/// nearer, and none as near that comes earlier.
pub open spec fn is_hit(xs: Seq<Intersection>, i: int) -> bool {
    &&& 0 <= i < xs.len()
    &&& visible(xs[i])
    &&& forall|j: int| 0 <= j < xs.len() && visible(xs[j]) ==> xs[i].t.rank() <= xs[j].t.rank()
    &&& forall|j: int| 0 <= j < i && visible(xs[j]) ==> xs[i].t.rank() < xs[j].t.rank()
}

/// `nearest` finds the hit among the first `n` intersections, and finds none
/// only where none of them is visible.
pub proof fn lemma_nearest(xs: Seq<Intersection>, n: int)
    requires
        0 <= n <= xs.len(),
    ensures
        nearest(xs, n) is None <==> forall|j: int| 0 <= j < n ==> !visible(xs[j]),
        nearest(xs, n) matches Some(i) ==> is_hit(xs.take(n), i),
    decreases n,
{
    if n > 0 {
        lemma_nearest(xs, n - 1);
        match nearest(xs, n - 1) {
            None => {},
            Some(best) => {
                assert(is_hit(xs.take(n - 1), best));
                assert forall|j: int| 0 <= j < n - 1 && visible(xs[j]) implies xs[best].t.rank()
                    <= xs[j].t.rank() by {
                    assert(xs.take(n - 1)[j] == xs[j]);
                }
                assert forall|j: int| 0 <= j < best && visible(xs[j]) implies xs[best].t.rank()
                    < xs[j].t.rank() by {
                    assert(xs.take(n - 1)[j] == xs[j]);
                }
            },
        }
    }
}

/// The hit of a list of intersections: the one that is seen. Of the
/// intersections that are not behind the ray's origin it is the nearest, and of
/// several at the same distance the first. Where every intersection lies behind
/// the origin, nothing is seen.
pub fn hit<'a, 'b>(intersections: &'b [Intersection<'a>]) -> (r: Option<&'b Intersection<'a>>)
    ensures
        r is None <==> hit_index(intersections@) is None,
        r is None <==> forall|j: int| 0 <= j < intersections@.len() ==> !visible(intersections@[j]),
        r matches Some(x) ==> {
            &&& hit_index(intersections@) matches Some(i)
            &&& *x == intersections@[i]
            &&& is_hit(intersections@, i)
        },
{
    let mut best: Option<usize> = None;
    let mut n: usize = 0;
    while n < intersections.len()
        invariant
            0 <= n <= intersections@.len(),
            match best {
                Some(b) => nearest(intersections@, n as int) == Some(b as int) && b < n,
                None => nearest(intersections@, n as int) is None,
            },
        decreases intersections@.len() - n,
    {
        let x = &intersections[n];
        if x.t.is_non_negative() {
            match best {
                None => {
                    best = Some(n);
                },
                Some(b) => {
                    if x.t.lt(intersections[b].t) {
                        best = Some(n);
                    }
                },
            }
        }
        n = n + 1;
    }
    proof {
        lemma_nearest(intersections@, intersections@.len() as int);
        assert(intersections@.take(intersections@.len() as int) =~= intersections@);
    }
    match best {
        Some(b) => Some(&intersections[b]),
        None => None,
    }
}

/// Where in `inside` the object with the given identifier stands, or the
/// length of `inside` where it does not.
pub open spec fn place_of(inside: Seq<Medium>, id: u128) -> int
    decreases inside.len(),
{
    if inside.len() == 0 {
        0
    } else if inside[0].id == id {
        0
    } else {
        1 + place_of(inside.drop_first(), id)
    }
}

/// The objects the ray is inside of once it has crossed a surface of `medium`:
/// an object it was inside of is left, any other is entered last.
pub open spec fn cross(inside: Seq<Medium>, medium: Medium) -> Seq<Medium> {
    let at = place_of(inside, medium.id);
    if at < inside.len() {
        inside.remove(at)
    } else {
        inside.push(medium)
    }
}

/// The object of an intersection, as far as refraction goes.
pub open spec fn medium_of(x: Intersection) -> Medium {
    Medium { id: x.object.id, refractive_index: x.object.material.refractive_index }
}

/// The objects the ray is inside of after the first `n` intersections, in the
/// order in which it entered them.
pub open spec fn inside_after(xs: Seq<&Intersection>, n: int) -> Seq<Medium>
    decreases n,
{
    if n <= 0 {
        Seq::empty()
    } else {
        cross(inside_after(xs, n - 1), medium_of(*xs[n - 1]))
    }
}

/// The refractive index where the ray is inside of the given objects: that of
/// the object entered last, and one in empty space.
pub open spec fn index_within(inside: Seq<Medium>) -> Scalar {
    if inside.len() == 0 {
        Scalar { bits: ONE_BITS }
    } else {
        inside.last().refractive_index
    }
}

/// Whether `x` is the intersection `hit`: on the same object, at an equal `t`.
pub open spec fn is_same(x: Intersection, hit: Intersection) -> bool {
    x.object.id == hit.object.id && x.t.same(hit.t)
}

/// The index at which `hit` is listed first among the first `n` of `xs`, or `n`
/// where it is not.
pub open spec fn listed_at(xs: Seq<&Intersection>, hit: Intersection, n: int) -> int
    decreases n,
{
    if n <= 0 {
        0
    } else {
        let before = listed_at(xs, hit, n - 1);
        if before < n - 1 || is_same(*xs[n - 1], hit) {
            before
        } else {
            n
        }
    }
}

impl<'a> Intersection<'a> {
    /// The intersection with `object` at `t`.
    pub fn new(t: Scalar, object: &'a Object) -> (i: Intersection<'a>)
        ensures
            i == (Intersection { t, object }),
    {
        Intersection { t, object }
    }

    /// Whether the intersection is one of `xs`.
    pub open spec fn listed_in(self, xs: Seq<&Intersection>) -> bool {
        listed_at(xs, self, xs.len() as int) < xs.len()
    }

    /// What is known of the hit `self` of `ray`, where `xs` lists all
    /// intersections of the ray in ascending order and `surface` is what
    /// arithmetic found at the hit.
    pub open spec fn computations(self, ray: Ray, xs: Seq<&Intersection>, surface: Surface)
        -> Computations<'a> {
        let at = listed_at(xs, self, xs.len() as int);
        let inside = surface.normal_dot_eye.negative();
        Computations {
            t: self.t,
            object: self.object,
            point: surface.point,
            over_point: if inside {
                surface.below
            } else {
                surface.above
            },
            under_point: if inside {
                surface.above
            } else {
                surface.below
            },
            eyev: ray.direction.negated(),
            normalv: if inside {
                surface.normal.negated()
            } else {
                surface.normal
            },
            reflectv: surface.reflectv,
            n1: index_within(inside_after(xs, at)),
            n2: index_within(inside_after(xs, at + 1)),
            inside,
        }
    }

    /// Prepares the shading of this hit of `ray`.
    ///
    /// The vector to the eye is the opposite of the ray's direction. Where the
    /// normal points away from the eye, the ray hits from inside: the normal is
    /// turned round, and with it the sides to which the point is moved off the
    /// surface. The refractive indices come from walking along
    /// `relative_intersections`, which lists every intersection of the ray in
    /// ascending order, this one included: the ray enters an object where it
    /// meets it for the first time and leaves it where it meets it again;
    /// `n1` belongs to the object entered last before this intersection, `n2`
    /// to the one entered last after it, and either is one in empty space.
    pub fn prepare_computations(
        &self,
        ray: &Ray,
        relative_intersections: &[&Intersection],
        surface: &Surface,
    ) -> (comps: Computations<'a>)
        requires
            self.listed_in(relative_intersections@),
        ensures
            comps == self.computations(*ray, relative_intersections@, *surface),
    {
        let (n1, n2) = self.refractive_indices(relative_intersections);
        let inside = surface.normal_dot_eye.is_negative();
        if inside {
            Computations {
                t: self.t,
                object: self.object,
                point: surface.point,
                over_point: surface.below,
                under_point: surface.above,
                eyev: ray.direction.neg(),
                normalv: surface.normal.neg(),
                reflectv: surface.reflectv,
                n1,
                n2,
                inside,
            }
        } else {
            Computations {
                t: self.t,
                object: self.object,
                point: surface.point,
                over_point: surface.above,
                under_point: surface.below,
                eyev: ray.direction.neg(),
                normalv: surface.normal,
                reflectv: surface.reflectv,
                n1,
                n2,
                inside,
            }
        }
    }

    /// The refractive indices on the two sides of this intersection: of what
    /// the ray leaves, and of what it enters.
    pub fn refractive_indices(&self, xs: &[&Intersection]) -> (n: (Scalar, Scalar))
        requires
            self.listed_in(xs@),
        ensures
            n.0 == index_within(inside_after(xs@, listed_at(xs@, *self, xs@.len() as int))),
            n.1 == index_within(inside_after(xs@, listed_at(xs@, *self, xs@.len() as int) + 1)),
    {
        let mut inside: Vec<Medium> = Vec::new();
        let mut i: usize = 0;
        loop
            invariant
                0 <= i < xs@.len(),
                listed_at(xs@, *self, i as int) == i,
                self.listed_in(xs@),
                inside@ == inside_after(xs@, i as int),
            decreases xs@.len() - i,
        {
            let x = xs[i];
            let found = x.object.id == self.object.id && x.t == self.t;
            let n1 = top_index(&inside);
            enter_or_leave(&mut inside, x);
            if found {
                let n2 = top_index(&inside);
                proof {
                    lemma_listed_stays(xs@, *self, i as int + 1, xs@.len() as int);
                }
                return (n1, n2);
            }
            proof {
                if i + 1 == xs@.len() {
                    assert(listed_at(xs@, *self, xs@.len() as int) == xs@.len());
                }
            }
            i = i + 1;
        }
    }
}

/// What the ray enters at one intersection is what it leaves at the next: `n2`
/// of the one is `n1` of the other.
pub proof fn lemma_entered_then_left(
    xs: Seq<&Intersection>,
    first: Intersection,
    second: Intersection,
    ray: Ray,
    at_first: Surface,
    at_second: Surface,
)
    requires
        first.listed_in(xs),
        second.listed_in(xs),
        listed_at(xs, second, xs.len() as int) == listed_at(xs, first, xs.len() as int) + 1,
    ensures
        first.computations(ray, xs, at_first).n2 == second.computations(ray, xs, at_second).n1,
{
}

/// How often the object with the given identifier is met among the first `n`
/// intersections.
pub open spec fn meetings(xs: Seq<&Intersection>, id: u128, n: int) -> nat
    decreases n,
{
    if n <= 0 {
        0
    } else if xs[n - 1].object.id == id {
        meetings(xs, id, n - 1) + 1
    } else {
        meetings(xs, id, n - 1)
    }
}

/// Whether the object with the given identifier is among `inside`.
pub open spec fn contains_id(inside: Seq<Medium>, id: u128) -> bool {
    exists|i: int| 0 <= i < inside.len() && #[trigger] inside[i].id == id
}

/// Whether no object is listed twice.
pub open spec fn distinct(inside: Seq<Medium>) -> bool {
    forall|i: int, j: int|
        0 <= i < j < inside.len() ==> #[trigger] inside[i].id != #[trigger] inside[j].id
}

/// `place_of` finds the first place of an identifier, and runs to the end
/// only where the identifier is not there.
proof fn lemma_place_of(inside: Seq<Medium>, id: u128)
    ensures
        0 <= place_of(inside, id) <= inside.len(),
        place_of(inside, id) < inside.len() ==> inside[place_of(inside, id)].id == id,
        forall|i: int| 0 <= i < place_of(inside, id) ==> (#[trigger] inside[i]).id != id,
    decreases inside.len(),
{
    if inside.len() > 0 && inside[0].id != id {
        let rest = inside.drop_first();
        lemma_place_of(rest, id);
        assert forall|i: int| 0 <= i < place_of(inside, id) implies (#[trigger] inside[i]).id
            != id by {
            if i > 0 {
                assert(rest[i - 1] == inside[i]);
            }
        }
    }
}

/// Crossing a surface of an object changes whether the ray is inside that
/// object, and nothing else.
proof fn lemma_cross(inside: Seq<Medium>, medium: Medium)
    requires
        distinct(inside),
    ensures
        distinct(cross(inside, medium)),
        contains_id(cross(inside, medium), medium.id) == !contains_id(inside, medium.id),
        forall|id: u128|
            id != medium.id ==> contains_id(cross(inside, medium), id) == contains_id(inside, id),
{
    lemma_place_of(inside, medium.id);
    let at = place_of(inside, medium.id);
    let after = cross(inside, medium);
    if at < inside.len() {
        assert forall|i: int| 0 <= i < after.len() implies #[trigger] after[i] == inside[if i
            < at {
            i
        } else {
            i + 1
        }] by {}
        assert(!contains_id(after, medium.id)) by {
            if contains_id(after, medium.id) {
                let i = choose|i: int| 0 <= i < after.len() && #[trigger] after[i].id == medium.id;
                let k = if i < at {
                    i
                } else {
                    i + 1
                };
                assert(inside[k].id == medium.id);
            }
        }
        assert(contains_id(inside, medium.id));
        assert forall|id: u128| id != medium.id implies contains_id(after, id) == contains_id(
            inside,
            id,
        ) by {
            if contains_id(inside, id) {
                let k = choose|k: int| 0 <= k < inside.len() && #[trigger] inside[k].id == id;
                let i = if k < at {
                    k
                } else {
                    k - 1
                };
                assert(after[i].id == id);
            }
            if contains_id(after, id) {
                let i = choose|i: int| 0 <= i < after.len() && #[trigger] after[i].id == id;
                let k = if i < at {
                    i
                } else {
                    i + 1
                };
                assert(inside[k].id == id);
            }
        }
    } else {
        assert(after.last() == medium);
        assert(after[inside.len() as int].id == medium.id);
        assert(!contains_id(inside, medium.id));
        assert forall|id: u128| id != medium.id implies contains_id(after, id) == contains_id(
            inside,
            id,
        ) by {
            if contains_id(inside, id) {
                let k = choose|k: int| 0 <= k < inside.len() && #[trigger] inside[k].id == id;
                assert(after[k].id == id);
            }
            if contains_id(after, id) {
                let i = choose|i: int| 0 <= i < after.len() && #[trigger] after[i].id == id;
                assert(inside[i].id == id);
            }
        }
    }
}

/// The ray is inside an object exactly when it has met it an odd number of
/// times, and no object is listed twice among those it is inside of.
pub proof fn lemma_inside_after(xs: Seq<&Intersection>, n: int)
    requires
        0 <= n <= xs.len(),
    ensures
        distinct(inside_after(xs, n)),
        forall|id: u128| contains_id(inside_after(xs, n), id) == (meetings(xs, id, n) % 2 == 1),
    decreases n,
{
    if n > 0 {
        lemma_inside_after(xs, n - 1);
        let before = inside_after(xs, n - 1);
        let medium = medium_of(*xs[n - 1]);
        lemma_cross(before, medium);
        assert forall|id: u128| contains_id(inside_after(xs, n), id) == (meetings(xs, id, n) % 2
            == 1) by {
            assert(contains_id(before, id) == (meetings(xs, id, n - 1) % 2 == 1));
            if id == medium.id {
                assert(meetings(xs, id, n) == meetings(xs, id, n - 1) + 1);
            } else {
                assert(meetings(xs, id, n) == meetings(xs, id, n - 1));
            }
        }
    } else {
        assert forall|id: u128| contains_id(inside_after(xs, n), id) == (meetings(xs, id, n) % 2
            == 1) by {}
    }
}

/// Once the ray has met every object an even number of times, it is in empty
/// space: what it enters at the last intersection has a refractive index of
/// one.
pub proof fn lemma_out_in_the_open(xs: Seq<&Intersection>, n: int)
    requires
        0 <= n <= xs.len(),
        forall|id: u128| meetings(xs, id, n) % 2 == 0,
    ensures
        inside_after(xs, n).len() == 0,
        index_within(inside_after(xs, n)) == (Scalar { bits: ONE_BITS }),
{
    lemma_inside_after(xs, n);
    let inside = inside_after(xs, n);
    if inside.len() > 0 {
        assert(contains_id(inside, inside[0].id));
    }
}

/// Once listed, listed at the same index however many more are looked at.
proof fn lemma_listed_stays(xs: Seq<&Intersection>, hit: Intersection, n: int, m: int)
    requires
        0 <= n <= m,
        listed_at(xs, hit, n) < n,
    ensures
        listed_at(xs, hit, m) == listed_at(xs, hit, n),
    decreases m - n,
{
    if n < m {
        lemma_listed_stays(xs, hit, n, m - 1);
    }
}

fn top_index(inside: &Vec<Medium>) -> (n: Scalar)
    ensures
        n == index_within(inside@),
{
    if inside.len() == 0 {
        Scalar::new_one()
    } else {
        inside[inside.len() - 1].refractive_index
    }
}

fn enter_or_leave(inside: &mut Vec<Medium>, x: &Intersection)
    ensures
        final(inside)@ == cross(old(inside)@, medium_of(*x)),
{
    let id: u128 = x.object.id;
    let mut at: usize = 0;
    assert(inside@.skip(0) =~= inside@);
    while at < inside.len() && inside[at].id != id
        invariant
            0 <= at <= inside@.len(),
            place_of(inside@, id) == at + place_of(inside@.skip(at as int), id),
        decreases inside@.len() - at,
    {
        proof {
            let rest = inside@.skip(at as int);
            assert(rest[0] == inside@[at as int]);
            assert(rest.drop_first() =~= inside@.skip(at as int + 1));
        }
        at = at + 1;
    }
    proof {
        let rest = inside@.skip(at as int);
        if at < inside@.len() {
            assert(rest[0] == inside@[at as int]);
        }
    }
    if at < inside.len() {
        inside.remove(at);
    } else {
        inside.push(Medium { id, refractive_index: x.object.material.refractive_index });
    }
}

} // verus!
