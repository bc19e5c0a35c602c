//! The world: the objects, the light, and what a ray shows of them.
//!
//! Finding where a ray meets a shape is arithmetic and the caller's. The world
//! takes what the shapes found, one answer for each object, and decides from
//! there: in which order the ray meets the objects, which of them it shows,
//! whether a point lies in shadow, and whether a reflection is followed.

use std::rc::Rc;
use vstd::arithmetic::power2::lemma2_to64_rest;
use vstd::prelude::*;
use crate::colors::Color;
use crate::intersections::hit;
use crate::intersections::hit_index;
use crate::intersections::is_hit;
use crate::intersections::lemma_nearest;
use crate::intersections::visible;
use crate::intersections::Computations;
use crate::intersections::Intersection;
use crate::lights::PointLight;
use crate::materials::Illumination;
use crate::materials::Material;
use crate::matrices::identity_entry;
use crate::matrices::is_identity;
use crate::object::Object;
use crate::rays::Ray;
use crate::scalar::lemma_stands_for;
use crate::scalar::Scalar;
use crate::scalar::ONE_BITS;
use crate::shapes::Shape;
use crate::shapes::Sphere;
use crate::tuples::Tuple;

verus! {

/// How many reflections a ray is followed through.
pub const RAY_LIMIT: u32 = 5;

/// Ten, the distance of the default light from each of the three coordinate
/// planes.
pub const TEN_BITS: u64 = 0x4024_0000_0000_0000;

/// Minus ten.
pub const MINUS_TEN_BITS: u64 = 0xC024_0000_0000_0000;

/// One half, the radius of the inner sphere of the default world.
pub const HALF_BITS: u64 = 0x3FE0_0000_0000_0000;

/// Eight tenths, the red part of the colour of the outer sphere of the default
/// world. Its green part is one.
pub const OUTER_RED_BITS: u64 = 0x3FE9_9999_9999_999A;

/// Six tenths, the blue part of that colour.
pub const OUTER_BLUE_BITS: u64 = 0x3FE3_3333_3333_3333;

/// Seven tenths, the diffuse part of the outer sphere of the default world.
pub const OUTER_DIFFUSE_BITS: u64 = 0x3FE6_6666_6666_6666;

/// Two tenths, its specular part.
pub const OUTER_SPECULAR_BITS: u64 = 0x3FC9_9999_9999_999A;

/// What each object's shape found for a ray: nothing, or two roots.
pub type Roots = Option<[Scalar; 2]>;

/// The scene: objects, and at most one light.
pub struct World {
    pub light_source: Option<PointLight>,
    pub objects: Vec<Object>,
}

/// The determinants that vouch for one object: that of its transform and that
/// of the transform of its pattern. The second is not looked at where the
/// object's material has no pattern.
#[derive(Clone, Copy, Debug)]
pub struct Determinants {
    pub transform: Scalar,
    pub pattern: Scalar,
}

/// Why a scene cannot be rendered.
#[derive(Clone, Copy, Debug, PartialEq, Eq, Structural)]
pub enum SceneError {
    /// The world has no light.
    MissingLight,
    /// The transform of the object with this index cannot be inverted.
    SingularTransform { object: usize },
    /// The transform of the pattern of the object with this index cannot be
    /// inverted.
    SingularPatternTransform { object: usize },
}

/// What a ray shows.
#[derive(Clone, Copy, Debug)]
pub enum Sight<'a> {
    /// Nothing: the ray meets no object in front of its origin. The colour is
    /// that of the background, black.
    Background(Color),
    /// The surface of an object, at the hit.
    Surface(Intersection<'a>),
}

/// What a surface adds by reflection.
#[derive(Clone, Copy, Debug)]
pub enum Reflection {
    /// Nothing: black.
    Black(Color),
    /// The colour that `ray` shows when followed through `remaining` further
    /// reflections, times `reflective`.
    Bounce { ray: Ray, remaining: u32, reflective: Scalar },
}

/// How a hit is shaded: the terms of its own colour, and what reflection adds.
#[derive(Clone, Copy, Debug)]
pub struct Shade {
    /// Whether the point lies in shadow.
    pub in_shadow: bool,
    pub surface: Illumination,
    pub reflected: Reflection,
}

/// The key by which intersections are ordered: the rank of `t`, and for what
/// is not a number a key above every rank.
pub open spec fn sort_key(x: Intersection) -> int {
    if x.t.nan() {
        0x8000_0000_0000_0000
    } else {
        x.t.rank()
    }
}

/// `x` put into an ordered list: behind everything that does not come after
/// it, and so behind its equals.
pub open spec fn inserted<'a>(sorted: Seq<Intersection<'a>>, x: Intersection<'a>) -> Seq<
    Intersection<'a>,
>
    decreases sorted.len(),
{
    if sorted.len() == 0 {
        seq![x]
    } else if sort_key(sorted.last()) <= sort_key(x) {
        sorted.push(x)
    } else {
        inserted(sorted.drop_last(), x).push(sorted.last())
    }
}

/// The list in ascending order of `t`, equals in the order in which they were
/// listed.
pub open spec fn ascending<'a>(xs: Seq<Intersection<'a>>) -> Seq<Intersection<'a>>
    decreases xs.len(),
{
    if xs.len() == 0 {
        Seq::empty()
    } else {
        inserted(ascending(xs.drop_last()), xs.last())
    }
}

/// Whether a list is in ascending order of `t`.
pub open spec fn is_ascending(xs: Seq<Intersection>) -> bool {
    forall|i: int, j: int| 0 <= i <= j < xs.len() ==> sort_key(xs[i]) <= sort_key(xs[j])
}

/// What the shape of object `i` found, which is nothing where `roots` has no
/// entry for it.
pub open spec fn roots_of(roots: Seq<Roots>, i: int) -> Roots {
    if 0 <= i < roots.len() {
        roots[i]
    } else {
        None
    }
}

/// The intersections with the first `n` objects, object by object, each
/// object's two in the order of its roots.
pub open spec fn gathered<'a>(objects: &'a Seq<Object>, roots: Seq<Roots>, n: int) -> Seq<
    Intersection<'a>,
>
    decreases n,
{
    if n <= 0 {
        Seq::empty()
    } else {
        match roots_of(roots, n - 1) {
            None => gathered(objects, roots, n - 1),
            Some(ts) => gathered(objects, roots, n - 1).push(
                Intersection { t: ts[0], object: &objects[n - 1] },
            ).push(Intersection { t: ts[1], object: &objects[n - 1] }),
        }
    }
}

/// What is wrong with object `i`, if anything: a transform with a determinant
/// of zero cannot be inverted, and neither can one whose determinant is not
/// given.
pub open spec fn defect_of(object: Object, determinants: Seq<Determinants>, i: int) -> Option<
    SceneError,
> {
    if i >= determinants.len() || determinants[i].transform.zero() {
        Some(SceneError::SingularTransform { object: i as usize })
    } else if object.material.pattern is Some && determinants[i].pattern.zero() {
        Some(SceneError::SingularPatternTransform { object: i as usize })
    } else {
        None
    }
}

/// What is wrong with the first object from index `from` on with which
/// anything is wrong.
pub open spec fn first_defect(objects: Seq<Object>, determinants: Seq<Determinants>, from: int)
    -> Option<SceneError>
    decreases objects.len() - from,
{
    if from < 0 || from >= objects.len() {
        None
    } else {
        match defect_of(objects[from], determinants, from) {
            Some(defect) => Some(defect),
            None => first_defect(objects, determinants, from + 1),
        }
    }
}

/// What reflection adds at a hit, with `remaining` reflections left to follow.
pub open spec fn reflection_of(comps: Computations, remaining: u32) -> Reflection {
    if remaining == 0 || comps.object.material.reflective.zero() {
        Reflection::Black(Color::black_spec())
    } else {
        Reflection::Bounce {
            ray: Ray { origin: comps.over_point, direction: comps.reflectv },
            remaining: (remaining - 1) as u32,
            reflective: comps.object.material.reflective,
        }
    }
}

/// Whether a list of intersections puts something between a point and a light
/// at the given distance: the hit lies nearer than the light.
pub open spec fn shadowing(xs: Seq<Intersection>, distance: Scalar) -> bool {
    match hit_index(xs) {
        Some(i) => xs[i].t.less(distance),
        None => false,
    }
}

/// The light of the default world: white, up and to the left behind the eye.
pub open spec fn default_light() -> PointLight {
    PointLight {
        position: Tuple {
            x: Scalar { bits: MINUS_TEN_BITS },
            y: Scalar { bits: TEN_BITS },
            z: Scalar { bits: MINUS_TEN_BITS },
            w: Scalar { bits: ONE_BITS },
        },
        intensity: Color {
            red: Scalar { bits: ONE_BITS },
            green: Scalar { bits: ONE_BITS },
            blue: Scalar { bits: ONE_BITS },
        },
    }
}

/// The material of the outer sphere of the default world.
pub open spec fn default_outer_material() -> Material {
    Material {
        color: Color {
            red: Scalar { bits: OUTER_RED_BITS },
            green: Scalar { bits: ONE_BITS },
            blue: Scalar { bits: OUTER_BLUE_BITS },
        },
        diffuse: Scalar { bits: OUTER_DIFFUSE_BITS },
        specular: Scalar { bits: OUTER_SPECULAR_BITS },
        ..Material::default_spec()
    }
}

/// The entry, in the given row and column, of the transform of the inner
/// sphere of the default world: the scaling by one half.
pub open spec fn default_inner_entry(row: int, col: int) -> Scalar {
    if row == col && row < 3 {
        Scalar { bits: HALF_BITS }
    } else {
        identity_entry(row, col)
    }
}

fn comes_after(a: &Intersection, b: &Intersection) -> (r: bool)
    ensures
        r == (sort_key(*a) > sort_key(*b)),
{
    if a.t.is_nan() {
        !b.t.is_nan()
    } else if b.t.is_nan() {
        false
    } else {
        a.t.ordinal() > b.t.ordinal()
    }
}

fn insert<'a>(sorted: &mut Vec<Intersection<'a>>, x: Intersection<'a>)
    ensures
        final(sorted)@ == inserted(old(sorted)@, x),
{
    let mut at: usize = sorted.len();
    assert(sorted@.take(at as int) =~= sorted@);
    assert(sorted@.skip(at as int) =~= Seq::empty());
    while at > 0 && comes_after(&sorted[at - 1], &x)
        invariant
            0 <= at <= sorted@.len(),
            inserted(sorted@, x) =~= inserted(sorted@.take(at as int), x) + sorted@.skip(
                at as int,
            ),
        decreases at,
    {
        proof {
            let head = sorted@.take(at as int);
            assert(head.last() == sorted@[at - 1]);
            assert(head.drop_last() =~= sorted@.take(at - 1));
            assert(inserted(head, x) == inserted(head.drop_last(), x).push(head.last()));
            assert(seq![sorted@[at - 1]] + sorted@.skip(at as int) =~= sorted@.skip(at - 1));
        }
        at = at - 1;
    }
    proof {
        let head = sorted@.take(at as int);
        if at > 0 {
            assert(head.last() == sorted@[at - 1]);
        }
        assert(inserted(head, x) =~= head.push(x));
        assert(head.push(x) + sorted@.skip(at as int) =~= sorted@.insert(at as int, x));
    }
    sorted.insert(at, x);
}

impl World {
    /// An empty world: no objects, no light.
    pub fn new() -> (w: World)
        ensures
            w.light_source is None,
            w.objects@.len() == 0,
    {
        World { light_source: None, objects: Vec::new() }
    }

    /// Checks that the scene can be rendered: that it has a light, and that the
    /// transform of every object, and of every pattern, can be inverted.
    /// `determinants` has, for each object in turn, the determinants of those
    /// transforms. A missing light is reported before any transform; of the
    /// transforms, the first that cannot be inverted.
    pub fn validate(&self, determinants: &Vec<Determinants>) -> (r: Result<(), SceneError>)
        ensures
            self.light_source is None ==> r == Err::<(), SceneError>(SceneError::MissingLight),
            self.light_source is Some ==> r == match first_defect(
                self.objects@,
                determinants@,
                0,
            ) {
                Some(defect) => Err::<(), SceneError>(defect),
                None => Ok::<(), SceneError>(()),
            },
            r is Ok <==> self.light_source is Some && forall|i: int|
                0 <= i < self.objects@.len() ==> defect_of(
                    #[trigger] self.objects@[i],
                    determinants@,
                    i,
                ) is None,
    {
        if self.light_source.is_none() {
            return Err(SceneError::MissingLight);
        }
        let mut i: usize = 0;
        while i < self.objects.len()
            invariant
                0 <= i <= self.objects@.len(),
                self.light_source is Some,
                first_defect(self.objects@, determinants@, 0) == first_defect(
                    self.objects@,
                    determinants@,
                    i as int,
                ),
                forall|k: int|
                    0 <= k < i ==> defect_of(#[trigger] self.objects@[k], determinants@, k) is None,
            decreases self.objects@.len() - i,
        {
            if i >= determinants.len() || determinants[i].transform.is_zero() {
                return Err(SceneError::SingularTransform { object: i });
            }
            if self.objects[i].material.pattern.is_some() && determinants[i].pattern.is_zero() {
                return Err(SceneError::SingularPatternTransform { object: i });
            }
            i = i + 1;
        }
        Ok(())
    }

    /// All intersections of a ray with the objects of the world, in ascending
    /// order of `t`; of equals, the one listed first stays first. `roots` has,
    /// for each object in turn, what its shape found for the ray; an object
    /// without an entry counts as missed.
    pub fn intersect<'a>(&'a self, roots: &Vec<Roots>) -> (xs: Vec<Intersection<'a>>)
        ensures
            xs@ == ascending(gathered(&self.objects@, roots@, self.objects@.len() as int)),
            is_ascending(xs@),
            xs@.to_multiset() == gathered(
                &self.objects@,
                roots@,
                self.objects@.len() as int,
            ).to_multiset(),
    {
        let mut xs: Vec<Intersection<'a>> = Vec::new();
        let mut n: usize = 0;
        while n < self.objects.len()
            invariant
                0 <= n <= self.objects@.len(),
                xs@ == ascending(gathered(&self.objects@, roots@, n as int)),
            decreases self.objects@.len() - n,
        {
            let ghost before = gathered(&self.objects@, roots@, n as int);
            if n < roots.len() {
                match roots[n] {
                    Some(ts) => {
                        let object = &self.objects[n];
                        let first = Intersection { t: ts[0], object };
                        let second = Intersection { t: ts[1], object };
                        insert(&mut xs, first);
                        insert(&mut xs, second);
                        proof {
                            let one = before.push(first);
                            let two = one.push(second);
                            assert(one.drop_last() =~= before);
                            assert(one.last() == first);
                            assert(two.drop_last() =~= one);
                            assert(two.last() == second);
                            assert(ascending(one) == inserted(ascending(before), first));
                            assert(ascending(two) == inserted(ascending(one), second));
                            assert(roots_of(roots@, n as int) == Some(ts));
                            assert(gathered(&self.objects@, roots@, n + 1) == two);
                        }
                    },
                    None => {
                        assert(gathered(&self.objects@, roots@, n + 1) == before);
                    },
                }
            } else {
                assert(gathered(&self.objects@, roots@, n + 1) == before);
            }
            n = n + 1;
        }
        proof {
            lemma_ascending(gathered(&self.objects@, roots@, self.objects@.len() as int));
        }
        xs
    }

    /// What a ray shows, given what each object's shape found for it: the hit
    /// among all its intersections, or the background where there is none.
    pub fn color_at<'a>(&'a self, roots: &Vec<Roots>) -> (sight: Sight<'a>)
        ensures
            sight == self.sight(roots@),
            (forall|i: int| 0 <= i < self.objects@.len() ==> roots_of(roots@, i) is None)
                ==> sight == Sight::Background(Color::black_spec()),
            sight matches Sight::Surface(x) ==> visible(x),
    {
        proof {
            if forall|i: int| 0 <= i < self.objects@.len() ==> roots_of(roots@, i) is None {
                lemma_miss_is_background(*self, roots@);
            }
        }
        let xs = self.intersect(roots);
        match hit(xs.as_slice()) {
            Some(x) => Sight::Surface(*x),
            None => Sight::Background(Color::black()),
        }
    }

    /// What a ray shows, given what each object's shape found for it.
    pub open spec fn sight(&self, roots: Seq<Roots>) -> Sight {
        let xs = ascending(gathered(&self.objects@, roots, self.objects@.len() as int));
        match hit_index(xs) {
            Some(i) => Sight::Surface(xs[i]),
            None => Sight::Background(Color::black_spec()),
        }
    }

    /// Whether a point lies in shadow, given what each object's shape found for
    /// the ray from the point towards the light, and the distance from the
    /// point to the light: something is hit before the light is reached.
    pub fn is_shadowed(&self, roots: &Vec<Roots>, distance: Scalar) -> (r: bool)
        requires
            self.light_source is Some,
        ensures
            r == shadowing(
                ascending(gathered(&self.objects@, roots@, self.objects@.len() as int)),
                distance,
            ),
    {
        let xs = self.intersect(roots);
        match hit(xs.as_slice()) {
            Some(x) => x.t.lt(distance),
            None => false,
        }
    }

    /// What reflection adds at a hit. It adds nothing, which is black, once no
    /// reflections are left to follow, and where the material does not reflect;
    /// those two are all that ends the following of reflections. Else the
    /// reflected ray leaves from just above the surface, and is followed with
    /// one reflection fewer.
    pub fn reflected_color(&self, comps: &Computations, remaining: u32) -> (r: Reflection)
        ensures
            r == reflection_of(*comps, remaining),
            remaining == 0 ==> r == Reflection::Black(Color::black_spec()),
            comps.object.material.reflective.zero() ==> r == Reflection::Black(
                Color::black_spec(),
            ),
            r matches Reflection::Bounce { remaining: left, .. } ==> left < remaining,
    {
        if remaining == 0 || comps.object.material.reflective.is_zero() {
            Reflection::Black(Color::black())
        } else {
            Reflection::Bounce {
                ray: Ray::new(comps.over_point, comps.reflectv),
                remaining: remaining - 1,
                reflective: comps.object.material.reflective,
            }
        }
    }

    /// How a hit is shaded: by the light, as far as it reaches the point, and
    /// by reflection. `shadow_roots` is what each object's shape found for the
    /// ray from `comps.over_point` towards the light, `light_distance` the
    /// distance from that point to the light; the two dot products are those
    /// that `Material::lightning` takes.
    pub fn shade_hit(
        &self,
        comps: &Computations,
        remaining: u32,
        shadow_roots: &Vec<Roots>,
        light_distance: Scalar,
        light_dot_normal: Scalar,
        reflect_dot_eye: Scalar,
    ) -> (shade: Shade)
        requires
            self.light_source is Some,
        ensures
            shade.in_shadow == shadowing(
                ascending(gathered(&self.objects@, shadow_roots@, self.objects@.len() as int)),
                light_distance,
            ),
            shade.surface == comps.object.material.illumination(
                shade.in_shadow,
                light_dot_normal,
                reflect_dot_eye,
            ),
            shade.reflected == reflection_of(*comps, remaining),
    {
        let in_shadow = self.is_shadowed(shadow_roots, light_distance);
        let surface = comps.object.material.lightning(in_shadow, light_dot_normal, reflect_dot_eye);
        let reflected = self.reflected_color(comps, remaining);
        Shade { in_shadow, surface, reflected }
    }
}

impl Default for World {
    /// The default world: the default light, and two spheres around the
    /// origin. The outer one has a radius of one and a material of its own,
    /// the inner one a radius of one half and the default material.
    fn default() -> (w: World)
        ensures
            w.light_source == Some(default_light()),
            w.objects@.len() == 2,
            w.objects@[0].shape == Shape::Sphere(Sphere {  }),
            w.objects@[1].shape == Shape::Sphere(Sphere {  }),
            *w.objects@[0].material == default_outer_material(),
            *w.objects@[1].material == Material::default_spec(),
            is_identity(w.objects@[0].transform),
            forall|i: int, j: int|
                0 <= i < 4 && 0 <= j < 4 ==> w.objects@[1].transform[i][j] == default_inner_entry(
                    i,
                    j,
                ),
    {
        let one = Scalar::new_one();
        let zero = Scalar::new_zero();
        let half = Scalar::from_bits(HALF_BITS);
        let light = PointLight::new(
            crate::tuples::point(
                Scalar::from_bits(MINUS_TEN_BITS),
                Scalar::from_bits(TEN_BITS),
                Scalar::from_bits(MINUS_TEN_BITS),
            ),
            Color::new(one, one, one),
        );
        let mut outer = Object::new(Shape::Sphere(Sphere {  }));
        let mut material = Material::default();
        material.color = Color::new(
            Scalar::from_bits(OUTER_RED_BITS),
            one,
            Scalar::from_bits(OUTER_BLUE_BITS),
        );
        material.diffuse = Scalar::from_bits(OUTER_DIFFUSE_BITS);
        material.specular = Scalar::from_bits(OUTER_SPECULAR_BITS);
        outer.material = Rc::new(material);
        let mut inner = Object::new(Shape::Sphere(Sphere {  }));
        inner.transform = [
            [half, zero, zero, zero],
            [zero, half, zero, zero],
            [zero, zero, half, zero],
            [zero, zero, zero, one],
        ];
        let mut objects: Vec<Object> = Vec::new();
        objects.push(outer);
        objects.push(inner);
        World { light_source: Some(light), objects }
    }
}

/// Putting an intersection into an ordered list keeps the list ordered and
/// adds that intersection, nothing else.
pub proof fn lemma_inserted(sorted: Seq<Intersection>, x: Intersection)
    requires
        is_ascending(sorted),
    ensures
        is_ascending(inserted(sorted, x)),
        inserted(sorted, x).to_multiset() == sorted.to_multiset().insert(x),
        inserted(sorted, x).len() == sorted.len() + 1,
    decreases sorted.len(),
{
    broadcast use vstd::seq_lib::group_to_multiset_ensures;

    if sorted.len() == 0 {
        assert(seq![x] =~= Seq::<Intersection>::empty().push(x));
    } else if sort_key(sorted.last()) <= sort_key(x) {
    } else {
        let head = sorted.drop_last();
        lemma_inserted(head, x);
        let r = inserted(head, x);
        assert(sorted =~= head.push(sorted.last()));
        assert forall|i: int| 0 <= i < r.len() implies sort_key(#[trigger] r[i]) <= sort_key(
            sorted.last(),
        ) by {
            assert(r.to_multiset().count(r[i]) > 0);
            if r[i] != x {
                assert(head.to_multiset().count(r[i]) > 0);
                assert(head.contains(r[i]));
            }
        }
    }
}

/// `ascending` orders a list and neither adds to it nor drops from it.
pub proof fn lemma_ascending(xs: Seq<Intersection>)
    ensures
        is_ascending(ascending(xs)),
        ascending(xs).to_multiset() == xs.to_multiset(),
        ascending(xs).len() == xs.len(),
    decreases xs.len(),
{
    broadcast use vstd::seq_lib::group_to_multiset_ensures;

    if xs.len() > 0 {
        lemma_ascending(xs.drop_last());
        lemma_inserted(ascending(xs.drop_last()), xs.last());
        assert(xs =~= xs.drop_last().push(xs.last()));
    }
}

/// In an ascending list the hit is the first intersection that can be seen:
/// everything listed before it lies behind the ray's origin. This is what
/// joins `World::intersect` to `hit`.
pub proof fn lemma_hit_of_ascending(xs: Seq<Intersection>)
    requires
        is_ascending(xs),
    ensures
        hit_index(xs) matches Some(i) ==> {
            &&& 0 <= i < xs.len()
            &&& visible(xs[i])
            &&& forall|j: int| 0 <= j < i ==> !visible(#[trigger] xs[j])
        },
        hit_index(xs) is None ==> forall|j: int| 0 <= j < xs.len() ==> !visible(#[trigger] xs[j]),
{
    lemma_nearest(xs, xs.len() as int);
    assert(xs.take(xs.len() as int) =~= xs);
    match hit_index(xs) {
        Some(i) => {
            assert(is_hit(xs, i));
            assert forall|j: int| 0 <= j < i implies !visible(#[trigger] xs[j]) by {
                assert(sort_key(xs[j]) <= sort_key(xs[i]));
            }
        },
        None => {},
    }
}

/// Ordering keeps equals in the order in which they were listed: for every
/// key, the intersections with that key are the same, and in the same order,
/// before and after.
pub proof fn lemma_ascending_is_stable(xs: Seq<Intersection>, key: int)
    ensures
        ascending(xs).filter(|x: Intersection| sort_key(x) == key) == xs.filter(
            |x: Intersection| sort_key(x) == key,
        ),
    decreases xs.len(),
{
    let keyed = |x: Intersection| sort_key(x) == key;
    if xs.len() > 0 {
        let head = xs.drop_last();
        lemma_ascending_is_stable(head, key);
        lemma_ascending(head);
        lemma_inserted_filtered(ascending(head), xs.last(), key);
        assert(xs =~= head.push(xs.last()));
        lemma_filter_push(head, xs.last(), key);
    }
}

/// The intersections with a given key of a list that ends in `x`.
proof fn lemma_filter_push(xs: Seq<Intersection>, x: Intersection, key: int)
    ensures
        xs.push(x).filter(|x: Intersection| sort_key(x) == key) == if sort_key(x) == key {
            xs.filter(|x: Intersection| sort_key(x) == key).push(x)
        } else {
            xs.filter(|x: Intersection| sort_key(x) == key)
        },
{
    reveal(Seq::filter);
    assert(xs.push(x).drop_last() =~= xs);
}

/// The intersections with a given key of an ordered list into which `x` was put.
proof fn lemma_inserted_filtered(sorted: Seq<Intersection>, x: Intersection, key: int)
    requires
        is_ascending(sorted),
    ensures
        inserted(sorted, x).filter(|x: Intersection| sort_key(x) == key) == if sort_key(x)
            == key {
            sorted.filter(|x: Intersection| sort_key(x) == key).push(x)
        } else {
            sorted.filter(|x: Intersection| sort_key(x) == key)
        },
    decreases sorted.len(),
{
    let keyed = |x: Intersection| sort_key(x) == key;
    if sorted.len() == 0 {
        assert(seq![x] =~= sorted.push(x));
        lemma_filter_push(sorted, x, key);
    } else if sort_key(sorted.last()) <= sort_key(x) {
        lemma_filter_push(sorted, x, key);
    } else {
        let head = sorted.drop_last();
        let last = sorted.last();
        assert(sorted =~= head.push(last));
        lemma_inserted_filtered(head, x, key);
        lemma_filter_push(inserted(head, x), last, key);
        lemma_filter_push(head, last, key);
        if sort_key(x) == key {
            // `last` comes after `x`, so it has another key.
            assert(sort_key(last) != key);
        }
    }
}

/// The numbers of the default world are what they are named for: ten, minus
/// ten and one half exactly; the tenths of the outer sphere as well as a double
/// can stand for them.
pub proof fn lemma_default_world_numbers()
    ensures
        (Scalar { bits: TEN_BITS }).is_exactly(10, 1),
        (Scalar { bits: MINUS_TEN_BITS }).is_exactly(-10, 1),
        (Scalar { bits: HALF_BITS }).is_exactly(1, 2),
        (Scalar { bits: OUTER_RED_BITS }).is_rounded(8, 10),
        (Scalar { bits: OUTER_BLUE_BITS }).is_rounded(6, 10),
        (Scalar { bits: OUTER_DIFFUSE_BITS }).is_rounded(7, 10),
        (Scalar { bits: OUTER_SPECULAR_BITS }).is_rounded(2, 10),
{
    lemma2_to64_rest();
    lemma_stands_for(TEN_BITS, false, 1026, 0x4_0000_0000_0000, 10, 1, 0);
    lemma_stands_for(MINUS_TEN_BITS, true, 1026, 0x4_0000_0000_0000, -10, 1, 0);
    lemma_stands_for(HALF_BITS, false, 1022, 0, 1, 2, 0);
    lemma_stands_for(OUTER_RED_BITS, false, 1022, 0x9_9999_9999_999A, 8, 10, 1);
    lemma_stands_for(OUTER_BLUE_BITS, false, 1022, 0x3_3333_3333_3333, 6, 10, 1);
    lemma_stands_for(OUTER_DIFFUSE_BITS, false, 1022, 0x6_6666_6666_6666, 7, 10, 1);
    lemma_stands_for(OUTER_SPECULAR_BITS, false, 1020, 0x9_9999_9999_999A, 2, 10, 1);
}

/// A ray that misses every object shows the background, black.
pub proof fn lemma_miss_is_background(world: World, roots: Seq<Roots>)
    requires
        forall|i: int| 0 <= i < world.objects@.len() ==> roots_of(roots, i) is None,
    ensures
        world.sight(roots) == Sight::Background(Color::black_spec()),
        Color::black_spec().is_black(),
{
    lemma_gathered_nothing(&world.objects@, roots, world.objects@.len() as int);
}

proof fn lemma_gathered_nothing(objects: &Seq<Object>, roots: Seq<Roots>, n: int)
    requires
        0 <= n <= objects.len(),
        forall|i: int| 0 <= i < n ==> roots_of(roots, i) is None,
    ensures
        gathered(objects, roots, n).len() == 0,
    decreases n,
{
    if n > 0 {
        lemma_gathered_nothing(objects, roots, n - 1);
    }
}

} // verus!
