//! Geometry: spheres, scenes made of them, and the nearest intersection of a
//! ray with either.
use crate::error::ConfigError;
use crate::material::Material;
use crate::ray::Ray;
use crate::scalar::{
    floor_sqrt, lemma_floor_sqrt_exists, lemma_truncated_quotient_monotone, truncated_quotient,
    Scalar, LIMIT, SCALE,
};
use crate::vector::{square_of, Point3, Vector3};
use crate::wide::U256;
use std::ops::Range;
use vstd::prelude::*;

verus! {

/// Where a ray met a surface.
#[derive(Clone, Copy, Debug, PartialEq, Eq, Structural)]
pub struct HitRecord {
    /// The point that was hit.
    pub p: Point3,
    /// The surface normal there, turned against the ray.
    pub normal: Vector3,
    /// The ray's parameter at the point.
    pub t: Scalar,
    /// Whether the ray came from outside the surface.
    pub front: bool,
    /// The material of the surface.
    pub material: Material,
}

/// Whether `t` lies strictly inside `trange`.
pub open spec fn strictly_inside(t: Scalar, trange: Range<Scalar>) -> bool {
    trange.start.raw < t.raw < trange.end.raw
}

/// A sphere and what it is made of.
#[derive(Clone, Copy, Debug, PartialEq, Eq, Structural)]
pub struct Sphere {
    pub center: Point3,
    pub radius: Scalar,
    pub material: Material,
}

/// The scalar of the quotient of `n` times `SCALE` by `a`, rounded toward
/// zero and clamped: the ratio of two numbers of one unit, as a scalar.
pub open spec fn ratio(n: int, a: int) -> Scalar {
    Scalar::of(truncated_quotient(n * SCALE, a))
}

/// The ratio of a number of the given sign and magnitude to `a`.
fn ratio_of(negative: bool, magnitude: U256, a: u128) -> (r: Scalar)
    requires
        a > 0,
        magnitude@ < 0x4_0000_0000_0000_0000_0000_0000_0000_0000,
    ensures
        r == ratio(
            if negative {
                -magnitude@
            } else {
                magnitude@
            },
            a as int,
        ),
{
    proof {
        reveal(truncated_quotient);
    }
    assert(magnitude@ * 1_000_000_000 < 0x1_0000_0000_0000_0000_0000_0000_0000_0000
        * 0x1_0000_0000_0000_0000_0000_0000_0000_0000) by (nonlinear_arith)
        requires
            magnitude@ < 0x4_0000_0000_0000_0000_0000_0000_0000_0000,
    ;
    let scaled = magnitude.times(1_000_000_000);
    let q: u128 = scaled.quotient(a, LIMIT as u128);
    if negative {
        Scalar { raw: -(q as i64) }
    } else {
        Scalar { raw: q as i64 }
    }
}

impl Sphere {
    /// Whether the radius is one that a sphere can have.
    pub open spec fn wf(self) -> bool {
        self.radius.raw > 0
    }

    /// From the sphere's centre to the ray's origin.
    pub open spec fn offset(self, ray: Ray) -> Vector3 {
        ray.orig.sub(self.center)
    }

    /// The squared length of the ray's direction, in full: neither rounded
    /// nor clamped, in units of `SCALE` squared as the other two
    /// coefficients are.
    pub open spec fn quadratic_a(self, ray: Ray) -> int {
        ray.dir.dot_exact(ray.dir)
    }

    /// Half the equation's middle coefficient, in full.
    pub open spec fn half_b(self, ray: Ray) -> int {
        self.offset(ray).dot_exact(ray.dir)
    }

    /// The equation's constant, in full: negative where the ray starts inside
    /// the sphere.
    pub open spec fn quadratic_c(self, ray: Ray) -> int {
        self.offset(ray).dot_exact(self.offset(ray)) - self.radius.raw * self.radius.raw
    }

    /// A quarter of the discriminant of `a t^2 + 2 half_b t + c = 0`, whose
    /// solutions are the parameters at which the ray meets the sphere; in
    /// full, so that its sign is the true one.
    pub open spec fn discriminant(self, ray: Ray) -> int {
        self.half_b(ray) * self.half_b(ray) - self.quadratic_a(ray) * self.quadratic_c(ray)
    }

    /// The smaller solution: rounded once, toward zero.
    pub open spec fn near_root(self, ray: Ray) -> Scalar {
        ratio(-self.half_b(ray) - floor_sqrt(self.discriminant(ray)), self.quadratic_a(ray))
    }

    /// The larger solution: rounded once, toward zero.
    pub open spec fn far_root(self, ray: Ray) -> Scalar {
        ratio(-self.half_b(ray) + floor_sqrt(self.discriminant(ray)), self.quadratic_a(ray))
    }

    /// Whether the equation has solutions: the direction is not zero and the
    /// discriminant is not negative.
    pub open spec fn meets(self, ray: Ray) -> bool {
        self.quadratic_a(ray) != 0 && self.discriminant(ray) >= 0
    }

    /// The parameter of the intersection: the smaller solution if it lies
    /// strictly inside `trange`, else the larger one if that does.
    pub open spec fn root(self, ray: Ray, trange: Range<Scalar>) -> Option<Scalar> {
        if !self.meets(ray) {
            None
        } else if strictly_inside(self.near_root(ray), trange) {
            Some(self.near_root(ray))
        } else if strictly_inside(self.far_root(ray), trange) {
            Some(self.far_root(ray))
        } else {
            None
        }
    }

    /// The normal at `p` that points away from the centre.
    pub open spec fn outward_normal(self, p: Point3) -> Vector3 {
        p.sub(self.center).unscale(self.radius)
    }

    /// The record of the ray meeting the sphere at parameter `t`: the ray
    /// came from outside where it points against the outward normal, and
    /// else the normal is turned round.
    pub open spec fn record(self, ray: Ray, t: Scalar) -> HitRecord {
        let p = ray.at(t);
        let outward = self.outward_normal(p);
        let front = ray.dir.opposes(outward);
        HitRecord {
            p,
            normal: if front {
                outward
            } else {
                outward.neg()
            },
            t,
            front,
            material: self.material,
        }
    }

    /// The nearest intersection strictly inside `trange`, if there is one.
    pub open spec fn spec_hit(self, ray: Ray, trange: Range<Scalar>) -> Option<HitRecord> {
        match self.root(ray, trange) {
            Some(t) => Some(self.record(ray, t)),
            None => None,
        }
    }

    /// A sphere of the given radius, which must be positive.
    pub fn new(center: Point3, radius: Scalar, material: Material) -> (r: Result<
        Sphere,
        ConfigError,
    >)
        ensures
            radius.raw > 0 ==> r == Ok::<Sphere, ConfigError>(Sphere { center, radius, material })
                && r->Ok_0.wf(),
            radius.raw <= 0 ==> r == Err::<Sphere, ConfigError>(ConfigError::NonPositiveRadius),
    {
        if radius.raw > 0 {
            Ok(Sphere { center, radius, material })
        } else {
            Err(ConfigError::NonPositiveRadius)
        }
    }

    /// The nearest intersection of `ray` with the sphere strictly inside
    /// `trange`. Its normal never points along the ray.
    pub fn hit(&self, ray: &Ray, trange: Range<Scalar>) -> (r: Option<HitRecord>)
        ensures
            r == self.spec_hit(*ray, trange),
            r matches Some(h) ==> strictly_inside(h.t, trange) && ray.dir.dot(h.normal).raw <= 0,
    {
        proof {
            self.lemma_hit_faces_ray(*ray, trange);
        }
        match self.solve(ray, trange) {
            Some(root) => Some(self.record_at(ray, root)),
            None => None,
        }
    }

    /// The two solutions, where the equation has any.
    fn solutions(&self, ray: &Ray) -> (r: Option<(Scalar, Scalar)>)
        ensures
            r is Some == self.meets(*ray),
            r matches Some(pair) ==> pair.0 == self.near_root(*ray) && pair.1 == self.far_root(
                *ray,
            ),
    {
        let oc = ray.orig.sub(self.center);
        let a: u128 = ray.dir.norm_squared_in_full();
        if a == 0 {
            return None;
        }
        let (up, down) = oc.dot_in_full(ray.dir);
        let falling = up < down;
        let half_b: u128 = if falling {
            down - up
        } else {
            up - down
        };
        let oc2: u128 = oc.norm_squared_in_full();
        let r2: u128 = square_of(self.radius.raw);
        let ghost hb = self.half_b(*ray);
        let ghost c = self.quadratic_c(*ray);
        assert(half_b * half_b == hb * hb && half_b * half_b
            <= 0xc000_0000_0000_0000_0000_0000_0000_0000 * 0xc000_0000_0000_0000_0000_0000_0000_0000)
            by (nonlinear_arith)
            requires
                half_b == hb || half_b == -hb,
                0 <= half_b <= 0xc000_0000_0000_0000_0000_0000_0000_0000,
        ;
        let squared = U256::product(half_b, half_b);
        let discriminant = if oc2 >= r2 {
            let ac = U256::product(a, oc2 - r2);
            assert(a * (oc2 - r2) == a * c);
            if !ac.le(squared) {
                return None;
            }
            squared.minus(ac)
        } else {
            assert(a * (r2 - oc2) == -(a * c) && a * (r2 - oc2)
                <= 0xc000_0000_0000_0000_0000_0000_0000_0000
                * 0x4000_0000_0000_0000_0000_0000_0000_0000) by (nonlinear_arith)
                requires
                    r2 - oc2 == -c,
                    0 <= a <= 0xc000_0000_0000_0000_0000_0000_0000_0000,
                    0 < r2 - oc2 <= 0x4000_0000_0000_0000_0000_0000_0000_0000,
            ;
            squared.plus(U256::product(a, r2 - oc2))
        };
        assert(discriminant@ == self.discriminant(*ray));
        let sqrtd: u128 = discriminant.isqrt();
        let sum = U256::from_u128(half_b).plus(U256::from_u128(sqrtd));
        let (near, far) = if falling {
            // -half_b is positive
            let near = if half_b >= sqrtd {
                ratio_of(false, U256::from_u128(half_b - sqrtd), a)
            } else {
                ratio_of(true, U256::from_u128(sqrtd - half_b), a)
            };
            (near, ratio_of(false, sum, a))
        } else {
            let far = if sqrtd >= half_b {
                ratio_of(false, U256::from_u128(sqrtd - half_b), a)
            } else {
                ratio_of(true, U256::from_u128(half_b - sqrtd), a)
            };
            (ratio_of(true, sum, a), far)
        };
        Some((near, far))
    }

    /// The parameter of the intersection, if there is one.
    fn solve(&self, ray: &Ray, trange: Range<Scalar>) -> (r: Option<Scalar>)
        ensures
            r == self.root(*ray, trange),
    {
        match self.solutions(ray) {
            Some((near, far)) => {
                if trange.start.raw < near.raw && near.raw < trange.end.raw {
                    Some(near)
                } else if trange.start.raw < far.raw && far.raw < trange.end.raw {
                    Some(far)
                } else {
                    None
                }
            },
            None => None,
        }
    }

    /// The record of the ray meeting the sphere at parameter `root`.
    fn record_at(&self, ray: &Ray, root: Scalar) -> (r: HitRecord)
        ensures
            r == self.record(*ray, root),
    {
        let hitpoint = ray.at(root);
        let normal = hitpoint.sub(self.center).unscale(self.radius);
        let outside = ray.dir.opposes(normal);
        HitRecord {
            t: root,
            p: hitpoint,
            normal: if outside {
                normal
            } else {
                normal.neg()
            },
            front: outside,
            material: self.material,
        }
    }
}

impl Sphere {
    /// The smaller solution is not above the larger one.
    pub proof fn lemma_roots_ordered(self, ray: Ray)
        requires
            self.meets(ray),
        ensures
            self.near_root(ray).raw <= self.far_root(ray).raw,
    {
        Vector3::lemma_norm_squared_nonnegative(ray.dir);
        lemma_floor_sqrt_exists(self.discriminant(ray));
        let s = floor_sqrt(self.discriminant(ray));
        let hb = self.half_b(ray);
        lemma_truncated_quotient_monotone((-hb - s) * SCALE, (-hb + s) * SCALE, self.quadratic_a(ray));
    }

    /// With a nearer end the interval holds the same intersection, or none
    /// where that one lies at or beyond the new end.
    pub proof fn lemma_hit_shrinks(self, ray: Ray, start: Scalar, bound: Scalar, end: Scalar)
        requires
            bound.raw <= end.raw,
        ensures
            self.spec_hit(ray, interval(start, bound)) == before(
                self.spec_hit(ray, interval(start, end)),
                bound,
            ),
    {
        if self.meets(ray) {
            self.lemma_roots_ordered(ray);
        }
    }

    /// What `hit` returns depends on the sphere, the ray and the interval
    /// alone: calls that agree in these agree in what they return, in the
    /// parameter, the point and the normal.
    pub proof fn lemma_hit_repeats(
        self,
        other: Sphere,
        ray: Ray,
        again: Ray,
        trange: Range<Scalar>,
        first: Option<HitRecord>,
        second: Option<HitRecord>,
    )
        requires
            self == other,
            ray == again,
            first == self.spec_hit(ray, trange),
            second == other.spec_hit(again, trange),
        ensures
            first == second,
            first matches Some(a) ==> (second matches Some(b) && a.t == b.t && a.p == b.p
                && a.normal == b.normal),
    {
    }

    /// An intersection lies strictly inside the interval, and its normal
    /// never points along the ray.
    pub proof fn lemma_hit_faces_ray(self, ray: Ray, trange: Range<Scalar>)
        ensures
            self.spec_hit(ray, trange) matches Some(h) ==> strictly_inside(h.t, trange)
                && ray.dir.dot(h.normal).raw <= 0,
    {
        if let Some(t) = self.root(ray, trange) {
            let outward = self.outward_normal(ray.at(t));
            Vector3::lemma_dot_neg(ray.dir, outward);
            Vector3::lemma_dot_sign(ray.dir, outward);
            Vector3::lemma_dot_sign(ray.dir, outward.neg());
        }
    }
}

/// One thing that a ray can hit: a sphere, or a scene of such things.
#[derive(Debug)]
pub enum Hittable {
    Sphere(Sphere),
    Scene(Scene),
}

/// Things that a ray can hit, in the order in which they were added.
#[derive(Debug)]
pub struct Scene {
    pub hittables: Vec<Hittable>,
}

/// The interval from `start` to `end`.
pub open spec fn interval(start: Scalar, end: Scalar) -> Range<Scalar> {
    Range { start, end }
}

/// `hit` if it lies before `bound`, else nothing.
pub open spec fn before(hit: Option<HitRecord>, bound: Scalar) -> Option<HitRecord> {
    match hit {
        Some(h) => if h.t.raw < bound.raw {
            hit
        } else {
            None
        },
        None => None,
    }
}

impl Hittable {
    /// The nearest intersection strictly inside `trange`, if there is one.
    pub open spec fn spec_hit(self, ray: Ray, trange: Range<Scalar>) -> Option<HitRecord>
        decreases self, 0nat,
    {
        match self {
            Hittable::Sphere(sphere) => sphere.spec_hit(ray, trange),
            Hittable::Scene(scene) => Scene::scan(
                scene.hittables@,
                scene.hittables@.len(),
                ray,
                trange,
            ),
        }
    }

    /// The nearest intersection of `ray` with this thing strictly inside
    /// `trange`.
    pub fn hit(&self, ray: &Ray, trange: Range<Scalar>) -> (r: Option<HitRecord>)
        ensures
            r == self.spec_hit(*ray, trange),
            r matches Some(h) ==> strictly_inside(h.t, trange) && ray.dir.dot(h.normal).raw <= 0,
        decreases self, 0nat,
    {
        proof {
            self.lemma_hit_faces_ray(*ray, trange);
        }
        match self {
            Hittable::Sphere(sphere) => sphere.hit(ray, trange),
            Hittable::Scene(scene) => scene.hit(ray, trange),
        }
    }
}

impl Scene {
    /// What a walk over the first `n` of `members` finds: each is asked for
    /// an intersection between the start of `trange` and the nearest found so
    /// far, and a find replaces what was found before.
    pub open spec fn scan(members: Seq<Hittable>, n: nat, ray: Ray, trange: Range<Scalar>) -> Option<
        HitRecord,
    >
        decreases members, n,
    {
        if n == 0 || n > members.len() {
            None
        } else {
            let found = Scene::scan(members, (n - 1) as nat, ray, trange);
            let closest = match found {
                Some(h) => h.t,
                None => trange.end,
            };
            match members[n - 1].spec_hit(ray, interval(trange.start, closest)) {
                Some(h) => Some(h),
                None => found,
            }
        }
    }

    /// The nearest intersection with any member strictly inside `trange`.
    pub open spec fn spec_hit(self, ray: Ray, trange: Range<Scalar>) -> Option<HitRecord> {
        Scene::scan(self.hittables@, self.hittables@.len(), ray, trange)
    }

    /// A scene with nothing in it.
    pub fn new() -> (r: Scene)
        ensures
            r.hittables@ == Seq::<Hittable>::empty(),
    {
        Scene { hittables: Vec::new() }
    }

    /// Adds `hittable` behind the members that are there.
    pub fn add(&mut self, hittable: Hittable)
        ensures
            final(self).hittables@ == old(self).hittables@.push(hittable),
    {
        self.hittables.push(hittable);
    }

    /// Takes every member out.
    pub fn clear(&mut self)
        ensures
            final(self).hittables@ == Seq::<Hittable>::empty(),
    {
        self.hittables.clear();
    }

    /// The nearest intersection of `ray` with any member strictly inside
    /// `trange`: that of the member whose own is nearest, the first such
    /// member where several are equally near, and nothing where no member has
    /// one. Its normal never points along the ray.
    pub fn hit(&self, ray: &Ray, trange: Range<Scalar>) -> (r: Option<HitRecord>)
        ensures
            r == self.spec_hit(*ray, trange),
            nearest_among(self.hittables@, self.hittables@.len(), *ray, trange, r),
            r matches Some(h) ==> strictly_inside(h.t, trange) && ray.dir.dot(h.normal).raw <= 0,
        decreases self, 1nat,
    {
        proof {
            Scene::lemma_scan_nearest(self.hittables@, self.hittables@.len(), *ray, trange);
            Scene::lemma_scan_faces_ray(self.hittables@, self.hittables@.len(), *ray, trange);
        }
        let mut closest_so_far = trange.end;
        let mut result: Option<HitRecord> = None;
        let mut i: usize = 0;
        while i < self.hittables.len()
            invariant
                i <= self.hittables.len(),
                result == Scene::scan(self.hittables@, i as nat, *ray, trange),
                closest_so_far == match result {
                    Some(h) => h.t,
                    None => trange.end,
                },
            decreases self.hittables.len() - i,
        {
            if let Some(hit) = self.hittables[i].hit(ray, trange.start..closest_so_far) {
                closest_so_far = hit.t;
                result = Some(hit);
            }
            i += 1;
        }
        result
    }
}

/// Whether `h`, found at member `i`, stands against what member `j` gives:
/// it is no farther, and nearer than what an earlier member gives.
pub open spec fn not_beaten(h: HitRecord, i: int, other: Option<HitRecord>, j: int) -> bool {
    match other {
        Some(o) => h.t.raw <= o.t.raw && (j < i ==> h.t.raw < o.t.raw),
        None => true,
    }
}

/// Whether `found` is the nearest of the intersections that the first `n` of
/// `members` have with `ray` strictly inside `trange`, and the first of them
/// among equally near ones; or nothing, where none of them has any.
pub open spec fn nearest_among(
    members: Seq<Hittable>,
    n: nat,
    ray: Ray,
    trange: Range<Scalar>,
    found: Option<HitRecord>,
) -> bool {
    match found {
        Some(h) => exists|i: int|
            0 <= i < n && (#[trigger] members[i]).spec_hit(ray, trange) == Some(h) && forall|j: int|
                0 <= j < n ==> not_beaten(h, i, (#[trigger] members[j]).spec_hit(ray, trange), j),
        None => forall|i: int| 0 <= i < n ==> (#[trigger] members[i]).spec_hit(ray, trange) is None,
    }
}

impl Hittable {
    /// An intersection lies strictly inside the interval, and its normal
    /// never points along the ray.
    pub proof fn lemma_hit_faces_ray(self, ray: Ray, trange: Range<Scalar>)
        ensures
            self.spec_hit(ray, trange) matches Some(h) ==> strictly_inside(h.t, trange)
                && ray.dir.dot(h.normal).raw <= 0,
        decreases self, 0nat,
    {
        match self {
            Hittable::Sphere(sphere) => sphere.lemma_hit_faces_ray(ray, trange),
            Hittable::Scene(scene) => Scene::lemma_scan_faces_ray(
                scene.hittables@,
                scene.hittables@.len(),
                ray,
                trange,
            ),
        }
    }

    /// With a nearer end the interval holds the same intersection, or none
    /// where that one lies at or beyond the new end.
    pub proof fn lemma_hit_shrinks(self, ray: Ray, start: Scalar, bound: Scalar, end: Scalar)
        requires
            bound.raw <= end.raw,
        ensures
            self.spec_hit(ray, interval(start, bound)) == before(
                self.spec_hit(ray, interval(start, end)),
                bound,
            ),
        decreases self, 0nat,
    {
        match self {
            Hittable::Sphere(sphere) => sphere.lemma_hit_shrinks(ray, start, bound, end),
            Hittable::Scene(scene) => Scene::lemma_scan_shrinks(
                scene.hittables@,
                scene.hittables@.len(),
                ray,
                start,
                bound,
                end,
            ),
        }
    }
}

impl Scene {
    /// What a walk finds lies strictly inside the interval, and its normal
    /// never points along the ray.
    pub proof fn lemma_scan_faces_ray(
        members: Seq<Hittable>,
        n: nat,
        ray: Ray,
        trange: Range<Scalar>,
    )
        ensures
            Scene::scan(members, n, ray, trange) matches Some(h) ==> strictly_inside(h.t, trange)
                && ray.dir.dot(h.normal).raw <= 0,
        decreases members, n,
    {
        if 0 < n <= members.len() {
            let m = (n - 1) as nat;
            Scene::lemma_scan_faces_ray(members, m, ray, trange);
            let closest = match Scene::scan(members, m, ray, trange) {
                Some(h) => h.t,
                None => trange.end,
            };
            members[n - 1].lemma_hit_faces_ray(ray, interval(trange.start, closest));
        }
    }

    /// With a nearer end a walk finds the same intersection, or none where
    /// that one lies at or beyond the new end.
    pub proof fn lemma_scan_shrinks(
        members: Seq<Hittable>,
        n: nat,
        ray: Ray,
        start: Scalar,
        bound: Scalar,
        end: Scalar,
    )
        requires
            bound.raw <= end.raw,
        ensures
            Scene::scan(members, n, ray, interval(start, bound)) == before(
                Scene::scan(members, n, ray, interval(start, end)),
                bound,
            ),
        decreases members, n,
    {
        if 0 < n <= members.len() {
            let m = (n - 1) as nat;
            Scene::lemma_scan_shrinks(members, m, ray, start, bound, end);
            Scene::lemma_scan_faces_ray(members, m, ray, interval(start, end));
            match Scene::scan(members, m, ray, interval(start, end)) {
                Some(b) => {
                    if b.t.raw < bound.raw {
                        members[n - 1].lemma_hit_faces_ray(ray, interval(start, b.t));
                    } else {
                        members[n - 1].lemma_hit_shrinks(ray, start, bound, b.t);
                    }
                },
                None => {
                    members[n - 1].lemma_hit_shrinks(ray, start, bound, end);
                },
            }
        }
    }

    /// A walk finds the nearest of the members' intersections, the first of
    /// them among equally near ones.
    pub proof fn lemma_scan_nearest(members: Seq<Hittable>, n: nat, ray: Ray, trange: Range<Scalar>)
        requires
            n <= members.len(),
        ensures
            nearest_among(members, n, ray, trange, Scene::scan(members, n, ray, trange)),
        decreases n,
    {
        if n > 0 {
            let m = (n - 1) as nat;
            Scene::lemma_scan_nearest(members, m, ray, trange);
            Scene::lemma_scan_faces_ray(members, m, ray, trange);
            let found = Scene::scan(members, m, ray, trange);
            let closest = match found {
                Some(h) => h.t,
                None => trange.end,
            };
            let last = members[n - 1];
            assert(trange == interval(trange.start, trange.end));
            last.lemma_hit_shrinks(ray, trange.start, closest, trange.end);
            last.lemma_hit_faces_ray(ray, trange);
            let now = Scene::scan(members, n, ray, trange);
            match last.spec_hit(ray, interval(trange.start, closest)) {
                Some(h) => {
                    assert(members[n - 1].spec_hit(ray, trange) == Some(h));
                    assert forall|j: int| 0 <= j < n implies not_beaten(
                        h,
                        n - 1,
                        (#[trigger] members[j]).spec_hit(ray, trange),
                        j,
                    ) by {
                        if j < n - 1 {
                            if let Some(f) = found {
                                let i = choose|i: int|
                                    0 <= i < m && (#[trigger] members[i]).spec_hit(ray, trange)
                                        == Some(f) && forall|j: int|
                                        0 <= j < m ==> not_beaten(
                                            f,
                                            i,
                                            (#[trigger] members[j]).spec_hit(ray, trange),
                                            j,
                                        );
                                assert(not_beaten(f, i, members[j].spec_hit(ray, trange), j));
                            }
                        }
                    }
                },
                None => {
                    if let Some(f) = found {
                        let i = choose|i: int|
                            0 <= i < m && (#[trigger] members[i]).spec_hit(ray, trange) == Some(f)
                                && forall|j: int|
                                0 <= j < m ==> not_beaten(
                                    f,
                                    i,
                                    (#[trigger] members[j]).spec_hit(ray, trange),
                                    j,
                                );
                        assert forall|j: int| 0 <= j < n implies not_beaten(
                            f,
                            i,
                            (#[trigger] members[j]).spec_hit(ray, trange),
                            j,
                        ) by {
                            if j < n - 1 {
                                assert(not_beaten(f, i, members[j].spec_hit(ray, trange), j));
                            }
                        }
                        assert(members[i].spec_hit(ray, trange) == Some(f));
                    } else {
                        assert forall|i: int| 0 <= i < n implies (#[trigger] members[i]).spec_hit(
                            ray,
                            trange,
                        ) is None by {}
                    }
                },
            }
        }
    }
}

} // verus!
