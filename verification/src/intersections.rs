//! Intersections of a ray with a sphere, and the choice of the visible one.
use crate::scalar::Scalar;
use crate::spheres::Sphere;
use vstd::prelude::*;
use vstd::std_specs::cmp::PartialEqSpecImpl;

verus! {

/// A ray meets `object` at the parameter `t`.
#[derive(Clone, Copy, Debug)]
pub struct Intersection {
    pub t: Scalar,
    pub object: Sphere,
}

impl Intersection {
    /// The same object, at parameters within the tolerance of each other.
    pub open spec fn spec_approx_eq(self, other: Intersection) -> bool {
        self.object.spec_approx_eq(other.object) && self.t.spec_approx_eq(other.t)
    }

    /// An intersection with `object` at the parameter `t`.
    pub fn new(t: Scalar, object: Sphere) -> (i: Intersection)
        ensures
            i == (Intersection { t, object }),
    {
        Intersection { t, object }
    }
}

impl PartialEq for Intersection {
    fn eq(&self, other: &Self) -> (b: bool) {
        self.object == other.object && self.t.approx_eq(other.t)
    }
}

impl PartialEqSpecImpl for Intersection {
    open spec fn obeys_eq_spec() -> bool {
        true
    }

    open spec fn eq_spec(&self, other: &Self) -> bool {
        self.spec_approx_eq(*other)
    }
}

/// Intersections in the order of their discovery, which need not be sorted.
#[derive(Debug)]
pub struct Intersections(pub Vec<Intersection>);

/// One intersection with `object` for each parameter of `ts`, in order.
pub open spec fn spec_from(ts: Seq<Scalar>, object: Sphere) -> Seq<Intersection> {
    Seq::new(ts.len(), |i: int| Intersection { t: ts[i], object })
}

/// The intersection at `i` is the visible one: its parameter is not
/// negative, none has a smaller parameter that is not negative, and it is
/// the first of those with that parameter.
pub open spec fn is_hit(xs: Seq<Intersection>, i: int) -> bool {
    &&& 0 <= i < xs.len()
    &&& xs[i].t@ >= 0
    &&& forall|j: int| 0 <= j < xs.len() && xs[j].t@ >= 0 ==> xs[i].t@ <= (#[trigger] xs[j]).t@
    &&& forall|j: int| 0 <= j < i && xs[j].t@ >= 0 ==> xs[i].t@ < (#[trigger] xs[j]).t@
}

/// No intersection is visible: every parameter is negative.
pub open spec fn no_hit(xs: Seq<Intersection>) -> bool {
    forall|j: int| 0 <= j < xs.len() ==> (#[trigger] xs[j]).t@ < 0
}

/// The two sequences have the same length and agree, place by place,
/// within the tolerance.
pub open spec fn all_approx_eq(a: Seq<Intersection>, b: Seq<Intersection>) -> bool {
    &&& a.len() == b.len()
    &&& forall|i: int| 0 <= i < a.len() ==> (#[trigger] a[i]).spec_approx_eq(b[i])
}

impl View for Intersections {
    type V = Seq<Intersection>;

    open spec fn view(&self) -> Seq<Intersection> {
        self.0@
    }
}

impl Intersections {
    /// No intersections.
    pub fn empty() -> (xs: Intersections)
        ensures
            xs@ == Seq::<Intersection>::empty(),
    {
        Intersections(Vec::new())
    }

    /// One intersection with `object` for each parameter of `ts`, in order.
    pub fn from(ts: &[Scalar], object: Sphere) -> (xs: Intersections)
        ensures
            xs@ == spec_from(ts@, object),
    {
        let mut items: Vec<Intersection> = Vec::new();
        let mut i: usize = 0;
        while i < ts.len()
            invariant
                i <= ts.len(),
                items@.len() == i,
                forall|j: int| 0 <= j < i ==> items@[j] == (Intersection { t: ts@[j], object }),
            decreases ts.len() - i,
        {
            items.push(Intersection::new(ts[i], object));
            i += 1;
        }
        assert(items@ =~= spec_from(ts@, object));
        Intersections(items)
    }

    /// The number of intersections.
    pub fn count(&self) -> (n: usize)
        ensures
            n == self@.len(),
    {
        self.0.len()
    }

    /// The visible intersection: the first of those with the smallest
    /// parameter that is not negative. `None` where every parameter is
    /// negative, and so where there is no intersection at all.
    pub fn hit(&self) -> (found: Option<&Intersection>)
        ensures
            match found {
                Some(x) => exists|i: int| is_hit(self@, i) && *x == self@[i],
                None => no_hit(self@),
            },
    {
        let mut best: Option<usize> = None;
        let mut i: usize = 0;
        while i < self.0.len()
            invariant
                i <= self.0.len(),
                match best {
                    Some(b) => b < i && is_hit(self@.subrange(0, i as int), b as int),
                    None => no_hit(self@.subrange(0, i as int)),
                },
            decreases self.0.len() - i,
        {
            let ghost before = self@.subrange(0, i as int);
            let ghost after = self@.subrange(0, i + 1);
            assert(forall|j: int| 0 <= j < i ==> before[j] == after[j]);
            assert(after[i as int] == self@[i as int]);
            let t = self.0[i].t;
            if !t.is_negative() {
                match best {
                    None => {
                        best = Some(i);
                    },
                    Some(b) => {
                        if t.lt(self.0[b].t) {
                            best = Some(i);
                        }
                    },
                }
            }
            i += 1;
        }
        assert(self@.subrange(0, i as int) =~= self@);
        match best {
            Some(b) => Some(&self.0[b]),
            None => None,
        }
    }
}

impl PartialEq for Intersections {
    fn eq(&self, other: &Self) -> (b: bool) {
        if self.0.len() != other.0.len() {
            return false;
        }
        let mut i: usize = 0;
        while i < self.0.len()
            invariant
                i <= self.0.len(),
                self.0.len() == other.0.len(),
                forall|j: int| 0 <= j < i ==> (#[trigger] self@[j]).spec_approx_eq(other@[j]),
            decreases self.0.len() - i,
        {
            if !(self.0[i] == other.0[i]) {
                return false;
            }
            i += 1;
        }
        true
    }
}

impl PartialEqSpecImpl for Intersections {
    open spec fn obeys_eq_spec() -> bool {
        true
    }

    open spec fn eq_spec(&self, other: &Self) -> bool {
        all_approx_eq(self@, other@)
    }
}

} // verus!
