//! Surrogates: a few circles that stand for a polygon in fast tests.

use vstd::prelude::*;
use crate::error::CDEError;
use crate::geometry::circle::{lemma_transformation_keeps_within, Circle};
use crate::geometry::transformation::Transformation;

verus! {

/// What a surrogate holds, as mathematical values.
pub struct SurrogateView {
    pub poles: Seq<Circle>,
    pub poles_bounding_circle: Circle,
}

impl SurrogateView {
    /// There is at least one pole; the poles are well formed, come in order of
    /// descending radius, and each lies within the bounding circle.
    pub open spec fn wf(self) -> bool {
        &&& self.poles.len() > 0
        &&& self.poles_bounding_circle.wf()
        &&& forall|i: int|
            0 <= i < self.poles.len() ==> (#[trigger] self.poles[i]).wf() && self.poles[i].within(
                self.poles_bounding_circle,
            )
        &&& forall|i: int|
            0 < i < self.poles.len() ==> self.poles[i - 1].radius >= (#[trigger] self.poles[i]).radius
    }
}

impl SurrogateView {
    /// The centers of all circles stay within coordinate range under `t`.
    pub open spec fn stays_in_range(self, t: Transformation) -> bool {
        &&& t.keeps_in_range(self.poles_bounding_circle.center)
        &&& forall|i: int| 0 <= i < self.poles.len() ==> t.keeps_in_range((#[trigger] self.poles[i]).center)
    }

    /// The surrogate with every circle transformed.
    pub open spec fn transformed(self, t: Transformation) -> SurrogateView {
        SurrogateView {
            poles: Seq::new(self.poles.len(), |i: int| self.poles[i].spec_transformed(t)),
            poles_bounding_circle: self.poles_bounding_circle.spec_transformed(t),
        }
    }
}

/// The surrogate of a polygon: circles inscribed in it (its poles), largest first,
/// and a circle that encloses them all.
#[derive(Debug)]
pub struct SPSurrogate {
    poles: Vec<Circle>,
    poles_bounding_circle: Circle,
}

impl View for SPSurrogate {
    type V = SurrogateView;

    closed spec fn view(&self) -> SurrogateView {
        SurrogateView { poles: self.poles@, poles_bounding_circle: self.poles_bounding_circle }
    }
}

impl SPSurrogate {
    pub open spec fn wf(&self) -> bool {
        self@.wf()
    }

    /// The surrogate with the given poles and bounding circle. It is refused where
    /// there is no pole, where a circle is not well formed, where the poles are not in
    /// order of descending radius, or where a pole does not lie within the bounding
    /// circle.
    pub fn new(poles: Vec<Circle>, poles_bounding_circle: Circle) -> (r: Result<
        SPSurrogate,
        CDEError,
    >)
        ensures
            r.is_ok() == (SurrogateView { poles: poles@, poles_bounding_circle }).wf(),
            r.is_ok() ==> r.unwrap()@ == (SurrogateView { poles: poles@, poles_bounding_circle }),
            r.is_err() ==> r.unwrap_err() == CDEError::InvalidInput,
    {
        if poles.len() == 0 || !poles_bounding_circle.is_valid() {
            return Err(CDEError::InvalidInput);
        }
        let mut i: usize = 0;
        while i < poles.len()
            invariant
                0 <= i <= poles.len(),
                poles_bounding_circle.wf(),
                forall|j: int|
                    0 <= j < i ==> (#[trigger] poles@[j]).wf() && poles@[j].within(
                        poles_bounding_circle,
                    ),
                forall|j: int| 0 < j < i ==> poles@[j - 1].radius >= (#[trigger] poles@[j]).radius,
            decreases poles.len() - i,
        {
            let pole: Circle = poles[i];
            if !pole.is_valid() {
                assert(!poles@[i as int].wf());
                return Err(CDEError::InvalidInput);
            }
            if !pole.is_within(&poles_bounding_circle) {
                assert(!poles@[i as int].within(poles_bounding_circle));
                return Err(CDEError::InvalidInput);
            }
            if i > 0 && poles[i - 1].radius < pole.radius {
                assert(!(poles@[i as int - 1].radius >= poles@[i as int].radius));
                return Err(CDEError::InvalidInput);
            }
            i += 1;
        }
        Ok(SPSurrogate { poles, poles_bounding_circle })
    }

    /// The surrogate with every circle transformed. It is refused where a center
    /// leaves the coordinate range.
    pub fn transform_clone(&self, t: &Transformation) -> (r: Result<SPSurrogate, CDEError>)
        requires
            self.wf(),
            t.wf(),
        ensures
            r.is_ok() == self@.stays_in_range(*t),
            r.is_ok() ==> r.unwrap()@ == self@.transformed(*t) && r.unwrap().wf(),
            r.is_err() ==> r.unwrap_err() == CDEError::InvalidInput,
    {
        let poles_bounding_circle: Circle = match self.poles_bounding_circle.transform_clone(t) {
            Some(c) => c,
            None => {
                return Err(CDEError::InvalidInput);
            },
        };
        let mut poles: Vec<Circle> = Vec::new();
        let mut i: usize = 0;
        while i < self.poles.len()
            invariant
                0 <= i <= self.poles@.len(),
                self.wf(),
                t.wf(),
                t.keeps_in_range(self.poles_bounding_circle.center),
                poles@.len() == i,
                forall|j: int| 0 <= j < i ==> t.keeps_in_range((#[trigger] self.poles@[j]).center),
                forall|j: int|
                    0 <= j < i ==> (#[trigger] poles@[j]) == self.poles@[j].spec_transformed(*t)
                        && poles@[j].wf(),
            decreases self.poles@.len() - i,
        {
            assert(self@.poles[i as int].wf());
            let ghost before = poles@;
            match self.poles[i].transform_clone(t) {
                Some(c) => {
                    poles.push(c);
                    assert forall|j: int| 0 <= j < i + 1 implies (#[trigger] poles@[j])
                        == self.poles@[j].spec_transformed(*t) && poles@[j].wf() by {
                        if j < i {
                            assert(poles@[j] == before[j]);
                        }
                    }
                },
                None => {
                    assert(!t.keeps_in_range(self@.poles[i as int].center));
                    return Err(CDEError::InvalidInput);
                },
            }
            i += 1;
        }
        let moved = SPSurrogate { poles, poles_bounding_circle };
        proof {
            assert(moved@.poles =~= self@.transformed(*t).poles);
            assert forall|j: int| 0 <= j < moved@.poles.len() implies (#[trigger] moved@.poles[j]).wf()
                && moved@.poles[j].within(moved@.poles_bounding_circle) by {
                assert(self@.poles[j].within(self@.poles_bounding_circle));
                assert(t.keeps_in_range(self.poles@[j].center));
                assert(poles@[j] == self.poles@[j].spec_transformed(*t));
                lemma_transformation_keeps_within(*t, self@.poles[j], self@.poles_bounding_circle);
            }
            assert forall|j: int| 0 < j < moved@.poles.len() implies moved@.poles[j - 1].radius >= (
            #[trigger] moved@.poles[j]).radius by {
                assert(self@.poles[j - 1].radius >= self@.poles[j].radius);
            }
        }
        Ok(moved)
    }

    /// The poles, largest first.
    pub fn poles(&self) -> (r: &Vec<Circle>)
        ensures
            r@ == self@.poles,
    {
        &self.poles
    }

    /// The circle that encloses all poles.
    pub fn poles_bounding_circle(&self) -> (r: Circle)
        ensures
            r == self@.poles_bounding_circle,
    {
        self.poles_bounding_circle
    }

}

impl Clone for SPSurrogate {
    /// A copy that holds the same poles and bounding circle.
    fn clone(&self) -> (r: SPSurrogate)
        ensures
            r@ == self@,
    {
        SPSurrogate { poles: self.poles.clone(), poles_bounding_circle: self.poles_bounding_circle }
    }
}

} // verus!
