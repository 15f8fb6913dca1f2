//! A wall: a static polygon and the class it belongs to.

use vstd::prelude::*;
use crate::polygon::Polygon;
use crate::prelude::ClassId;

verus! {

#[derive(Debug)]
pub struct Wall<P> {
    polygon: Polygon<P>,
    class: ClassId,
}

impl<P: Copy> Clone for Wall<P> {
    fn clone(&self) -> (copy: Self)
        ensures
            copy.outline() == self.outline(),
            copy.class_id() == self.class_id(),
    {
        Wall { polygon: self.polygon.clone(), class: self.class }
    }
}

impl<P: Copy> Wall<P> {
    /// The vertices of the wall's polygon.
    pub closed spec fn outline(&self) -> Seq<P> {
        self.polygon.points@
    }

    /// The class of the wall.
    pub closed spec fn class_id(&self) -> ClassId {
        self.class
    }

    pub fn new(polygon: Polygon<P>, class: ClassId) -> (wall: Self)
        ensures
            wall.outline() == polygon.points@,
            wall.class_id() == class,
    {
        Wall { polygon, class }
    }

    pub fn class(&self) -> (class: ClassId)
        ensures
            class == self.class_id(),
    {
        self.class
    }

    pub fn polygon(&self) -> (polygon: &Polygon<P>)
        ensures
            polygon.points@ == self.outline(),
    {
        &self.polygon
    }
}

} // verus!
