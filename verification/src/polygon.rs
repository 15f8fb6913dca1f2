//! Polygons as rings of vertices.
//!
//! A polygon is the ordered sequence of its vertices and is always closed:
//! the last vertex is joined to the first. Edge `i` runs from vertex `i` to
//! the next vertex on the ring, so the corner at vertex `i` lies between edge
//! `i - 1` and edge `i`. The type of a vertex is the caller's choice.

use vstd::prelude::*;
use vstd::arithmetic::div_mod::{lemma_small_mod, lemma_mod_self_0, lemma_mod_add_multiples_vanish};
use crate::collision::Contact;

verus! {

/// A straight piece of a polygon's outline.
#[derive(Debug)]
pub struct LineSegment<P> {
    pub begin: P,
    pub end: P,
}

impl<P: Copy> Clone for LineSegment<P> {
    fn clone(&self) -> (copy: Self)
        ensures
            copy == *self,
    {
        *self
    }
}

impl<P: Copy> Copy for LineSegment<P> {

}

impl<P> LineSegment<P> {
    pub fn new(begin: P, end: P) -> (segment: Self)
        ensures
            segment == (LineSegment { begin, end }),
    {
        LineSegment { begin, end }
    }
}

/// The vertex that follows vertex `index` on a ring of `len` vertices.
pub open spec fn next_on_ring(index: int, len: int) -> int {
    (index + 1) % len
}

/// The vertex that precedes vertex `index` on a ring of `len` vertices.
pub open spec fn previous_on_ring(index: int, len: int) -> int {
    (index + len - 1) % len
}

/// Represents a polygon made of points. The polygon is always closed: the
/// last edge is implied.
#[derive(Debug)]
pub struct Polygon<P> {
    pub points: Vec<P>,
}

impl<P> From<Vec<P>> for Polygon<P> {
    fn from(points: Vec<P>) -> (polygon: Self) {
        Polygon { points }
    }
}

impl<P> vstd::std_specs::convert::FromSpecImpl<Vec<P>> for Polygon<P> {
    open spec fn obeys_from_spec() -> bool {
        true
    }

    open spec fn from_spec(points: Vec<P>) -> Self {
        Polygon { points }
    }
}

impl<'a, P: Copy> From<&'a [P]> for Polygon<P> {
    fn from(points: &'a [P]) -> (polygon: Self)
        ensures
            polygon.points@ == points@,
    {
        Polygon { points: vstd::slice::slice_to_vec(points) }
    }
}

/// What the conversion from a slice yields is stated by `from` itself: its
/// points are those of the slice.
impl<'a, P: Copy> vstd::std_specs::convert::FromSpecImpl<&'a [P]> for Polygon<P> {
    open spec fn obeys_from_spec() -> bool {
        false
    }

    open spec fn from_spec(points: &'a [P]) -> Self {
        arbitrary()
    }
}

impl<P: Copy> Clone for Polygon<P> {
    fn clone(&self) -> (copy: Self)
        ensures
            copy.points@ == self.points@,
    {
        let mut points: Vec<P> = Vec::new();
        let mut i: usize = 0;
        while i < self.points.len()
            invariant
                i <= self.points@.len(),
                points@ == self.points@.take(i as int),
            decreases self.points@.len() - i,
        {
            points.push(self.points[i]);
            i += 1;
            assert(points@ =~= self.points@.take(i as int));
        }
        assert(self.points@.take(i as int) == self.points@);
        Polygon { points }
    }
}

impl<P: Copy> Polygon<P> {
    /// Edge `index`, from vertex `index` to its successor on the ring.
    pub open spec fn edge_at(self, index: int) -> LineSegment<P> {
        LineSegment {
            begin: self.points@[index],
            end: self.points@[next_on_ring(index, self.points@.len() as int)],
        }
    }

    pub fn new() -> (polygon: Self)
        ensures
            polygon.points@ == Seq::<P>::empty(),
    {
        Polygon { points: Vec::new() }
    }

    /// Returns the number of edges, which is the number of vertices.
    pub fn num_edges(&self) -> (count: usize)
        ensures
            count == self.points@.len(),
    {
        self.points.len()
    }

    /// Returns edge `index`.
    pub fn edge(&self, index: usize) -> (edge: LineSegment<P>)
        requires
            index < self.points@.len(),
        ensures
            edge == self.edge_at(index as int),
    {
        let len = self.points.len();
        let next = if index + 1 == len {
            0
        } else {
            index + 1
        };
        proof {
            if index + 1 == len {
                lemma_mod_self_0(len as int);
            } else {
                lemma_small_mod((index + 1) as nat, len as nat);
            }
        }
        LineSegment::new(self.points[index], self.points[next])
    }

    /// Returns all edges, edge 0 first.
    pub fn edges(&self) -> (edges: Vec<LineSegment<P>>)
        ensures
            edges@.len() == self.points@.len(),
            forall|i: int| 0 <= i < edges@.len() ==> edges@[i] == self.edge_at(i),
    {
        let mut edges: Vec<LineSegment<P>> = Vec::new();
        let mut index: usize = 0;
        while index < self.points.len()
            invariant
                index <= self.points@.len(),
                edges@.len() == index,
                forall|i: int| 0 <= i < index ==> edges@[i] == self.edge_at(i),
            decreases self.points@.len() - index,
        {
            edges.push(self.edge(index));
            index += 1;
        }
        edges
    }

    /// Returns the two edges that meet at vertex `vertex_index`: the one that
    /// ends there, then the one that begins there.
    pub fn corner_edges(&self, vertex_index: usize) -> (edges: (LineSegment<P>, LineSegment<P>))
        requires
            vertex_index < self.points@.len(),
        ensures
            edges.0 == self.edge_at(previous_on_ring(vertex_index as int, self.points@.len() as int)),
            edges.1 == self.edge_at(vertex_index as int),
            0 <= previous_on_ring(vertex_index as int, self.points@.len() as int) < self.points@.len(),
    {
        let len = self.points.len();
        let previous = if vertex_index == 0 {
            len - 1
        } else {
            vertex_index - 1
        };
        proof {
            if vertex_index == 0 {
                lemma_small_mod((len - 1) as nat, len as nat);
            } else {
                lemma_mod_add_multiples_vanish(vertex_index - 1, len as int);
                lemma_small_mod((vertex_index - 1) as nat, len as nat);
            }
        }
        (self.edge(previous), self.edge(vertex_index))
    }
}

/// Tells whether a point lies outside the corner that two edges form, from
/// what is known of the point and each edge alone. At a convex corner the
/// point is outside when it is in front of either edge; at a concave corner
/// it has to be in front of both.
pub fn is_point_outside_corner(convex: bool, in_front_of_first: bool, in_front_of_second: bool) -> (outside: bool)
    ensures
        convex ==> outside == (in_front_of_first || in_front_of_second),
        !convex ==> outside == (in_front_of_first && in_front_of_second),
{
    if convex {
        in_front_of_first || in_front_of_second
    } else {
        in_front_of_first && in_front_of_second
    }
}

/// The earlier of an earliest contact so far and one more contact. The
/// contact found first stays unless the new one is strictly earlier.
pub open spec fn earlier<N>(so_far: Option<Contact<N>>, contact: Option<Contact<N>>) -> Option<Contact<N>> {
    match (so_far, contact) {
        (Some(kept), Some(new)) => if new.time < kept.time {
            contact
        } else {
            so_far
        },
        (Some(_), None) => so_far,
        (None, _) => contact,
    }
}

/// The earliest of `contacts`; among several of the earliest time, the first.
pub open spec fn earliest<N>(contacts: Seq<Option<Contact<N>>>) -> Option<Contact<N>>
    decreases contacts.len(),
{
    if contacts.len() == 0 {
        None
    } else {
        earlier(earliest(contacts.drop_last()), contacts.last())
    }
}

/// The earliest contact is one of the contacts, none is earlier, and those
/// in front of it are strictly later. There is none only if there is no
/// contact at all.
pub proof fn lemma_earliest<N>(contacts: Seq<Option<Contact<N>>>)
    ensures
        earliest(contacts).is_none() <==> (forall|i: int| 0 <= i < contacts.len() ==> contacts[i].is_none()),
        earliest(contacts).is_some() ==> exists|k: int|
            {
                &&& 0 <= k < contacts.len()
                &&& contacts[k] == earliest(contacts)
                &&& forall|i: int|
                    0 <= i < k && contacts[i].is_some() ==> contacts[i].unwrap().time > earliest(
                        contacts,
                    ).unwrap().time
            },
        forall|i: int|
            0 <= i < contacts.len() && contacts[i].is_some() ==> earliest(contacts).unwrap().time
                <= contacts[i].unwrap().time,
    decreases contacts.len(),
{
    if contacts.len() > 0 {
        let front = contacts.drop_last();
        let last_index = contacts.len() - 1;
        lemma_earliest(front);
        assert forall|i: int| 0 <= i < front.len() implies front[i] == contacts[i] by {}
        let best = earliest(contacts);
        if earliest(front).is_none() {
            if best.is_some() {
                assert(contacts[last_index] == best);
            }
        } else {
            let k = choose|k: int|
                {
                    &&& 0 <= k < front.len()
                    &&& front[k] == earliest(front)
                    &&& forall|i: int|
                        0 <= i < k && front[i].is_some() ==> front[i].unwrap().time > earliest(
                            front,
                        ).unwrap().time
                };
            if best == earliest(front) {
                assert(contacts[k] == best);
            } else {
                assert(contacts[last_index] == best);
            }
            assert(contacts[k].is_some());
        }
        if best.is_none() {
            assert forall|i: int| 0 <= i < contacts.len() implies contacts[i].is_none() by {
                if i < front.len() {
                    assert(front[i].is_none());
                }
            }
        }
    }
}

/// Picks the collision of a particle with a polygon from its contacts with
/// the polygon's corners and with its edges: the earliest of them all. The
/// corners are looked at first, each group in the order of the ring, and a
/// later contact of the same time does not replace an earlier find.
pub fn find_particle_vs_polygon_collision<N: Copy>(
    vertex_contacts: &Vec<Option<Contact<N>>>,
    edge_contacts: &Vec<Option<Contact<N>>>,
) -> (collision: Option<Contact<N>>)
    ensures
        collision == earliest(vertex_contacts@ + edge_contacts@),
        collision.is_none() <==> (forall|i: int| 0 <= i < vertex_contacts@.len() ==> vertex_contacts@[i].is_none())
            && (forall|i: int| 0 <= i < edge_contacts@.len() ==> edge_contacts@[i].is_none()),
        forall|i: int|
            0 <= i < vertex_contacts@.len() && vertex_contacts@[i].is_some() ==> collision.unwrap().time
                <= vertex_contacts@[i].unwrap().time,
        forall|i: int|
            0 <= i < edge_contacts@.len() && edge_contacts@[i].is_some() ==> collision.unwrap().time
                <= edge_contacts@[i].unwrap().time,
{
    proof {
        let all = vertex_contacts@ + edge_contacts@;
        lemma_earliest(all);
        assert forall|i: int| 0 <= i < vertex_contacts@.len() implies all[i] == vertex_contacts@[i] by {}
        assert forall|i: int| 0 <= i < edge_contacts@.len() implies all[vertex_contacts@.len() + i]
            == edge_contacts@[i] by {}
        if forall|i: int| 0 <= i < all.len() ==> all[i].is_none() {
            assert forall|i: int| 0 <= i < vertex_contacts@.len() implies vertex_contacts@[i].is_none() by {
                assert(all[i].is_none());
            }
            assert forall|i: int| 0 <= i < edge_contacts@.len() implies edge_contacts@[i].is_none() by {
                assert(all[vertex_contacts@.len() + i].is_none());
            }
        }
        assert forall|i: int|
            0 <= i < edge_contacts@.len() && edge_contacts@[i].is_some() implies earliest(all).unwrap().time
            <= edge_contacts@[i].unwrap().time by {
            assert(all[vertex_contacts@.len() + i].is_some());
        }
        assert forall|i: int|
            0 <= i < vertex_contacts@.len() && vertex_contacts@[i].is_some() implies earliest(all).unwrap().time
            <= vertex_contacts@[i].unwrap().time by {
            assert(all[i].is_some());
        }
    }
    let mut result: Option<Contact<N>> = None;
    let mut v: usize = 0;
    while v < vertex_contacts.len()
        invariant
            v <= vertex_contacts@.len(),
            result == earliest(vertex_contacts@.take(v as int)),
        decreases vertex_contacts@.len() - v,
    {
        proof {
            let upto = vertex_contacts@.take(v as int + 1);
            assert(upto.drop_last() == vertex_contacts@.take(v as int));
        }
        result = take_earlier(result, vertex_contacts[v]);
        v += 1;
    }
    assert(vertex_contacts@.take(v as int) == vertex_contacts@);
    let mut e: usize = 0;
    while e < edge_contacts.len()
        invariant
            e <= edge_contacts@.len(),
            result == earliest(vertex_contacts@ + edge_contacts@.take(e as int)),
        decreases edge_contacts@.len() - e,
    {
        proof {
            let upto = vertex_contacts@ + edge_contacts@.take(e as int + 1);
            assert(upto.drop_last() == vertex_contacts@ + edge_contacts@.take(e as int));
        }
        result = take_earlier(result, edge_contacts[e]);
        e += 1;
    }
    assert(edge_contacts@.take(e as int) == edge_contacts@);
    result
}

/// Replaces the contact found so far by a new one if the new one is strictly
/// earlier, or if nothing was found yet.
pub fn take_earlier<N: Copy>(so_far: Option<Contact<N>>, contact: Option<Contact<N>>) -> (kept: Option<Contact<N>>)
    ensures
        kept == earlier(so_far, contact),
{
    match (so_far, contact) {
        (Some(kept), Some(new)) => if new.time < kept.time {
            contact
        } else {
            so_far
        },
        (Some(_), None) => so_far,
        (None, _) => contact,
    }
}

} // verus!
