use vstd::prelude::*;

use crate::geometry::{Vec3, manhattan};
use crate::planet::{PLANET_COUNT, planet_position, spec_planet_position};
use crate::travel::{actual_turns_and_energy, reachable_planets, spec_reachable, spec_simulate};

verus! {

/// The immutable result of executing a query: the resolved origin position
/// and, for every catalog location, whether it is reachable.
#[derive(Debug)]
pub struct Answer {
    src: Vec3,
    reachables: Vec<bool>,
}

impl Answer {
    /// The answer carries one flag per catalog location.
    pub closed spec fn wf(self) -> bool {
        self.reachables@.len() == 32
    }

    /// The resolved origin position.
    pub closed spec fn spec_src(self) -> Vec3 {
        self.src
    }

    /// The stored reachability flag of the location `id`.
    pub closed spec fn spec_is_reachable(self, id: int) -> bool {
        self.reachables@[id]
    }

    /// Whether the location `id` was reachable under the executed query.
    pub fn is_reachable(&self, id: usize) -> (r: bool)
        requires
            self.wf(),
            id < 32,
        ensures
            r == self.spec_is_reachable(id as int),
    {
        self.reachables[id]
    }

    /// The (turns, energy) cost of traveling from the answer's origin to the
    /// location `id` at the given speed: `None` when `id` is unreachable, and
    /// otherwise exactly what the travel simulation yields. The bound on the
    /// origin only rules out coordinates so large that the simulation's
    /// counters would not fit their type.
    pub fn cost(&self, id: usize, speed: u32) -> (r: Option<(u32, u32)>)
        requires
            self.wf(),
            id < 32,
            manhattan(self.spec_src(), spec_planet_position(id as int)) <= u32::MAX,
        ensures
            !self.spec_is_reachable(id as int) ==> r is None,
            self.spec_is_reachable(id as int) ==> (r is Some) == (spec_simulate(
                self.spec_src(),
                spec_planet_position(id as int),
                speed as int,
            ) is Some),
            self.spec_is_reachable(id as int) ==> (r matches Some(te) ==> spec_simulate(
                self.spec_src(),
                spec_planet_position(id as int),
                speed as int,
            ) == Some((te.0 as int, te.1 as int))),
    {
        if self.reachables[id] {
            actual_turns_and_energy(self.src, planet_position(id), speed)
        } else {
            None
        }
    }
}

/// A planet-anchored query: an origin location and an energy budget.
#[derive(Debug)]
pub struct QueryPlanet {
    src: usize,
    energy: u32,
}

impl QueryPlanet {
    /// The origin location index.
    pub closed spec fn spec_src(self) -> usize {
        self.src
    }

    /// The energy budget.
    pub closed spec fn spec_energy(self) -> u32 {
        self.energy
    }

    /// The stored origin index is a valid catalog index.
    pub closed spec fn wf(self) -> bool {
        self.src < 32
    }

    pub fn new(src: usize, energy: u32) -> (r: Self)
        requires
            src < 32,
        ensures
            r.wf(),
            r.spec_src() == src,
            r.spec_energy() == energy,
    {
        QueryPlanet { src, energy }
    }

    pub fn src(&self) -> (r: usize)
        ensures
            r == self.spec_src(),
    {
        self.src
    }

    pub fn set_src(&mut self, src: usize)
        requires
            src < 32,
        ensures
            final(self).wf(),
            final(self).spec_src() == src,
            final(self).spec_energy() == old(self).spec_energy(),
    {
        self.src = src;
    }

    pub fn energy(&self) -> (r: u32)
        ensures
            r == self.spec_energy(),
    {
        self.energy
    }

    pub fn set_energy(&mut self, energy: u32)
        ensures
            final(self).spec_energy() == energy,
            final(self).spec_src() == old(self).spec_src(),
            final(self).wf() == old(self).wf(),
    {
        self.energy = energy;
    }
}

impl Default for QueryPlanet {
    /// Location 0 with the default energy budget of 100.
    fn default() -> (r: Self)
        ensures
            r.wf(),
            r.spec_src() == 0,
            r.spec_energy() == 100,
    {
        QueryPlanet { src: 0, energy: 100 }
    }
}

/// A free-position query: an arbitrary origin coordinate.
#[derive(Debug)]
pub struct QueryPosition(Vec3);

impl QueryPosition {
    /// The stored origin coordinate.
    pub closed spec fn spec_src(self) -> Vec3 {
        self.0
    }

    pub fn src(&self) -> (r: Vec3)
        ensures
            r == self.spec_src(),
    {
        self.0
    }

    pub fn set_src_x(&mut self, x: u32)
        ensures
            final(self).spec_src().x == x,
            final(self).spec_src().y == old(self).spec_src().y,
            final(self).spec_src().z == old(self).spec_src().z,
    {
        self.0.x = x;
    }

    pub fn set_src_y(&mut self, y: u32)
        ensures
            final(self).spec_src().y == y,
            final(self).spec_src().x == old(self).spec_src().x,
            final(self).spec_src().z == old(self).spec_src().z,
    {
        self.0.y = y;
    }

    pub fn set_src_z(&mut self, z: u32)
        ensures
            final(self).spec_src().z == z,
            final(self).spec_src().x == old(self).spec_src().x,
            final(self).spec_src().y == old(self).spec_src().y,
    {
        self.0.z = z;
    }
}

impl Default for QueryPosition {
    /// The default free origin (8, 8, 8).
    fn default() -> (r: Self)
        ensures
            r.spec_src() == (Vec3 { x: 8, y: 8, z: 8 }),
    {
        QueryPosition(Vec3::new(8, 8, 8))
    }
}

/// A query in one of its two shapes: anchored on a catalog location with an
/// energy budget, or on an arbitrary free coordinate.
#[derive(Debug)]
pub enum Query {
    Planet(QueryPlanet),
    Position(QueryPosition),
}

impl Query {
    /// Any location index stored in the query is a valid catalog index.
    pub open spec fn wf(self) -> bool {
        match self {
            Query::Planet(q) => q.wf(),
            Query::Position(_) => true,
        }
    }

    /// The origin position the query resolves to.
    pub open spec fn spec_src_pos(self) -> Vec3 {
        match self {
            Query::Planet(q) => spec_planet_position(q.spec_src() as int),
            Query::Position(q) => q.spec_src(),
        }
    }

    pub fn new_planet(src: usize, energy: u32) -> (r: Self)
        requires
            src < 32,
        ensures
            r.wf(),
            (r matches Query::Planet(q) && q.spec_src() == src && q.spec_energy() == energy),
    {
        Query::Planet(QueryPlanet::new(src, energy))
    }

    pub fn default_position() -> (r: Self)
        ensures
            r.wf(),
            (r matches Query::Position(q) && q.spec_src() == (Vec3 { x: 8, y: 8, z: 8 })),
    {
        Query::Position(QueryPosition::default())
    }

    /// The origin position: the catalog position of the anchored location, or
    /// the stored free coordinate.
    pub fn src_pos(&self) -> (r: Vec3)
        requires
            self.wf(),
        ensures
            r == self.spec_src_pos(),
    {
        match self {
            Query::Planet(q) => planet_position(q.src()),
            Query::Position(q) => q.src(),
        }
    }

    /// Resolve the query: the origin position together with the reachable
    /// set — the radius-bounded graph search for a planet-anchored query, and
    /// every location for a free-position query, which is not
    /// graph-constrained.
    pub fn execute(&self) -> (r: Answer)
        requires
            self.wf(),
        ensures
            r.wf(),
            r.spec_src() == self.spec_src_pos(),
            (*self matches Query::Planet(q) ==> forall|i: int|
                0 <= i < 32 ==> r.spec_is_reachable(i) == spec_reachable(
                    q.spec_src() as int,
                    q.spec_energy() as int,
                    i,
                )),
            (*self matches Query::Position(_) ==> forall|i: int|
                0 <= i < 32 ==> r.spec_is_reachable(i)),
    {
        match self {
            Query::Planet(q) => {
                let reachables = reachable_planets(q.src(), q.energy());
                Answer { src: planet_position(q.src()), reachables }
            },
            Query::Position(q) => {
                let reachables = vec![true; PLANET_COUNT];
                Answer { src: q.src(), reachables }
            },
        }
    }
}

impl Default for Query {
    /// A planet-anchored query on location 0 with the default budget.
    fn default() -> (r: Self)
        ensures
            r.wf(),
            (r matches Query::Planet(q) && q.spec_src() == 0 && q.spec_energy() == 100),
    {
        Query::Planet(QueryPlanet::default())
    }
}

} // verus!
