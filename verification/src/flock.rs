//! The population: agents in simulation order, the world they live in, and
//! the scratch buffer that holds one agent's neighbors.

use crate::boid::{in_range, initial_velocity, Boid, Vec2};
use crate::word::{nat_word, word_of};
use vstd::prelude::*;

verus! {

/// Rows of the seeding grid.
pub const GRID_ROWS: u32 = 10;

/// Columns of the seeding grid.
pub const GRID_COLS: u32 = 10;

/// Distance between two grid lines, in world units.
pub const GRID_SPACING: u32 = 10;

/// A flock of agents in a bounded world with at most one obstacle.
pub struct Flock {
    members: Vec<Boid>,
    /// The world is the box from `(0, 0)` to `bounds`.
    bounds: Vec2,
    /// Centre of a circular obstacle that the flock avoids.
    obstacle: Option<Vec2>,
    /// Neighbors of the agent that is being steered.
    neighbor_buffer: Vec<Boid>,
}

/// What a flock holds.
pub struct FlockView {
    pub members: Seq<Boid>,
    pub bounds: Vec2,
    pub obstacle: Option<Vec2>,
    pub neighbor_buffer: Seq<Boid>,
}

impl View for Flock {
    type V = FlockView;

    closed spec fn view(&self) -> FlockView {
        FlockView {
            members: self.members@,
            bounds: self.bounds,
            obstacle: self.obstacle,
            neighbor_buffer: self.neighbor_buffer@,
        }
    }
}

/// `boid` is a freshly seeded agent at the natural coordinates `(x, y)`.
pub open spec fn seeded_at(boid: Boid, x: nat, y: nat) -> bool {
    &&& boid.position == (Vec2 { x: nat_word(x), y: nat_word(y) })
    &&& boid.velocity == initial_velocity()
}

/// `members` is the seeding grid, row by row: the agent of row `i` and
/// column `j` stands at index `i * GRID_COLS + j` and at the position
/// `(i * GRID_SPACING, j * GRID_SPACING)`.
pub open spec fn is_seeded_grid(members: Seq<Boid>) -> bool {
    &&& members.len() == GRID_ROWS * GRID_COLS
    &&& forall|k: int|
        0 <= k < members.len() ==> seeded_at(
            #[trigger] members[k],
            ((k / GRID_COLS as int) * GRID_SPACING) as nat,
            ((k % GRID_COLS as int) * GRID_SPACING) as nat,
        )
}

/// Whether agent `j` is a neighbor of agent `member_index`, given the squared
/// distance from agent `member_index` to every agent.
pub open spec fn is_neighbor(dist_sq: Seq<u32>, member_index: int) -> spec_fn(int) -> bool {
    |j: int| j != member_index && 0 <= j < dist_sq.len() && in_range(dist_sq[j])
}

/// The indices `0, 1, ..` below `len`.
pub open spec fn indices(len: nat) -> Seq<int> {
    Seq::new(len, |j: int| j)
}

/// The agent at each index.
pub open spec fn member_at(members: Seq<Boid>) -> spec_fn(int) -> Boid {
    |j: int| members[j]
}

/// The neighbors of agent `member_index`: every other agent that is in
/// range of it, in simulation order.
pub open spec fn neighbors(members: Seq<Boid>, dist_sq: Seq<u32>, member_index: int) -> Seq<Boid> {
    indices(members.len()).filter(is_neighbor(dist_sq, member_index)).map_values(
        member_at(members),
    )
}

/// `members` with each velocity replaced by the one at the same index.
pub open spec fn with_velocities(members: Seq<Boid>, velocities: Seq<Vec2>) -> Seq<Boid> {
    Seq::new(
        members.len(),
        |i: int| Boid { position: members[i].position, velocity: velocities[i] },
    )
}

/// `members` with each position replaced by the one at the same index.
pub open spec fn with_positions(members: Seq<Boid>, positions: Seq<Vec2>) -> Seq<Boid> {
    Seq::new(
        members.len(),
        |i: int| Boid { position: positions[i], velocity: members[i].velocity },
    )
}

impl Flock {
    /// The number of agents fits the count that a host is given.
    #[verifier::type_invariant]
    spec fn count_fits(self) -> bool {
        self.members@.len() <= u32::MAX
    }

    /// A world of the given size with no agents and no obstacle.
    pub fn empty(x: u32, y: u32) -> (flock: Flock)
        ensures
            flock@ == (FlockView {
                members: Seq::empty(),
                bounds: Vec2 { x, y },
                obstacle: None,
                neighbor_buffer: Seq::empty(),
            }),
    {
        Flock {
            members: Vec::new(),
            bounds: Vec2 { x, y },
            obstacle: None,
            neighbor_buffer: Vec::new(),
        }
    }

    /// A world of the given size, seeded with a grid of agents that starts
    /// at the origin. The grid does not depend on the size of the world.
    pub fn test_flock(x: u32, y: u32) -> (flock: Flock)
        ensures
            is_seeded_grid(flock@.members),
            flock@.bounds == (Vec2 { x, y }),
            flock@.obstacle.is_none(),
            flock@.neighbor_buffer == Seq::<Boid>::empty(),
    {
        let mut members: Vec<Boid> = Vec::with_capacity(100);
        let mut i: u32 = 0;
        while i < GRID_ROWS
            invariant
                i <= GRID_ROWS,
                members@.len() == i * GRID_COLS,
                forall|k: int|
                    0 <= k < members@.len() ==> seeded_at(
                        #[trigger] members@[k],
                        ((k / GRID_COLS as int) * GRID_SPACING) as nat,
                        ((k % GRID_COLS as int) * GRID_SPACING) as nat,
                    ),
            decreases GRID_ROWS - i,
        {
            let mut j: u32 = 0;
            while j < GRID_COLS
                invariant
                    i < GRID_ROWS,
                    j <= GRID_COLS,
                    members@.len() == i * GRID_COLS + j,
                    forall|k: int|
                        0 <= k < members@.len() ==> seeded_at(
                            #[trigger] members@[k],
                            ((k / GRID_COLS as int) * GRID_SPACING) as nat,
                            ((k % GRID_COLS as int) * GRID_SPACING) as nat,
                        ),
                decreases GRID_COLS - j,
            {
                let boid = Boid::new(word_of(i * GRID_SPACING), word_of(j * GRID_SPACING));
                members.push(boid);
                j += 1;
            }
            i += 1;
        }
        Flock {
            members,
            bounds: Vec2 { x, y },
            obstacle: None,
            neighbor_buffer: Vec::with_capacity(10),
        }
    }

    /// Sets the width of the world.
    pub fn set_width(&mut self, width: u32)
        ensures
            final(self)@ == (FlockView {
                bounds: Vec2 { x: width, y: old(self)@.bounds.y },
                ..old(self)@
            }),
    {
        proof {
            use_type_invariant(&*self);
        }
        self.bounds.x = width;
    }

    /// Sets the height of the world.
    pub fn set_height(&mut self, height: u32)
        ensures
            final(self)@ == (FlockView {
                bounds: Vec2 { x: old(self)@.bounds.x, y: height },
                ..old(self)@
            }),
    {
        proof {
            use_type_invariant(&*self);
        }
        self.bounds.y = height;
    }

    /// Puts the obstacle at `(x, y)`.
    pub fn set_obstacle(&mut self, x: u32, y: u32)
        ensures
            final(self)@ == (FlockView { obstacle: Some(Vec2 { x, y }), ..old(self)@ }),
    {
        proof {
            use_type_invariant(&*self);
        }
        self.obstacle = Some(Vec2 { x, y });
    }

    /// Removes the obstacle.
    pub fn clear_obstacle(&mut self)
        ensures
            final(self)@ == (FlockView { obstacle: None, ..old(self)@ }),
    {
        proof {
            use_type_invariant(&*self);
        }
        self.obstacle = None;
    }

    /// The number of agents.
    pub fn num_boids(&self) -> (count: u32)
        ensures
            count == self@.members.len(),
    {
        proof {
            use_type_invariant(self);
        }
        self.members.len() as u32
    }

    /// The agents, in simulation order.
    pub fn boids(&self) -> (boids: &Vec<Boid>)
        ensures
            boids@ == self@.members,
    {
        &self.members
    }

    /// The far corner of the world.
    pub fn bounds(&self) -> (bounds: Vec2)
        ensures
            bounds == self@.bounds,
    {
        self.bounds
    }

    /// The obstacle, if there is one.
    pub fn obstacle(&self) -> (obstacle: Option<Vec2>)
        ensures
            obstacle == self@.obstacle,
    {
        self.obstacle
    }

    /// The neighbors that the last scan found.
    pub fn neighbor_buffer(&self) -> (buffer: &Vec<Boid>)
        ensures
            buffer@ == self@.neighbor_buffer,
    {
        &self.neighbor_buffer
    }

    /// Fills the neighbor buffer with every agent that is in range of agent
    /// `member_index`, that agent itself left out. `dist_sq` holds the squared
    /// distance from agent `member_index` to each agent. The buffer is reused
    /// from one scan to the next.
    pub fn set_neighbor_buffer(&mut self, member_index: usize, dist_sq: &Vec<u32>)
        requires
            member_index < old(self)@.members.len(),
            dist_sq@.len() == old(self)@.members.len(),
        ensures
            final(self)@ == (FlockView {
                neighbor_buffer: neighbors(old(self)@.members, dist_sq@, member_index as int),
                ..old(self)@
            }),
    {
        proof {
            use_type_invariant(&*self);
        }
        let mut buffer: Vec<Boid> = Vec::new();
        core::mem::swap(&mut self.neighbor_buffer, &mut buffer);
        buffer.clear();
        let count = self.members.len();
        let mut j: usize = 0;
        proof {
            lemma_neighbors_start(self.members@, dist_sq@, member_index as int);
        }
        while j < count
            invariant
                j <= count,
                count == self.members@.len(),
                count == dist_sq@.len(),
                buffer@ == neighbors_among(self.members@, dist_sq@, member_index as int, j as nat),
            decreases count - j,
        {
            proof {
                lemma_neighbors_step(self.members@, dist_sq@, member_index as int, j as nat);
            }
            if j != member_index && Boid::is_close(dist_sq[j]) {
                buffer.push(self.members[j]);
            }
            j += 1;
        }
        core::mem::swap(&mut self.neighbor_buffer, &mut buffer);
    }

    /// Gives every agent its new velocity. Positions stay as they are.
    ///
    /// All velocities change at once: the neighbor scans of one step are
    /// made before this call, so each of them sees the flock as it was when
    /// the step began.
    pub fn update_velocities(&mut self, velocities: &Vec<Vec2>)
        requires
            velocities@.len() == old(self)@.members.len(),
        ensures
            final(self)@ == (FlockView {
                members: with_velocities(old(self)@.members, velocities@),
                ..old(self)@
            }),
    {
        proof {
            use_type_invariant(&*self);
        }
        let mut members: Vec<Boid> = Vec::new();
        core::mem::swap(&mut self.members, &mut members);
        let count = members.len();
        let mut i: usize = 0;
        while i < count
            invariant
                i <= count,
                count == members@.len(),
                count == old(self).members@.len(),
                count == velocities@.len(),
                forall|k: int|
                    0 <= k < i ==> members@[k] == with_velocities(
                        old(self).members@,
                        velocities@,
                    )[k],
                forall|k: int| i <= k < count ==> members@[k] == old(self).members@[k],
            decreases count - i,
        {
            let boid = Boid { position: members[i].position, velocity: velocities[i] };
            members.set(i, boid);
            i += 1;
        }
        assert(members@ =~= with_velocities(old(self).members@, velocities@));
        core::mem::swap(&mut self.members, &mut members);
    }

    /// Moves every agent to its new position. Velocities stay as they are.
    pub fn update_positions(&mut self, positions: &Vec<Vec2>)
        requires
            positions@.len() == old(self)@.members.len(),
        ensures
            final(self)@ == (FlockView {
                members: with_positions(old(self)@.members, positions@),
                ..old(self)@
            }),
    {
        proof {
            use_type_invariant(&*self);
        }
        let mut members: Vec<Boid> = Vec::new();
        core::mem::swap(&mut self.members, &mut members);
        let count = members.len();
        let mut i: usize = 0;
        while i < count
            invariant
                i <= count,
                count == members@.len(),
                count == old(self).members@.len(),
                count == positions@.len(),
                forall|k: int|
                    0 <= k < i ==> members@[k] == with_positions(
                        old(self).members@,
                        positions@,
                    )[k],
                forall|k: int| i <= k < count ==> members@[k] == old(self).members@[k],
            decreases count - i,
        {
            let boid = Boid { position: positions[i], velocity: members[i].velocity };
            members.set(i, boid);
            i += 1;
        }
        assert(members@ =~= with_positions(old(self).members@, positions@));
        core::mem::swap(&mut self.members, &mut members);
    }
}

/// The neighbors of agent `member_index` among the first `scanned` agents.
spec fn neighbors_among(
    members: Seq<Boid>,
    dist_sq: Seq<u32>,
    member_index: int,
    scanned: nat,
) -> Seq<Boid> {
    indices(scanned).filter(is_neighbor(dist_sq, member_index)).map_values(member_at(members))
}

/// Before any agent is scanned there are no neighbors.
proof fn lemma_neighbors_start(members: Seq<Boid>, dist_sq: Seq<u32>, member_index: int)
    ensures
        neighbors_among(members, dist_sq, member_index, 0) == Seq::<Boid>::empty(),
{
    reveal(Seq::filter);
    assert(neighbors_among(members, dist_sq, member_index, 0) =~= Seq::<Boid>::empty());
}

/// Scanning one more agent appends it if it is a neighbor and changes nothing
/// otherwise.
proof fn lemma_neighbors_step(
    members: Seq<Boid>,
    dist_sq: Seq<u32>,
    member_index: int,
    scanned: nat,
)
    ensures
        neighbors_among(members, dist_sq, member_index, scanned + 1) == if is_neighbor(
            dist_sq,
            member_index,
        )(scanned as int) {
            neighbors_among(members, dist_sq, member_index, scanned).push(members[scanned as int])
        } else {
            neighbors_among(members, dist_sq, member_index, scanned)
        },
{
    let keep = is_neighbor(dist_sq, member_index);
    let before = indices(scanned);
    assert(indices(scanned + 1) =~= before.push(scanned as int));
    before.lemma_filter_push(scanned as int, keep);
    if keep(scanned as int) {
        assert(before.filter(keep).push(scanned as int).map_values(member_at(members))
            =~= before.filter(keep).map_values(member_at(members)).push(members[scanned as int]));
    }
}

} // verus!
