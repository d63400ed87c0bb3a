//! The per-frame snapshot.
//!
//! Each frame the client hands the server one `State`: the render
//! context, the world's terrain grid, the actors, the menu, and a
//! top-level attribute set. The world's terrain is a flat sequence with
//! explicit per-axis lengths; its flat length always equals the product
//! of the three lengths.

use vstd::prelude::*;
use vstd::arithmetic::div_mod::{
    lemma_fundamental_div_mod,
    lemma_mod_division_less_than_divisor,
};
use vstd::arithmetic::mul::lemma_mul_inequality;
use crate::attr::{Attribute, AttributeSet};
use crate::menu::MenuState;

verus! {

/// What kind of scene the frame shows: on the open map, inside a
/// building, or on a battle map.
#[derive(Clone, Copy, PartialEq, Eq, Structural, Debug)]
pub enum RenderContext {
    WorldTraversal,
    BuildingTraversal,
    Battle,
}

/// A tile to draw in world space: a kind tag, a position, an extent, and
/// an attribute set.
pub struct Drawable {
    pub kind: Vec<u8>,
    pub pos_x: i64,
    pub pos_y: i64,
    pub pos_z: i64,
    pub span_x: i64,
    pub span_y: i64,
    pub span_z: i64,
    pub attrs: AttributeSet,
}

/// An in-world character, controlled by the player or the computer.
pub struct Actor {
    pub name: Vec<u8>,
    pub description: Option<Vec<u8>>,
    pub draw: Drawable,
    pub attrs: AttributeSet,
}

/// A world tile that may or may not be traversable.
pub struct Terrain {
    pub draw: Drawable,
    pub attrs: AttributeSet,
}

/// All actors of the current world.
pub struct ActorState {
    pub actors: Vec<Actor>,
    pub attrs: AttributeSet,
}

/// The terrain of the current world: a three-dimensional grid, stored
/// flat with explicit per-axis lengths. Every value of this type keeps
/// the flat length equal to `len_x * len_y * len_z`.
pub struct WorldState {
    terrain: Vec<Terrain>,
    len_x: usize,
    len_y: usize,
    len_z: usize,
    attrs: AttributeSet,
}

/// The flat position of grid cell `(x, y, z)`.
pub open spec fn flat_index(x: int, y: int, z: int, len_y: int, len_z: int) -> int {
    (x * len_y + y) * len_z + z
}

/// `a * b` when it fits a `usize`.
fn checked_dim_mul(a: usize, b: usize) -> (r: Option<usize>)
    ensures
        match r {
            Some(p) => p == a * b,
            None => a * b > usize::MAX,
        },
{
    if a == 0 {
        return Some(0);
    }
    let q = usize::MAX / a;
    let ghost rem = usize::MAX as int % (a as int);
    proof {
        lemma_fundamental_div_mod(usize::MAX as int, a as int);
        lemma_mod_division_less_than_divisor(usize::MAX as int, a as int);
        assert(usize::MAX as int == a as int * (q as int) + rem);
        assert(0 <= rem < a as int);
    }
    if b > q {
        proof {
            assert(a * b > usize::MAX) by (nonlinear_arith)
                requires
                    b > q,
                    a as int >= 1,
                    usize::MAX as int == a as int * (q as int) + rem,
                    0 <= rem < a as int,
            ;
        }
        None
    } else {
        proof {
            assert(a * b <= usize::MAX) by (nonlinear_arith)
                requires
                    b <= q,
                    a as int >= 1,
                    usize::MAX as int == a as int * (q as int) + rem,
                    0 <= rem < a as int,
            ;
        }
        Some(a * b)
    }
}

/// `x * y * z` when it fits a `usize`.
fn dims_product(x: usize, y: usize, z: usize) -> (r: Option<usize>)
    ensures
        match r {
            Some(p) => p == x * y * z,
            None => x * y * z > usize::MAX,
        },
{
    if x == 0 || y == 0 || z == 0 {
        proof {
            assert(x * y * z == 0) by (nonlinear_arith)
                requires
                    x == 0 || y == 0 || z == 0,
            ;
        }
        return Some(0);
    }
    match checked_dim_mul(x, y) {
        Option::Some(xy) => match checked_dim_mul(xy, z) {
            Option::Some(p) => Some(p),
            Option::None => None,
        },
        Option::None => {
            proof {
                lemma_mul_inequality(1, z as int, (x * y) as int);
            }
            None
        },
    }
}

impl WorldState {
    /// The flat terrain holds exactly one tile per grid cell.
    #[verifier::type_invariant]
    spec fn inv(&self) -> bool {
        self.terrain@.len() == self.len_x * self.len_y * self.len_z
    }

    pub closed spec fn spec_terrain(&self) -> Seq<Terrain> {
        self.terrain@
    }

    pub closed spec fn spec_len_x(&self) -> usize {
        self.len_x
    }

    pub closed spec fn spec_len_y(&self) -> usize {
        self.len_y
    }

    pub closed spec fn spec_len_z(&self) -> usize {
        self.len_z
    }

    pub closed spec fn spec_attrs(&self) -> AttributeSet {
        self.attrs
    }

    /// A world with no terrain at all.
    pub fn empty(attrs: AttributeSet) -> (r: Self)
        ensures
            r.spec_terrain().len() == 0,
            r.spec_len_x() == 0 && r.spec_len_y() == 0 && r.spec_len_z() == 0,
            r.spec_attrs() == attrs,
    {
        WorldState { terrain: Vec::new(), len_x: 0, len_y: 0, len_z: 0, attrs }
    }

    /// Builds a world from a flat terrain and its three axis lengths.
    /// Succeeds exactly when the flat length matches the grid: one tile
    /// per cell.
    pub fn new(
        terrain: Vec<Terrain>,
        len_x: usize,
        len_y: usize,
        len_z: usize,
        attrs: AttributeSet,
    ) -> (r: Option<Self>)
        ensures
            match r {
                Some(w) => terrain@.len() == len_x * len_y * len_z && w.spec_terrain()
                    == terrain@ && w.spec_len_x() == len_x && w.spec_len_y() == len_y
                    && w.spec_len_z() == len_z && w.spec_attrs() == attrs,
                None => terrain@.len() != len_x * len_y * len_z,
            },
    {
        let n = terrain.len();
        match dims_product(len_x, len_y, len_z) {
            Option::Some(p) => {
                if n == p {
                    Some(WorldState { terrain, len_x, len_y, len_z, attrs })
                } else {
                    None
                }
            },
            Option::None => None,
        }
    }

    /// The flat number of tiles, always the product of the three axis
    /// lengths.
    pub fn terrain_len(&self) -> (n: usize)
        ensures
            n == self.spec_terrain().len(),
            n == self.spec_len_x() * self.spec_len_y() * self.spec_len_z(),
    {
        proof {
            use_type_invariant(self);
        }
        self.terrain.len()
    }

    /// The three axis lengths.
    pub fn dims(&self) -> (d: (usize, usize, usize))
        ensures
            d == (self.spec_len_x(), self.spec_len_y(), self.spec_len_z()),
    {
        (self.len_x, self.len_y, self.len_z)
    }

    /// The tile at grid cell `(x, y, z)`.
    pub fn terrain_at(&self, x: usize, y: usize, z: usize) -> (t: &Terrain)
        requires
            x < self.spec_len_x(),
            y < self.spec_len_y(),
            z < self.spec_len_z(),
        ensures
            t == self.spec_terrain()[flat_index(
                x as int,
                y as int,
                z as int,
                self.spec_len_y() as int,
                self.spec_len_z() as int,
            )],
    {
        let n = self.terrain.len();
        proof {
            use_type_invariant(self);
            assert(flat_index(
                x as int,
                y as int,
                z as int,
                self.len_y as int,
                self.len_z as int,
            ) < self.len_x * self.len_y * self.len_z) by (nonlinear_arith)
                requires
                    x < self.len_x,
                    y < self.len_y,
                    z < self.len_z,
            ;
            assert(x * self.len_y + y <= usize::MAX) by (nonlinear_arith)
                requires
                    x < self.len_x,
                    y < self.len_y,
                    z < self.len_z,
                    self.len_x * self.len_y * self.len_z <= n,
                    n <= usize::MAX,
            ;
            assert((x * self.len_y + y) * self.len_z + z <= usize::MAX) by (nonlinear_arith)
                requires
                    x < self.len_x,
                    y < self.len_y,
                    z < self.len_z,
                    self.len_x * self.len_y * self.len_z <= n,
                    n <= usize::MAX,
            ;
        }
        let idx = (x * self.len_y + y) * self.len_z + z;
        &self.terrain[idx]
    }

    /// The world's own attribute set.
    pub fn attrs(&self) -> (a: &AttributeSet)
        ensures
            a == self.spec_attrs(),
    {
        &self.attrs
    }

    /// Binds an attribute in the world's attribute set.
    pub fn insert_attr(&mut self, attr: Attribute)
        ensures
            final(self).spec_attrs()@ == old(self).spec_attrs()@.insert(
                attr.name@,
                attr.args.deep_view(),
            ),
            final(self).spec_terrain() == old(self).spec_terrain(),
            final(self).spec_len_x() == old(self).spec_len_x(),
            final(self).spec_len_y() == old(self).spec_len_y(),
            final(self).spec_len_z() == old(self).spec_len_z(),
    {
        proof {
            use_type_invariant(&*self);
        }
        let mut a = AttributeSet::new();
        core::mem::swap(&mut a, &mut self.attrs);
        a.insert(attr);
        self.attrs = a;
    }
}

/// The aggregate snapshot for one frame.
pub struct State {
    pub render_context: RenderContext,
    pub world_state: WorldState,
    pub actor_state: ActorState,
    pub menu_state: MenuState,
    pub attrs: AttributeSet,
}

impl State {
    /// A frame with an empty world, no actors, and an invisible menu,
    /// carrying only the given top-level attributes.
    pub fn empty(render_context: RenderContext, attrs: AttributeSet) -> (r: Self)
        ensures
            r.render_context == render_context,
            r.world_state.spec_terrain().len() == 0,
            r.actor_state.actors@.len() == 0,
            r.menu_state.kind@.len() == 0,
            r.menu_state.sections@.len() == 0,
            r.attrs == attrs,
    {
        State {
            render_context,
            world_state: WorldState::empty(AttributeSet::new()),
            actor_state: ActorState { actors: Vec::new(), attrs: AttributeSet::new() },
            menu_state: MenuState {
                kind: Vec::new(),
                sections: Vec::new(),
                selected_section: 0,
                attrs: AttributeSet::new(),
            },
            attrs,
        }
    }
}

} // verus!
