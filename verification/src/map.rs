use vstd::prelude::*;
use crate::tiles::{Tiles, TileKind, clamp};

verus! {

/// What a torch costs.
pub const TORCH_COST: i32 = 20;

/// What a support costs; drilling one away gives the money back.
pub const SUPPORT_COST: i32 = 10;

/// What a jaunter costs.
pub const JAUNTER_COST: i32 = 30;

/// What grinding a demon earns.
pub const GRINDER_REWARD: i32 = 100;

/// The money a new game starts with.
pub const STARTING_MONEY: i32 = 100;

/// Health a drill takes from a rock in one tick (200 health points per second,
/// at sixty ticks per second).
pub const DRILL_DAMAGE: i32 = 200;

/// Something the player can build on an empty tile.
#[derive(Debug, Clone, Copy, PartialEq, Eq, Structural)]
pub enum Building {
    Torch,
    Support,
    Jaunter,
}

/// The price of a building.
pub open spec fn building_cost(b: Building) -> int {
    match b {
        Building::Torch => TORCH_COST as int,
        Building::Support => SUPPORT_COST as int,
        Building::Jaunter => JAUNTER_COST as int,
    }
}

/// The tile that a building becomes.
pub open spec fn building_tile(b: Building) -> TileKind {
    match b {
        Building::Torch => TileKind::Torch,
        Building::Support => TileKind::Support,
        Building::Jaunter => TileKind::Jaunter,
    }
}

/// Whether a building may replace tile `t`: only empty tiles take buildings,
/// except that a support may also replace a torch.
pub open spec fn can_build_on(b: Building, t: TileKind) -> bool {
    match b {
        Building::Support => t == TileKind::Empty || t == TileKind::Torch,
        _ => t == TileKind::Empty,
    }
}

impl Building {
    /// The price of this building.
    pub fn cost(&self) -> (r: i32)
        ensures
            r == building_cost(*self),
    {
        match self {
            Building::Torch => TORCH_COST,
            Building::Support => SUPPORT_COST,
            Building::Jaunter => JAUNTER_COST,
        }
    }
}

/// The player's money, and the last change to it (shown on screen).
#[derive(Debug, Clone, Copy, PartialEq, Eq, Structural)]
pub struct Wallet {
    pub money: i32,
    pub change_amount: i32,
}

impl Wallet {
    /// The wallet of a new game.
    pub fn new() -> (r: Wallet)
        ensures
            r.money == STARTING_MONEY,
            r.change_amount == 0,
    {
        Wallet { money: STARTING_MONEY, change_amount: 0 }
    }

    /// A demon went into the grinder: the reward is paid.
    pub fn grind(&mut self)
        requires
            old(self).money <= i32::MAX - GRINDER_REWARD,
        ensures
            final(self).money == old(self).money + GRINDER_REWARD,
            final(self).change_amount == GRINDER_REWARD,
    {
        self.money += GRINDER_REWARD;
        self.change_amount = GRINDER_REWARD;
    }
}

/// `a - b`, held within the range of `i32`.
pub open spec fn saturating_sub(a: int, b: int) -> int {
    clamp(a - b, i32::MIN as int, i32::MAX as int)
}

fn saturating_sub_i32(a: i32, b: i32) -> (r: i32)
    ensures
        r == saturating_sub(a as int, b as int),
{
    let d: i64 = a as i64 - b as i64;
    if d < i32::MIN as i64 {
        i32::MIN
    } else if d > i32::MAX as i64 {
        i32::MAX
    } else {
        d as i32
    }
}

/// A tile after one tick of drilling: a rock loses health, a support or a
/// jaunter is taken down, anything else resists.
pub open spec fn drilled(t: TileKind) -> TileKind {
    match t {
        TileKind::Rock { health, support, intrinsic_support, height } => TileKind::Rock {
            health: saturating_sub(health as int, DRILL_DAMAGE as int) as i32,
            support,
            intrinsic_support,
            height,
        },
        TileKind::Support | TileKind::Jaunter => TileKind::Empty,
        _ => t,
    }
}

/// A tile hit by an explosion doing `damage`: a rock loses health, torches,
/// supports and jaunters are destroyed, anything else resists.
pub open spec fn exploded(t: TileKind, damage: int) -> TileKind {
    match t {
        TileKind::Rock { health, support, intrinsic_support, height } => TileKind::Rock {
            health: saturating_sub(health as int, damage) as i32,
            support,
            intrinsic_support,
            height,
        },
        TileKind::Torch | TileKind::Support | TileKind::Jaunter => TileKind::Empty,
        _ => t,
    }
}

/// Builds `building` on tile (x, y) if the wallet can pay for it and the tile
/// takes it. Returns whether it was built.
pub fn place_building(tiles: &mut Tiles, wallet: &mut Wallet, x: i32, y: i32, building: Building) -> (built: bool)
    requires
        old(tiles).wf(),
    ensures
        final(tiles).wf(),
        final(tiles).width == old(tiles).width,
        final(tiles).height == old(tiles).height,
        built == (old(wallet).money >= building_cost(building) && old(tiles).in_bounds(
            x as int,
            y as int,
        ) && can_build_on(building, old(tiles).tile_at(x as int, y as int))),
        built ==> final(tiles)@ == old(tiles)@.update(
            y * old(tiles).width + x,
            building_tile(building),
        ) && final(wallet).money == old(wallet).money - building_cost(building)
            && final(wallet).change_amount == -building_cost(building),
        !built ==> final(tiles)@ == old(tiles)@ && *final(wallet) == *old(wallet),
{
    let cost = building.cost();
    if wallet.money < cost {
        return false;
    }
    if tiles.get_tile_idx(x, y).is_none() {
        return false;
    }
    let current = tiles.get_tile_kind(x, y);
    let ok = match building {
        Building::Support => current == TileKind::Empty || current == TileKind::Torch,
        _ => current == TileKind::Empty,
    };
    if ok {
        if let Some(tile) = tiles.get_tile_kind_mut(x, y) {
            wallet.money -= cost;
            wallet.change_amount = -cost;
            *tile = match building {
                Building::Torch => TileKind::Torch,
                Building::Support => TileKind::Support,
                Building::Jaunter => TileKind::Jaunter,
            };
        }
    }
    ok
}

/// One tick of drilling at tile (x, y) (see `drilled`). Taking down a support
/// refunds its price when the player does it. Returns whether money was refunded.
pub fn drill_tile(tiles: &mut Tiles, wallet: &mut Wallet, x: i32, y: i32, by_player: bool) -> (refunded: bool)
    requires
        old(tiles).wf(),
        old(wallet).money <= i32::MAX - SUPPORT_COST,
    ensures
        final(tiles).wf(),
        final(tiles).width == old(tiles).width,
        final(tiles).height == old(tiles).height,
        final(tiles)@ == if old(tiles).in_bounds(x as int, y as int) {
            old(tiles)@.update(
                y * old(tiles).width + x,
                drilled(old(tiles).tile_at(x as int, y as int)),
            )
        } else {
            old(tiles)@
        },
        refunded == (by_player && old(tiles).in_bounds(x as int, y as int) && old(tiles).tile_at(
            x as int,
            y as int,
        ) == TileKind::Support),
        refunded ==> final(wallet).money == old(wallet).money + SUPPORT_COST
            && final(wallet).change_amount == SUPPORT_COST,
        !refunded ==> *final(wallet) == *old(wallet),
{
    if tiles.get_tile_idx(x, y).is_none() {
        return false;
    }
    let current = tiles.get_tile_kind(x, y);
    let new_tile = match current {
        TileKind::Rock { health, support, intrinsic_support, height } => TileKind::Rock {
            health: saturating_sub_i32(health, DRILL_DAMAGE),
            support,
            intrinsic_support,
            height,
        },
        TileKind::Support | TileKind::Jaunter => TileKind::Empty,
        _ => current,
    };
    let refunded = by_player && current == TileKind::Support;
    if refunded {
        wallet.money += SUPPORT_COST;
        wallet.change_amount = SUPPORT_COST;
    }
    if let Some(tile) = tiles.get_tile_kind_mut(x, y) {
        *tile = new_tile;
    }
    refunded
}

/// An explosion hits tile (x, y) with `damage` (see `exploded`).
pub fn explode_tile(tiles: &mut Tiles, x: i32, y: i32, damage: i32)
    requires
        old(tiles).wf(),
    ensures
        final(tiles).wf(),
        final(tiles).width == old(tiles).width,
        final(tiles).height == old(tiles).height,
        final(tiles)@ == if old(tiles).in_bounds(x as int, y as int) {
            old(tiles)@.update(
                y * old(tiles).width + x,
                exploded(old(tiles).tile_at(x as int, y as int), damage as int),
            )
        } else {
            old(tiles)@
        },
{
    if tiles.get_tile_idx(x, y).is_none() {
        return;
    }
    let current = tiles.get_tile_kind(x, y);
    let new_tile = match current {
        TileKind::Rock { health, support, intrinsic_support, height } => TileKind::Rock {
            health: saturating_sub_i32(health, damage),
            support,
            intrinsic_support,
            height,
        },
        TileKind::Torch | TileKind::Support | TileKind::Jaunter => TileKind::Empty,
        _ => current,
    };
    if let Some(tile) = tiles.get_tile_kind_mut(x, y) {
        *tile = new_tile;
    }
}

/// Building a support on an empty tile and then drilling it away as the player
/// gives back the empty tile and every coin that was paid.
pub proof fn law_support_build_then_drill(g: Seq<TileKind>, i: int, money: int)
    requires
        0 <= i < g.len(),
        g[i] == TileKind::Empty,
        money >= SUPPORT_COST,
    ensures
        can_build_on(Building::Support, g[i]),
        ({
            let built = g.update(i, building_tile(Building::Support));
            built.update(i, drilled(built[i])) == g
        }),
        money - building_cost(Building::Support) + SUPPORT_COST == money,
{
    let built = g.update(i, building_tile(Building::Support));
    assert(built.update(i, drilled(built[i])) =~= g);
}

/// Borders, grinders and empty tiles withstand drills and explosions.
pub proof fn law_frame_indestructible(t: TileKind, damage: int)
    requires
        t == TileKind::Border || t == TileKind::Grinder || t == TileKind::Empty,
    ensures
        drilled(t) == t,
        exploded(t, damage) == t,
{
}

/// A torch or a jaunter goes only on an empty tile, and nothing is built twice
/// on one tile: once a building stands, the same building cannot be placed on
/// it again (pressing the build key twice pays once).
pub proof fn law_build_needs_room(b: Building, t: TileKind)
    ensures
        (b == Building::Torch || b == Building::Jaunter) && can_build_on(b, t) ==> t
            == TileKind::Empty,
        !can_build_on(b, building_tile(b)),
        can_build_on(b, t) ==> t != building_tile(b),
{
}

/// Drilling takes down only supports and jaunters: a torch, a border, a grinder
/// or an empty tile stays as it is, and a rock stays a rock in place, with the
/// same support, fall height and self-support, losing at most one drill's worth
/// of health.
pub proof fn law_drill_takes_only_supports_and_jaunters(t: TileKind)
    ensures
        drilled(t) != t ==> (t is Rock || t == TileKind::Support || t == TileKind::Jaunter),
        (t == TileKind::Support || t == TileKind::Jaunter) ==> drilled(t) == TileKind::Empty,
        t == TileKind::Torch ==> drilled(t) == t,
        t is Rock ==> (drilled(t) matches TileKind::Rock { health, support, intrinsic_support, height }
            && support == t->support && intrinsic_support == t->intrinsic_support
            && height == t->height && health <= t->health
            && (t->health >= i32::MIN + DRILL_DAMAGE ==> health == t->health - DRILL_DAMAGE)),
{
}

/// A successful build never puts the wallet in debt.
pub proof fn law_building_no_debt(b: Building, money: int)
    requires
        money >= building_cost(b),
    ensures
        money - building_cost(b) >= 0,
{
}

} // verus!
