use vstd::prelude::*;
use crate::tiles::TileKind;

verus! {

/// What a solid body is, for collisions.
#[derive(Debug, Clone, Copy, PartialEq, Eq, Structural)]
pub enum SolidKind {
    Player,
    Demon,
    Enemy,
}

/// The three breeds of demon.
#[derive(Debug, Clone, Copy, PartialEq, Eq, Structural)]
pub enum DemonKind {
    Demon1,
    Demon2,
    Demon3,
}

/// What a demon of this breed is worth.
pub open spec fn demon_amount(k: DemonKind) -> int {
    match k {
        DemonKind::Demon1 => 50,
        DemonKind::Demon2 => 100,
        DemonKind::Demon3 => 200,
    }
}

impl DemonKind {
    /// What a demon of this breed is worth.
    pub fn get_amount(&self) -> (r: i32)
        ensures
            r == demon_amount(*self),
    {
        match self {
            DemonKind::Demon1 => 50,
            DemonKind::Demon2 => 100,
            DemonKind::Demon3 => 200,
        }
    }

    /// The breed of the offspring of this demon and `_other`: always this
    /// demon's own breed.
    pub fn mate_with(&self, _other: DemonKind) -> (r: DemonKind)
        ensures
            r == *self,
    {
        *self
    }
}

/// A demon, free or carried.
#[derive(Debug, Clone, Copy, PartialEq, Eq, Structural)]
pub struct Demon {
    pub kind: DemonKind,
    pub picked_up: bool,
}

impl Demon {
    pub fn new(kind: DemonKind, picked_up: bool) -> (r: Demon)
        ensures
            r.kind == kind,
            r.picked_up == picked_up,
    {
        Demon { kind, picked_up }
    }
}

/// The directions a drill is asked to dig in.
#[derive(Debug, Clone, Copy, PartialEq, Eq, Structural)]
pub struct Drill {
    pub want_left: bool,
    pub want_right: bool,
    pub want_up: bool,
    pub want_down: bool,
}

/// The direction a drill digs in, as a tile step (x, y) with y pointing down:
/// left first, then right, up and down.
pub open spec fn drill_direction(d: Drill) -> Option<(i32, i32)> {
    if d.want_left {
        Some((-1i32, 0i32))
    } else if d.want_right {
        Some((1i32, 0i32))
    } else if d.want_up {
        Some((0i32, -1i32))
    } else if d.want_down {
        Some((0i32, 1i32))
    } else {
        None
    }
}

impl Drill {
    /// A drill that is asked for nothing.
    pub fn new() -> (r: Drill)
        ensures
            !r.want_left && !r.want_right && !r.want_up && !r.want_down,
    {
        Drill { want_left: false, want_right: false, want_up: false, want_down: false }
    }

    /// Whether the drill is asked to dig at all.
    pub fn wants_drill(&self) -> (r: bool)
        ensures
            r == (self.want_left || self.want_right || self.want_up || self.want_down),
    {
        self.want_left || self.want_right || self.want_up || self.want_down
    }

    /// The direction the drill digs in (see `drill_direction`).
    pub fn direction(&self) -> (r: Option<(i32, i32)>)
        ensures
            r == drill_direction(*self),
    {
        if self.want_left {
            Some((-1, 0))
        } else if self.want_right {
            Some((1, 0))
        } else if self.want_up {
            Some((0, -1))
        } else if self.want_down {
            Some((0, 1))
        } else {
            None
        }
    }
}

/// What a demon holder does in one tick.
#[derive(Debug, Clone, Copy, PartialEq, Eq, Structural)]
pub struct HolderActions {
    /// A nearby demon to pick up (it becomes a carried item).
    pub pick_up: Option<u64>,
    /// The carried item to put down (it becomes a demon again).
    pub drop: Option<u64>,
    /// The carried item to eat.
    pub eat: Option<u64>,
    /// Whether the pick-up sound plays.
    pub play_sound: bool,
}

/// Something that can carry one demon. Entities are named by their id bits.
#[derive(Debug, Clone, Copy, PartialEq, Eq, Structural)]
pub struct DemonHolder {
    pub demon: Option<u64>,
    pub want_pickup: bool,
    pub want_eat: bool,
}

impl DemonHolder {
    /// A holder that carries nothing and wants nothing.
    pub fn new() -> (r: DemonHolder)
        ensures
            r.demon is None,
            !r.want_pickup,
            !r.want_eat,
    {
        DemonHolder { demon: None, want_pickup: false, want_eat: false }
    }

    /// One tick of the holder, with `nearby` the first demon within reach.
    /// Asked to pick up, it picks up the nearby demon (if any) and puts down
    /// what it carried (if anything), so the two trade places; asked to eat,
    /// it eats what it still carries. The caller spawns the carried item for a
    /// picked-up demon and stores it in `demon`.
    pub fn step(&mut self, nearby: Option<u64>) -> (r: HolderActions)
        ensures
            final(self).want_pickup == old(self).want_pickup,
            final(self).want_eat == old(self).want_eat,
            r.pick_up == if old(self).want_pickup {
                nearby
            } else {
                None
            },
            r.drop == if old(self).want_pickup {
                old(self).demon
            } else {
                None
            },
            r.eat == if !old(self).want_pickup && old(self).want_eat {
                old(self).demon
            } else {
                None
            },
            r.play_sound == (old(self).want_pickup && (nearby is Some || old(self).demon is Some)),
            final(self).demon == if old(self).want_pickup || old(self).want_eat {
                None
            } else {
                old(self).demon
            },
    {
        let mut pick_up = None;
        let mut drop = None;
        let mut eat = None;
        let mut play_sound = false;
        if self.want_pickup {
            if let Some(d) = nearby {
                pick_up = Some(d);
                play_sound = true;
            }
            if let Some(item) = self.demon.take() {
                drop = Some(item);
                play_sound = true;
            }
        }
        if self.want_eat {
            if let Some(item) = self.demon.take() {
                eat = Some(item);
            }
        }
        HolderActions { pick_up, drop, eat, play_sound }
    }
}

/// Something that climbs supports.
#[derive(Debug, Clone, Copy, PartialEq, Eq, Structural)]
pub struct Climber {
    pub climbing: bool,
}

impl Climber {
    pub fn new() -> (r: Climber)
        ensures
            !r.climbing,
    {
        Climber { climbing: false }
    }

    /// Climbing happens exactly on support tiles.
    pub fn update(&mut self, tile: TileKind)
        ensures
            final(self).climbing == (tile == TileKind::Support),
    {
        self.climbing = tile == TileKind::Support;
    }
}

/// Marks bodies that fall.
#[derive(Debug, Clone, Copy, PartialEq, Eq, Structural)]
pub struct Gravity;

/// Marks bodies that explode when they die.
#[derive(Debug, Clone, Copy, PartialEq, Eq, Structural)]
pub struct Explodes;

/// Marks entities that go away once their animation has played.
#[derive(Debug, Clone, Copy, PartialEq, Eq, Structural)]
pub struct DieAfterAnimationDone;


/// The animation a walker shows, and whether it plays at the walker's speed
/// (otherwise at normal speed). A walker with a drill that is asked to dig and
/// carries nothing shows the drilling animation for the direction (see
/// `drill_direction`); otherwise it moves or stands, carrying or not, facing
/// right or left.
pub open spec fn animation_of(drill: Option<Drill>, have_item: bool, moving: bool, facing_right: bool) -> (
    Seq<char>,
    bool,
) {
    if drill is Some && !have_item && drill_direction(drill->0) is Some {
        let (dx, dy) = drill_direction(drill->0)->0;
        (
            if dx < 0 {
                "DrillLeft"@
            } else if dx > 0 {
                "DrillRight"@
            } else if dy < 0 {
                "DrillUp"@
            } else {
                "DrillDown"@
            },
            false,
        )
    } else if moving {
        (
            if have_item {
                if facing_right {
                    "MoveCarryRight"@
                } else {
                    "MoveCarryLeft"@
                }
            } else {
                if facing_right {
                    "MoveRight"@
                } else {
                    "MoveLeft"@
                }
            },
            true,
        )
    } else {
        (
            if have_item {
                if facing_right {
                    "StandCarryRight"@
                } else {
                    "StandCarryLeft"@
                }
            } else {
                if facing_right {
                    "StandRight"@
                } else {
                    "StandLeft"@
                }
            },
            false,
        )
    }
}

/// A walker that carries nothing and whose drill is asked to dig shows, at
/// normal speed, the drilling animation of the direction it digs in: "DrillDown"
/// when the drill is asked only to dig down, and two drills that dig in
/// different directions show different animations.
pub proof fn law_drill_animation_follows_direction(
    d1: Drill,
    d2: Drill,
    moving: bool,
    facing_right: bool,
)
    requires
        d1.want_left || d1.want_right || d1.want_up || d1.want_down,
        d2.want_left || d2.want_right || d2.want_up || d2.want_down,
    ensures
        animation_of(Some(d1), false, moving, facing_right).1 == false,
        d1.want_down && !d1.want_left && !d1.want_right && !d1.want_up ==> animation_of(
            Some(d1),
            false,
            moving,
            facing_right,
        ).0 == "DrillDown"@,
        d1.want_up && !d1.want_left && !d1.want_right ==> animation_of(
            Some(d1),
            false,
            moving,
            facing_right,
        ).0 == "DrillUp"@,
        (animation_of(Some(d1), false, moving, facing_right).0 == animation_of(
            Some(d2),
            false,
            moving,
            facing_right,
        ).0) <==> (drill_direction(d1) == drill_direction(d2)),
{
    reveal_strlit("DrillLeft");
    reveal_strlit("DrillRight");
    reveal_strlit("DrillUp");
    reveal_strlit("DrillDown");
    assert("DrillUp"@.len() == 7 && "DrillRight"@.len() == 10);
    assert("DrillDown"@[5] == 'D' && "DrillLeft"@[5] == 'L');
    assert("DrillUp"@ != "DrillDown"@ && "DrillUp"@ != "DrillLeft"@ && "DrillUp"@ != "DrillRight"@);
    assert("DrillRight"@ != "DrillDown"@ && "DrillRight"@ != "DrillLeft"@);
    assert("DrillDown"@ != "DrillLeft"@);
}

/// Chooses the animation of a walker (see `animation_of`).
pub fn choose_animation(drill: Option<Drill>, have_item: bool, moving: bool, facing_right: bool) -> (r: (
    &'static str,
    bool,
))
    ensures
        (r.0@, r.1) == animation_of(drill, have_item, moving, facing_right),
{
    let mut have_drill = drill.is_some() && !have_item;
    let mut name: &'static str = "";
    if let Some(d) = drill {
        name = if d.want_left {
            "DrillLeft"
        } else if d.want_right {
            "DrillRight"
        } else if d.want_up {
            "DrillUp"
        } else if d.want_down {
            "DrillDown"
        } else {
            have_drill = false;
            ""
        };
    }
    if have_drill {
        return (name, false);
    }
    if moving {
        let name = if have_item {
            if facing_right {
                "MoveCarryRight"
            } else {
                "MoveCarryLeft"
            }
        } else {
            if facing_right {
                "MoveRight"
            } else {
                "MoveLeft"
            }
        };
        (name, true)
    } else {
        let name = if have_item {
            if facing_right {
                "StandCarryRight"
            } else {
                "StandCarryLeft"
            }
        } else {
            if facing_right {
                "StandRight"
            } else {
                "StandLeft"
            }
        };
        (name, false)
    }
}

} // verus!
