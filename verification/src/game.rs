use vstd::prelude::*;
use crate::game_state::NextScreen;

verus! {

/// The actions that the menus report (from the user interface).
#[derive(Debug, Clone, Copy, PartialEq, Eq, Structural)]
pub enum UiAction {
    Start,
    Quit,
    MainMenu,
    Other,
}

/// Where the main menu leads after a user-interface action.
pub open spec fn spec_menu_next_screen(action: Option<UiAction>) -> Option<NextScreen> {
    match action {
        Some(UiAction::Start) => Some(NextScreen::Game),
        Some(UiAction::Quit) => Some(NextScreen::Quit),
        _ => None,
    }
}

/// Where the main menu leads after a user-interface action: starting leads
/// to the game, quitting quits, anything else stays.
pub fn menu_next_screen(action: Option<UiAction>) -> (r: Option<NextScreen>)
    ensures
        r == spec_menu_next_screen(action),
{
    match action {
        Some(UiAction::Start) => Some(NextScreen::Game),
        Some(UiAction::Quit) => Some(NextScreen::Quit),
        _ => None,
    }
}

/// What the game screen does with one input event.
#[derive(Debug, Clone, Copy, PartialEq, Eq, Structural)]
pub struct GameInputPlan {
    /// Open the in-game menu.
    pub open_in_game_menu: bool,
    /// Save the map (before leaving for the main menu).
    pub save_map: bool,
    /// Clear the controls if the menus were closed by this event.
    pub clear_controls_if_closed: bool,
    /// The screen to switch to.
    pub next: Option<NextScreen>,
}

/// Decides what the game screen does with an input event. Without menus open,
/// the cancel control, or the map asking for it, opens the in-game menu, and
/// the map's answer is passed on otherwise; with menus open, the main-menu
/// action saves the map and leads to the main menu.
pub open spec fn spec_game_input_plan(
    menus_open: bool,
    cancel: bool,
    map_next: Option<NextScreen>,
    action: Option<UiAction>,
) -> GameInputPlan {
    if !menus_open {
        if cancel || map_next == Some(NextScreen::InGameMenu) {
            GameInputPlan {
                open_in_game_menu: true,
                save_map: false,
                clear_controls_if_closed: false,
                next: None,
            }
        } else {
            GameInputPlan {
                open_in_game_menu: false,
                save_map: false,
                clear_controls_if_closed: false,
                next: map_next,
            }
        }
    } else if action == Some(UiAction::MainMenu) {
        GameInputPlan {
            open_in_game_menu: false,
            save_map: true,
            clear_controls_if_closed: false,
            next: Some(NextScreen::Menu),
        }
    } else {
        GameInputPlan {
            open_in_game_menu: false,
            save_map: false,
            clear_controls_if_closed: true,
            next: None,
        }
    }
}

/// Decides what the game screen does with an input event (see
/// `spec_game_input_plan`). `map_next` is what the map answered, and is only
/// asked for when no menu is open and cancel was not pressed.
pub fn game_input_plan(
    menus_open: bool,
    cancel: bool,
    map_next: Option<NextScreen>,
    action: Option<UiAction>,
) -> (r: GameInputPlan)
    ensures
        r == spec_game_input_plan(menus_open, cancel, map_next, action),
{
    let mut plan = GameInputPlan {
        open_in_game_menu: false,
        save_map: false,
        clear_controls_if_closed: false,
        next: None,
    };
    if !menus_open {
        let mut in_game_menu = false;
        if cancel {
            in_game_menu = true;
        } else {
            if map_next == Some(NextScreen::InGameMenu) {
                in_game_menu = true;
            } else {
                plan.next = map_next;
                return plan;
            }
        }
        if in_game_menu {
            plan.open_in_game_menu = true;
        }
    } else {
        if action == Some(UiAction::MainMenu) {
            plan.save_map = true;
            plan.next = Some(NextScreen::Menu);
            return plan;
        }
        plan.clear_controls_if_closed = true;
    }
    plan
}

/// `s` is in strictly increasing order.
pub open spec fn strictly_increasing(s: Seq<u64>) -> bool {
    forall|i: int, j: int| 0 <= i < j < s.len() ==> s[i] < s[j]
}

/// The entities to remove, each once, in increasing order of id.
pub fn dedup_ids(ids: &Vec<u64>) -> (r: Vec<u64>)
    ensures
        strictly_increasing(r@),
        forall|x: u64| r@.contains(x) <==> ids@.contains(x),
{
    let mut r: Vec<u64> = Vec::new();
    let mut k: usize = 0;
    while k < ids.len()
        invariant
            k <= ids@.len(),
            strictly_increasing(r@),
            forall|x: u64| r@.contains(x) <==> ids@.subrange(0, k as int).contains(x),
        decreases ids@.len() - k,
    {
        let id = ids[k];
        let mut pos: usize = 0;
        while pos < r.len() && r[pos] < id
            invariant
                pos <= r@.len(),
                k < ids@.len(),
                strictly_increasing(r@),
                forall|x: u64| r@.contains(x) <==> ids@.subrange(0, k as int).contains(x),
                forall|j: int| 0 <= j < pos ==> r@[j] < id,
            decreases r@.len() - pos,
        {
            pos += 1;
        }
        let ghost before = r@;
        let ghost pre = ids@.subrange(0, k as int);
        assert(forall|x: u64| before.contains(x) <==> pre.contains(x));
        if pos == r.len() || r[pos] != id {
            r.insert(pos, id);
            assert(r@[pos as int] == id);
            assert forall|i: int, j: int| 0 <= i < j < r@.len() implies r@[i] < r@[j] by {
                if j < pos {
                    assert(r@[i] == before[i] && r@[j] == before[j]);
                } else if j == pos {
                    assert(r@[i] == before[i]);
                } else if i < pos {
                    assert(r@[j] == before[j - 1]);
                    assert(r@[i] == before[i]);
                } else if i == pos {
                    assert(r@[j] == before[j - 1]);
                    assert(before[pos as int] > id);
                } else {
                    assert(r@[i] == before[i - 1] && r@[j] == before[j - 1]);
                }
            }
            assert forall|x: u64| r@.contains(x) <==> (before.contains(x) || x == id) by {
                if r@.contains(x) {
                    let i = choose|i: int| 0 <= i < r@.len() && r@[i] == x;
                    if i < pos {
                        assert(before[i] == x);
                    } else if i > pos {
                        assert(before[i - 1] == x);
                    }
                }
                if before.contains(x) {
                    let i = choose|i: int| 0 <= i < before.len() && before[i] == x;
                    if i < pos {
                        assert(r@[i] == x);
                    } else {
                        assert(r@[i + 1] == x);
                    }
                }
            }
        } else {
            assert(r@[pos as int] == id);
            assert(before.contains(id));
        }
        assert(forall|x: u64| r@.contains(x) <==> (before.contains(x) || x == id));
        assert(ids@.subrange(0, k + 1) =~= pre.push(id));
        assert forall|x: u64| pre.push(id).contains(x) <==> (pre.contains(x) || x == id) by {
            if pre.push(id).contains(x) {
                let i = choose|i: int| 0 <= i < pre.len() + 1 && pre.push(id)[i] == x;
                if i < pre.len() {
                    assert(pre[i] == x);
                }
            }
            if pre.contains(x) {
                let i = choose|i: int| 0 <= i < pre.len() && pre[i] == x;
                assert(pre.push(id)[i] == x);
            }
            if x == id {
                assert(pre.push(id)[pre.len() as int] == x);
            }
        }
        assert forall|x: u64| r@.contains(x) <==> ids@.subrange(0, k + 1).contains(x) by {
            assert(r@.contains(x) <==> (before.contains(x) || x == id));
            assert(before.contains(x) <==> pre.contains(x));
            assert(pre.push(id).contains(x) <==> (pre.contains(x) || x == id));
        }
        k += 1;
    }
    assert(ids@.subrange(0, ids@.len() as int) =~= ids@);
    r
}


/// Two strictly increasing sequences with the same elements are equal: the
/// list of entities to remove does not depend on the order, or the number of
/// times, in which their deaths were recorded, and removing duplicates twice
/// changes nothing.
pub proof fn law_dedup_unique(a: Seq<u64>, b: Seq<u64>)
    requires
        strictly_increasing(a),
        strictly_increasing(b),
        forall|x: u64| a.contains(x) <==> b.contains(x),
    ensures
        a == b,
    decreases a.len() + b.len(),
{
    if a.len() == 0 {
        if b.len() > 0 {
            assert(b.contains(b[0]));
        }
        assert(b =~= a);
    } else if b.len() == 0 {
        assert(a.contains(a[0]));
    } else {
        // The smallest elements agree.
        assert(a.contains(a[0]));
        assert(b.contains(b[0]));
        let ia = choose|i: int| 0 <= i < a.len() && a[i] == b[0];
        let ib = choose|i: int| 0 <= i < b.len() && b[i] == a[0];
        assert(a[0] == b[0]) by {
            if a[0] < b[0] {
                assert(b[ib] == a[0]);
                if ib > 0 {
                    assert(b[0] < b[ib]);
                }
            } else if b[0] < a[0] {
                assert(a[ia] == b[0]);
                if ia > 0 {
                    assert(a[0] < a[ia]);
                }
            }
        }
        let a1 = a.subrange(1, a.len() as int);
        let b1 = b.subrange(1, b.len() as int);
        assert forall|x: u64| a1.contains(x) <==> b1.contains(x) by {
            if a1.contains(x) {
                let i = choose|i: int| 0 <= i < a1.len() && a1[i] == x;
                assert(a[i + 1] == x);
                assert(a.contains(x));
                let j = choose|j: int| 0 <= j < b.len() && b[j] == x;
                assert(x > a[0]);
                if j == 0 {
                    assert(false);
                }
                assert(b1[j - 1] == x);
            }
            if b1.contains(x) {
                let i = choose|i: int| 0 <= i < b1.len() && b1[i] == x;
                assert(b[i + 1] == x);
                assert(b.contains(x));
                let j = choose|j: int| 0 <= j < a.len() && a[j] == x;
                assert(x > b[0]);
                if j == 0 {
                    assert(false);
                }
                assert(a1[j - 1] == x);
            }
        }
        law_dedup_unique(a1, b1);
        assert(a =~= b) by {
            assert forall|i: int| 0 <= i < a.len() implies a[i] == b[i] by {
                if i > 0 {
                    assert(a[i] == a1[i - 1]);
                    assert(b[i] == b1[i - 1]);
                }
            }
        }
    }
}

} // verus!
