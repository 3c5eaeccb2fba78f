//! The saved window state and where it may be put back.
use vstd::prelude::*;

verus! {

/// A window's outer position and size, and whether it was maximised.
#[derive(Clone, Copy, PartialEq, Eq, Structural, Debug)]
pub struct WindowState {
    pub x: i32,
    pub y: i32,
    pub width: u32,
    pub height: u32,
    pub maximized: bool,
}

/// A monitor's position and size.
#[derive(Clone, Copy, PartialEq, Eq, Structural, Debug)]
pub struct MonitorRect {
    pub x: i32,
    pub y: i32,
    pub width: u32,
    pub height: u32,
}

/// Whether point (x, y) lies on the monitor: from its corner up to, not including, its
/// far edges (its size taken as an `i32`).
pub open spec fn on_monitor(x: i32, y: i32, m: MonitorRect) -> bool {
    x >= m.x && x < m.x + (m.width as i32) && y >= m.y && y < m.y + (m.height as i32)
}

/// Whether the monitors' far edges can be computed in `i32`.
pub open spec fn edges_fit(monitors: Seq<MonitorRect>) -> bool {
    forall|i: int|
        0 <= i < monitors.len() ==> i32::MIN <= (#[trigger] monitors[i]).x + (monitors[i].width as i32)
            <= i32::MAX && i32::MIN <= monitors[i].y + (monitors[i].height as i32) <= i32::MAX
}

fn any_on_monitor(ms: &Vec<MonitorRect>, x: i32, y: i32) -> (res: bool)
    requires
        edges_fit(ms@),
    ensures
        res == exists|i: int| 0 <= i < ms@.len() && on_monitor(x, y, #[trigger] ms@[i]),
{
    let mut i: usize = 0;
    while i < ms.len()
        invariant
            i <= ms@.len(),
            edges_fit(ms@),
            forall|j: int| 0 <= j < i ==> !on_monitor(x, y, #[trigger] ms@[j]),
        decreases ms@.len() - i,
    {
        let m = ms[i];
        assert(m == ms@[i as int]);
        let w: i32 = #[verifier::truncate] (m.width as i32);
        let h: i32 = #[verifier::truncate] (m.height as i32);
        assert(w == (ms@[i as int].width as i32));
        let right: i32 = m.x + w;
        let bottom: i32 = m.y + h;
        if x >= m.x && x < right && y >= m.y && y < bottom {
            assert(on_monitor(x, y, ms@[i as int]));
            return true;
        }
        i = i + 1;
    }
    false
}

/// Whether a saved position is still on some monitor; where the monitors cannot be listed
/// it is taken to be.
pub fn is_on_some_monitor(monitors: Option<&Vec<MonitorRect>>, x: i32, y: i32) -> (res: bool)
    requires
        monitors matches Some(ms) ==> edges_fit(ms@),
    ensures
        monitors is None ==> res,
        monitors matches Some(ms) ==> (res <==> exists|i: int|
            0 <= i < ms@.len() && on_monitor(x, y, #[trigger] ms@[i])),
{
    match monitors {
        None => true,
        Some(ms) => any_on_monitor(ms, x, y),
    }
}

/// How a window is restored: with no saved state it is maximised; otherwise it moves back
/// only where its position is on a monitor, takes its size, and is maximised if it was.
#[derive(Clone, Copy, Debug)]
pub struct RestorePlan {
    pub position: Option<(i32, i32)>,
    pub size: Option<(u32, u32)>,
    pub maximize: bool,
}

/// What to do with the main window at start-up.
pub fn restore_plan(state: Option<WindowState>, on_monitor: bool) -> (res: RestorePlan)
    ensures
        res == match state {
            None => RestorePlan { position: None, size: None, maximize: true },
            Some(s) => RestorePlan {
                position: if on_monitor {
                    Some((s.x, s.y))
                } else {
                    None
                },
                size: Some((s.width, s.height)),
                maximize: s.maximized,
            },
        },
{
    match state {
        None => RestorePlan { position: None, size: None, maximize: true },
        Some(s) => RestorePlan {
            position: if on_monitor {
                Some((s.x, s.y))
            } else {
                None
            },
            size: Some((s.width, s.height)),
            maximize: s.maximized,
        },
    }
}

} // verus!
