//! The camera's rules: it follows the player while its view stays inside the
//! map.

use crate::coords::Area;
use crate::player::DrillState;
use vstd::prelude::*;

verus! {

/// The camera of the game world.
pub struct CameraPlugin;

/// A camera centred on `p`, whose view spans `view` around its centre,
/// stays inside `map` along one axis (`lo .. hi` of the view and the map).
pub open spec fn view_fits(p: int, view_lo: int, view_hi: int, map_lo: int, map_hi: int) -> bool {
    p + view_hi <= map_hi && p + view_lo >= map_lo
}

impl CameraPlugin {
    /// Where the camera stands after this frame. While the machine drills
    /// the camera holds still; otherwise, along each axis, it centres on
    /// the player when its view (`view`, relative to its centre) then stays
    /// inside `map_area`, and keeps its place when it would not.
    pub fn follow_player(
        player: (i32, i32),
        state: DrillState,
        camera: (i32, i32),
        view: Area,
        map_area: Area,
    ) -> (r: (i32, i32))
        ensures
            r == if state == DrillState::Drilling {
                camera
            } else {
                (
                    if view_fits(
                        player.0 as int,
                        view.min_x as int,
                        view.max_x as int,
                        map_area.min_x as int,
                        map_area.max_x as int,
                    ) {
                        player.0
                    } else {
                        camera.0
                    },
                    if view_fits(
                        player.1 as int,
                        view.min_y as int,
                        view.max_y as int,
                        map_area.min_y as int,
                        map_area.max_y as int,
                    ) {
                        player.1
                    } else {
                        camera.1
                    },
                )
            },
    {
        if state == DrillState::Drilling {
            return camera;
        }
        let px = player.0 as i64;
        let py = player.1 as i64;
        let x = if px + view.max_x as i64 <= map_area.max_x as i64 && px + view.min_x as i64
            >= map_area.min_x as i64 {
            player.0
        } else {
            camera.0
        };
        let y = if py + view.max_y as i64 <= map_area.max_y as i64 && py + view.min_y as i64
            >= map_area.min_y as i64 {
            player.1
        } else {
            camera.1
        };
        (x, y)
    }
}

} // verus!
