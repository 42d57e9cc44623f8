//! The readouts of the heads-up display.

use crate::coords::{grid_coord, world_to_grid_position};
use crate::inventory::Currency;
use crate::text::{decimal, decimal_text, signed_decimal, signed_text};
use vstd::prelude::*;

verus! {

/// The heads-up display.
pub struct HUDPlugin;

impl HUDPlugin {
    /// The depth readout: the grid row of the player's world position, in
    /// decimal (negative below the surface).
    pub fn depth_text(player_position: (i32, i32)) -> (r: String)
        ensures
            r@ == signed_decimal(grid_coord(player_position.1 as int)),
    {
        let g = world_to_grid_position(player_position);
        signed_text(g.1 as i64)
    }

    /// The money readout: the purse's amount in decimal.
    pub fn currency_text(currency: &Currency) -> (r: String)
        ensures
            r@ == decimal(currency.amount as nat),
    {
        decimal_text(currency.amount as u64)
    }
}

} // verus!
