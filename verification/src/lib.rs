//! The DarwinPlay runtime's decision logic: DarwinWine runtime validation,
//! Wine prefix and drive naming, PE inspection, Steam library metadata,
//! compatibility analysis, graphics backend selection and known game fixes.

use vstd::prelude::*;

pub mod cli;
pub mod compatibility;
pub mod error;
pub mod events;
pub mod gamefix;
pub mod graphics;
pub mod order;
pub mod pe;
pub mod prefix;
pub mod steam;
pub mod steam_setup;
pub mod release;
pub mod runtime_install;
pub mod text;
pub mod vdf;
pub mod wine;
pub mod wineboot;

verus! {
} // verus!
