//! The trading kernel's verified core: money, settlement and order decisions.
use vstd::prelude::*;

pub mod audit;
pub mod cash_laws;
pub mod config;
pub mod decimal;
pub mod entries;
pub mod exit_laws;
pub mod exit_reasons;
pub mod exits;
pub mod fees;
pub mod fill_laws;
pub mod fills;
pub mod journal;
pub mod kernel_laws;
pub mod lifecycle;
pub mod limits;
pub mod maintenance;
pub mod model;
pub mod order_laws;
pub mod orders;
pub mod panel_laws;
pub mod payout_laws;
pub mod placing;
pub mod range_laws;
pub mod rejections;
pub mod service;
pub mod settlement;
pub mod settlement_laws;
pub mod settling;
pub mod startup;
pub mod str_map;
pub mod strategies;
pub mod submission;
pub mod text;
pub mod verdict_laws;
pub mod views;

verus! {

} // verus!
