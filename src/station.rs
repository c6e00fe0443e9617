use vstd::prelude::*;
use crate::inventory::Inventory;

verus! {

/// The base where robots deposit what they carry.
#[derive(Debug)]
pub struct Station {
    pub x: usize,
    pub y: usize,
    pub inventory: Inventory,
}

} // verus!
