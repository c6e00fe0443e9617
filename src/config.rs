use vstd::prelude::*;

verus! {

/// Map size and terrain seed of a game.
pub struct Config {
    pub width: usize,
    pub height: usize,
    pub seed: u32,
}

impl Default for Config {
    fn default() -> (r: Self)
        ensures
            r.width == 50,
            r.height == 15,
            r.seed == 42,
    {
        Self { width: 50, height: 15, seed: 42 }
    }
}

} // verus!
