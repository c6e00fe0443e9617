use vstd::prelude::*;

verus! {

/// A kind of resource that robots carry and the station stores.
#[derive(Debug, Clone, Copy, PartialEq, Eq, Hash, Structural)]
pub enum ResourceType {
    Mineral,
    Energy,
    Science,
}

/// A count per resource kind.
#[derive(Debug, Clone, Copy, PartialEq, Eq, Structural)]
pub struct Inventory {
    pub mineral: u32,
    pub energy: u32,
    pub science: u32,
}

impl Inventory {
    pub open spec fn count(self, kind: ResourceType) -> nat {
        match kind {
            ResourceType::Mineral => self.mineral as nat,
            ResourceType::Energy => self.energy as nat,
            ResourceType::Science => self.science as nat,
        }
    }

    pub open spec fn total(self) -> nat {
        (self.mineral + self.energy + self.science) as nat
    }

    /// This inventory with `n` more of `kind`.
    pub open spec fn added(self, kind: ResourceType, n: u32) -> Inventory {
        match kind {
            ResourceType::Mineral => Inventory { mineral: (self.mineral + n) as u32, ..self },
            ResourceType::Energy => Inventory { energy: (self.energy + n) as u32, ..self },
            ResourceType::Science => Inventory { science: (self.science + n) as u32, ..self },
        }
    }

    /// Whether every count of `other` can be added to this one.
    pub open spec fn can_take(self, other: Inventory) -> bool {
        &&& self.mineral + other.mineral <= u32::MAX
        &&& self.energy + other.energy <= u32::MAX
        &&& self.science + other.science <= u32::MAX
    }

    pub open spec fn merged(self, other: Inventory) -> Inventory {
        Inventory {
            mineral: (self.mineral + other.mineral) as u32,
            energy: (self.energy + other.energy) as u32,
            science: (self.science + other.science) as u32,
        }
    }

    pub open spec fn empty() -> Inventory {
        Inventory { mineral: 0, energy: 0, science: 0 }
    }

    /// Whether `other` can be added without overflowing a count.
    pub fn fits(&self, other: &Inventory) -> (r: bool)
        ensures
            r == self.can_take(*other),
    {
        self.mineral as u64 + other.mineral as u64 <= u32::MAX as u64 && self.energy as u64
            + other.energy as u64 <= u32::MAX as u64 && self.science as u64 + other.science as u64
            <= u32::MAX as u64
    }

    pub fn new() -> (r: Inventory)
        ensures
            r == Inventory::empty(),
    {
        Inventory { mineral: 0, energy: 0, science: 0 }
    }

    /// The count of `kind`, or `None` where there is none.
    pub fn get(&self, kind: ResourceType) -> (r: Option<u32>)
        ensures
            r == if self.count(kind) == 0 {
                None
            } else {
                Some(self.count(kind) as u32)
            },
    {
        let n = self.count_of(kind);
        if n == 0 {
            None
        } else {
            Some(n)
        }
    }

    pub fn count_of(&self, kind: ResourceType) -> (r: u32)
        ensures
            r == self.count(kind),
    {
        match kind {
            ResourceType::Mineral => self.mineral,
            ResourceType::Energy => self.energy,
            ResourceType::Science => self.science,
        }
    }

    pub fn contains(&self, kind: ResourceType) -> (r: bool)
        ensures
            r == (self.count(kind) > 0),
    {
        self.count_of(kind) > 0
    }

    pub fn total_count(&self) -> (r: u64)
        ensures
            r == self.total(),
    {
        self.mineral as u64 + self.energy as u64 + self.science as u64
    }

    pub fn is_empty(&self) -> (r: bool)
        ensures
            r == (self.total() == 0),
    {
        self.mineral == 0 && self.energy == 0 && self.science == 0
    }

    /// Adds `n` of `kind`.
    pub fn add(&mut self, kind: ResourceType, n: u32)
        requires
            old(self).count(kind) + n <= u32::MAX,
        ensures
            *final(self) == old(self).added(kind, n),
    {
        match kind {
            ResourceType::Mineral => self.mineral = self.mineral + n,
            ResourceType::Energy => self.energy = self.energy + n,
            ResourceType::Science => self.science = self.science + n,
        }
    }

    /// Moves everything in `other` into this inventory, leaving `other` empty.
    pub fn take_all(&mut self, other: &mut Inventory)
        requires
            old(self).can_take(*old(other)),
        ensures
            *final(self) == old(self).merged(*old(other)),
            *final(other) == Inventory::empty(),
            final(self).total() == old(self).total() + old(other).total(),
    {
        self.mineral = self.mineral + other.mineral;
        self.energy = self.energy + other.energy;
        self.science = self.science + other.science;
        *other = Inventory::new();
    }
}

} // verus!
