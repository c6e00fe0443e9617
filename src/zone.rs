use vstd::prelude::*;

verus! {

/// A rectangular region of the map (bounds inclusive) that gates access to
/// the resources inside it.
#[derive(Debug, PartialEq)]
pub struct Zone {
    pub id: usize,
    pub name: String,
    pub min_x: usize,
    pub max_x: usize,
    pub min_y: usize,
    pub max_y: usize,
    pub is_unlocked: bool,
    pub resource_count: (u32, u32),
}

impl Clone for Zone {
    fn clone(&self) -> (r: Zone)
        ensures
            r.id == self.id,
            r.name@ == self.name@,
            r.min_x == self.min_x,
            r.max_x == self.max_x,
            r.min_y == self.min_y,
            r.max_y == self.max_y,
            r.is_unlocked == self.is_unlocked,
            r.resource_count == self.resource_count,
    {
        Zone {
            id: self.id,
            name: self.name.clone(),
            min_x: self.min_x,
            max_x: self.max_x,
            min_y: self.min_y,
            max_y: self.max_y,
            is_unlocked: self.is_unlocked,
            resource_count: self.resource_count,
        }
    }
}

impl Zone {
    pub open spec fn contains(self, x: int, y: int) -> bool {
        self.min_x <= x <= self.max_x && self.min_y <= y <= self.max_y
    }

    pub fn new(id: usize, name: String, min_x: usize, max_x: usize, min_y: usize, max_y: usize) -> (z: Zone)
        ensures
            z.id == id,
            z.name@ == name@,
            z.min_x == min_x,
            z.max_x == max_x,
            z.min_y == min_y,
            z.max_y == max_y,
            !z.is_unlocked,
            z.resource_count == (0u32, 0u32),
    {
        Zone { id, name, min_x, max_x, min_y, max_y, is_unlocked: false, resource_count: (0, 0) }
    }

    pub fn contains_point(&self, x: usize, y: usize) -> (r: bool)
        ensures
            r == self.contains(x as int, y as int),
    {
        x >= self.min_x && x <= self.max_x && y >= self.min_y && y <= self.max_y
    }

    pub fn unlock(&mut self)
        ensures
            final(self).is_unlocked,
            *final(self) == (Zone { is_unlocked: true, ..*old(self) }),
    {
        self.is_unlocked = true;
    }
}

} // verus!
