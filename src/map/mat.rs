use vstd::prelude::*;

verus! {

/// A material: a small identifier into the map's property table, where `0`
/// is air.
#[derive(Debug, Clone, Copy, PartialEq, Eq, Structural)]
pub struct Mat {
    pub id: u8,
}

impl Mat {
    pub open spec fn is_air_spec(self) -> bool {
        self.id == 0
    }

    /// The row of the property table that a non-air material names.
    pub open spec fn index_spec(self) -> int {
        self.id - 1
    }

    pub fn air() -> (m: Mat)
        ensures
            m.is_air_spec(),
    {
        Mat { id: 0 }
    }

    #[verifier::when_used_as_spec(is_air_spec)]
    pub fn is_air(self) -> (b: bool)
        ensures
            b == self.is_air_spec(),
    {
        self.id == 0
    }

    /// The material of the `index`-th entry of a table, counting from one.
    pub fn from_len(index: usize) -> (m: Mat)
        requires
            1 <= index <= 255,
        ensures
            m.id == index,
            m.index_spec() == index - 1,
    {
        Mat { id: index as u8 }
    }

    pub fn index(&self) -> (i: usize)
        requires
            !self.is_air_spec(),
        ensures
            i == self.index_spec(),
    {
        self.id as usize - 1
    }
}

} // verus!
