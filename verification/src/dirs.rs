//! Facing directions, and the three sets of them a state can have.

use vstd::prelude::*;

verus! {

/// One of the eight directions a sprite can face.
#[derive(Debug, PartialEq, Eq, Clone, Copy, Structural)]
pub enum Dir {
    North,
    South,
    East,
    West,
    Northeast,
    Northwest,
    Southeast,
    Southwest,
}

/// How many directions a state is drawn in.
#[derive(Debug, PartialEq, Eq, Clone, Copy, Structural)]
pub enum Dirs {
    /// One direction: south.
    One,
    /// The four cardinal directions.
    Four,
    /// The cardinal and the diagonal directions.
    Eight,
}

impl Dirs {
    /// The directions of the set, in the order in which a sheet stores them.
    pub open spec fn dir_seq(self) -> Seq<Dir> {
        match self {
            Dirs::One => seq![Dir::South],
            Dirs::Four => seq![Dir::North, Dir::South, Dir::East, Dir::West],
            Dirs::Eight => seq![
                Dir::North,
                Dir::South,
                Dir::East,
                Dir::West,
                Dir::Northeast,
                Dir::Northwest,
                Dir::Southeast,
                Dir::Southwest,
            ],
        }
    }

    /// The number of directions in the set.
    pub open spec fn spec_count(&self) -> usize {
        match self {
            Dirs::One => 1,
            Dirs::Four => 4,
            Dirs::Eight => 8,
        }
    }

    /// The place of a direction in `dir_seq`, if the set has it.
    pub open spec fn spec_position(&self, dir: Dir) -> Option<usize> {
        match self {
            Dirs::One => match dir {
                Dir::South => Some(0),
                _ => None,
            },
            Dirs::Four => match dir {
                Dir::North => Some(0),
                Dir::South => Some(1),
                Dir::East => Some(2),
                Dir::West => Some(3),
                _ => None,
            },
            Dirs::Eight => match dir {
                Dir::North => Some(0),
                Dir::South => Some(1),
                Dir::East => Some(2),
                Dir::West => Some(3),
                Dir::Northeast => Some(4),
                Dir::Northwest => Some(5),
                Dir::Southeast => Some(6),
                Dir::Southwest => Some(7),
            },
        }
    }

    /// `spec_count` is the length of `dir_seq`, and `spec_position` finds
    /// each direction at its place there and no direction that is not there.
    pub proof fn lemma_positions(self)
        ensures
            self.dir_seq().len() == self.spec_count(),
            forall|i: int|
                0 <= i < self.dir_seq().len() ==> self.spec_position(#[trigger] self.dir_seq()[i])
                    == Some(i as usize),
            forall|dir: Dir|
                match #[trigger] self.spec_position(dir) {
                    Some(i) => i < self.dir_seq().len() && self.dir_seq()[i as int] == dir,
                    None => !self.dir_seq().contains(dir),
                },
    {
    }

    /// The number of directions in the set.
    #[verifier::when_used_as_spec(spec_count)]
    pub fn count(&self) -> (n: usize)
        ensures
            n == self.spec_count(),
    {
        match self {
            Dirs::One => 1,
            Dirs::Four => 4,
            Dirs::Eight => 8,
        }
    }

    /// The directions of the set, in order.
    pub fn all_dirs(&self) -> (dirs: Vec<Dir>)
        ensures
            dirs@ == self.dir_seq(),
    {
        let mut dirs: Vec<Dir> = Vec::new();
        match self {
            Dirs::One => {
                dirs.push(Dir::South);
            },
            Dirs::Four => {
                dirs.push(Dir::North);
                dirs.push(Dir::South);
                dirs.push(Dir::East);
                dirs.push(Dir::West);
            },
            Dirs::Eight => {
                dirs.push(Dir::North);
                dirs.push(Dir::South);
                dirs.push(Dir::East);
                dirs.push(Dir::West);
                dirs.push(Dir::Northeast);
                dirs.push(Dir::Northwest);
                dirs.push(Dir::Southeast);
                dirs.push(Dir::Southwest);
            },
        }
        assert(dirs@ =~= self.dir_seq());
        dirs
    }

    /// The place of a direction among `all_dirs`, if the set has it.
    #[verifier::when_used_as_spec(spec_position)]
    pub fn position(&self, dir: Dir) -> (r: Option<usize>)
        ensures
            r == self.spec_position(dir),
    {
        match self {
            Dirs::One => match dir {
                Dir::South => Some(0),
                _ => None,
            },
            Dirs::Four => match dir {
                Dir::North => Some(0),
                Dir::South => Some(1),
                Dir::East => Some(2),
                Dir::West => Some(3),
                _ => None,
            },
            Dirs::Eight => match dir {
                Dir::North => Some(0),
                Dir::South => Some(1),
                Dir::East => Some(2),
                Dir::West => Some(3),
                Dir::Northeast => Some(4),
                Dir::Northwest => Some(5),
                Dir::Southeast => Some(6),
                Dir::Southwest => Some(7),
            },
        }
    }
}

} // verus!
