//! The data of a profile set: resolutions, positions, monitor identities
//! and the profiles that bind them together.

use vstd::prelude::*;

verus! {

/// A display resolution: width and height in pixels.
#[derive(Clone, Copy, Debug, PartialEq, Eq, Structural, Hash)]
pub struct Mode {
    pub w: u16,
    pub h: u16,
}

impl Mode {
    /// The smallest resolution that is at least as large as both in each dimension.
    pub open spec fn union_spec(self, other: Mode) -> Mode {
        Mode {
            w: if self.w >= other.w { self.w } else { other.w },
            h: if self.h >= other.h { self.h } else { other.h },
        }
    }

    /// `self` is at least as large as `other` in each dimension.
    pub open spec fn covers(self, other: Mode) -> bool {
        self.w >= other.w && self.h >= other.h
    }

    pub fn union(&self, other: &Mode) -> (r: Mode)
        ensures
            r == self.union_spec(*other),
    {
        Mode {
            w: if self.w >= other.w { self.w } else { other.w },
            h: if self.h >= other.h { self.h } else { other.h },
        }
    }
}

/// Where an output's content starts within the framebuffer.
#[derive(Clone, Copy, Debug, PartialEq, Eq, Structural, Hash)]
pub struct Position {
    pub x: i16,
    pub y: i16,
}

/// What identifies an attached monitor: the manufacturer's three letters,
/// the product code and the serial number of its identity block.
#[derive(Clone, Copy, Debug, PartialEq, Eq, Structural, Hash, PartialOrd, Ord)]
pub struct Monitor {
    pub vendor0: char,
    pub vendor1: char,
    pub vendor2: char,
    pub product: u16,
    pub serial: u32,
}

/// The resolution and position wanted for one monitor within one profile.
#[derive(Debug, PartialEq, Eq)]
pub struct MonConfig {
    pub name: String,
    pub mode: Mode,
    pub position: Position,
}

impl Clone for MonConfig {
    fn clone(&self) -> (r: Self)
        ensures
            r == *self,
    {
        MonConfig { name: self.name.clone(), mode: self.mode, position: self.position }
    }
}

/// A named layout: the wanted configuration of each monitor and the size of
/// the framebuffer that holds them.
#[derive(Debug, PartialEq, Eq)]
pub struct SingleConfig {
    pub name: String,
    pub setup: Vec<(Monitor, MonConfig)>,
    pub fb_size: Mode,
}

impl SingleConfig {
    /// The index of the first entry of the setup that is for `mon`.
    pub open spec fn position_of(self, mon: Monitor) -> Option<int> {
        first_with(self.setup@, mon, 0)
    }

    /// The configuration wanted for `mon`, if the profile names it.
    pub fn get(&self, mon: &Monitor) -> (r: Option<&MonConfig>)
        ensures
            match self.position_of(*mon) {
                Some(i) => 0 <= i < self.setup@.len() && r == Some(&self.setup@[i].1),
                None => r.is_none(),
            },
    {
        let mut i: usize = 0;
        while i < self.setup.len()
            invariant
                0 <= i <= self.setup@.len(),
                first_with(self.setup@, *mon, 0) == first_with(self.setup@, *mon, i as int),
            decreases self.setup@.len() - i,
        {
            if self.setup[i].0 == *mon {
                return Some(&self.setup[i].1);
            }
            i += 1;
        }
        None
    }
}

/// The index of the first entry at or after `from` whose monitor is `mon`.
pub open spec fn first_with(setup: Seq<(Monitor, MonConfig)>, mon: Monitor, from: int) -> Option<int>
    decreases setup.len() - from,
{
    if from < 0 || from >= setup.len() {
        None
    } else if setup[from].0 == mon {
        Some(from)
    } else {
        first_with(setup, mon, from + 1)
    }
}

/// One profile and the sorted list of monitors that selects it.
#[derive(Debug, PartialEq, Eq)]
pub struct ConfigEntry {
    pub key: Vec<Monitor>,
    pub profile: SingleConfig,
}

/// The profiles, each under the sorted list of the monitors it is for.
#[derive(Debug, PartialEq, Eq)]
pub struct Config {
    pub entries: Vec<ConfigEntry>,
}

} // verus!
