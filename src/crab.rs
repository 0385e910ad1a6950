use vstd::prelude::*;

verus! {

/// A crab's shell colour, one byte per channel.
#[derive(Clone, Copy, Debug, PartialEq, Eq, Structural)]
pub struct Color {
    pub r: u8,
    pub g: u8,
    pub b: u8,
}

/// The channel a child inherits from two parents: their mean, rounded down.
pub open spec fn mix_channel(a: u8, b: u8) -> u8 {
    ((a as int + b as int) / 2) as u8
}

/// The colour a child inherits from parents of colours `a` and `b`.
pub open spec fn crossed(a: Color, b: Color) -> Color {
    Color { r: mix_channel(a.r, b.r), g: mix_channel(a.g, b.g), b: mix_channel(a.b, b.b) }
}

fn mix(a: u8, b: u8) -> (r: u8)
    ensures
        r == mix_channel(a, b),
{
    ((a as u16 + b as u16) / 2) as u8
}

impl Color {
    pub fn new(r: u8, g: u8, b: u8) -> (c: Color)
        ensures
            c == (Color { r, g, b }),
    {
        Color { r, g, b }
    }

    /// Genetic cross of two colours: each channel is the parents' mean.
    pub fn cross(a: &Color, b: &Color) -> (c: Color)
        ensures
            c == crossed(*a, *b),
    {
        Color { r: mix(a.r, b.r), g: mix(a.g, b.g), b: mix(a.b, b.b) }
    }
}

/// What a crab eats.
#[derive(Clone, Copy, Debug, PartialEq, Eq, Structural)]
pub enum Diet {
    Plants,
    Shellfish,
    Fish,
}

/// The diet picked by a roll of `n`.
pub open spec fn diet_of_roll(n: u64) -> Diet {
    if n % 3 == 0 {
        Diet::Plants
    } else if n % 3 == 1 {
        Diet::Shellfish
    } else {
        Diet::Fish
    }
}

/// Relies on std's `RandomState::new`: hashing keys drawn at random. Nothing
/// is promised of them.
pub assume_specification[ std::collections::hash_map::RandomState::new ]() -> std::collections::hash_map::RandomState;

/// Relies on std's `BuildHasher::hash_one`: a fixed value hashed under `keys`,
/// which is as unpredictable as the keys. Nothing is promised of the word.
#[verifier::external_body]
fn hash_word(keys: &std::collections::hash_map::RandomState) -> u64 {
    std::hash::BuildHasher::hash_one(keys, 0u8)
}

impl Diet {
    /// The diet for a given roll; every roll gives one of the three diets.
    pub fn from_roll(n: u64) -> (d: Diet)
        ensures
            d == diet_of_roll(n),
    {
        let k: u64 = n % 3;
        if k == 0 {
            Diet::Plants
        } else if k == 1 {
            Diet::Shellfish
        } else {
            Diet::Fish
        }
    }

    /// A diet chosen at random.
    pub fn random_diet() -> (d: Diet)
        ensures
            exists|n: u64| d == diet_of_roll(n),
    {
        let keys = std::collections::hash_map::RandomState::new();
        let n = hash_word(&keys);
        Diet::from_roll(n)
    }
}

/// A crab: its name, its speed, its colour and its diet.
#[derive(Debug)]
pub struct Crab {
    pub name: String,
    pub speed: u32,
    pub color: Color,
    pub diet: Diet,
}

impl Crab {
    pub fn new(name: String, speed: u32, color: Color, diet: Diet) -> (c: Crab)
        ensures
            c.name == name,
            c.speed == speed,
            c.color == color,
            c.diet == diet,
    {
        Crab { name, speed, color, diet }
    }

    pub fn name(&self) -> (r: &str)
        ensures
            r@ == self.name@,
    {
        self.name.as_str()
    }

    pub fn speed(&self) -> (r: u32)
        ensures
            r == self.speed,
    {
        self.speed
    }

    pub fn color(&self) -> (r: Color)
        ensures
            r == self.color,
    {
        self.color
    }

    pub fn diet(&self) -> (r: Diet)
        ensures
            r == self.diet,
    {
        self.diet
    }
}

} // verus!
