//! The race distances of the table, in the order of its columns.

use vstd::prelude::*;

verus! {

/// A race distance with a column of its own.
#[derive(Debug, Clone, Copy, PartialEq, Eq, Structural)]
pub enum Race {
    FiveK,
    FiveMiles,
    TenK,
    FifteenK,
    TenMiles,
    TwentyK,
    HalfMarathon,
    FifteenMiles,
    TwentyFiveK,
    TwentyMiles,
    Marathon,
    FiftyK,
    HundredK,
    HundredMiles,
}

/// How many races the table has.
pub const RACES: usize = 14;

/// The races in column order.
pub open spec fn catalog() -> Seq<Race> {
    seq![
        Race::FiveK,
        Race::FiveMiles,
        Race::TenK,
        Race::FifteenK,
        Race::TenMiles,
        Race::TwentyK,
        Race::HalfMarathon,
        Race::FifteenMiles,
        Race::TwentyFiveK,
        Race::TwentyMiles,
        Race::Marathon,
        Race::FiftyK,
        Race::HundredK,
        Race::HundredMiles,
    ]
}

impl Race {
    /// The length in centimetres. The marathon is taken as 42164.81 m, the
    /// length this table has always used, not as the official 42195 m.
    pub open spec fn centimetres(self) -> nat {
        match self {
            Race::FiveK => 500_000,
            Race::FiveMiles => 804_672,
            Race::TenK => 1_000_000,
            Race::FifteenK => 1_500_000,
            Race::TenMiles => 1_609_340,
            Race::TwentyK => 2_000_000,
            Race::HalfMarathon => 2_108_241,
            Race::FifteenMiles => 2_414_020,
            Race::TwentyFiveK => 2_500_000,
            Race::TwentyMiles => 3_218_690,
            Race::Marathon => 4_216_481,
            Race::FiftyK => 5_000_000,
            Race::HundredK => 10_000_000,
            Race::HundredMiles => 16_093_400,
        }
    }

    /// The name of the race's column.
    pub open spec fn label_text(self) -> Seq<char> {
        match self {
            Race::FiveK => "5k"@,
            Race::FiveMiles => "5m"@,
            Race::TenK => "10k"@,
            Race::FifteenK => "15k"@,
            Race::TenMiles => "10m"@,
            Race::TwentyK => "20k"@,
            Race::HalfMarathon => "Half"@,
            Race::FifteenMiles => "15m"@,
            Race::TwentyFiveK => "25k"@,
            Race::TwentyMiles => "20m"@,
            Race::Marathon => "Marathon"@,
            Race::FiftyK => "50k"@,
            Race::HundredK => "100k"@,
            Race::HundredMiles => "100m"@,
        }
    }

    /// The length in centimetres.
    pub fn length_cm(self) -> (cm: u64)
        ensures
            cm == self.centimetres(),
    {
        match self {
            Race::FiveK => 500_000,
            Race::FiveMiles => 804_672,
            Race::TenK => 1_000_000,
            Race::FifteenK => 1_500_000,
            Race::TenMiles => 1_609_340,
            Race::TwentyK => 2_000_000,
            Race::HalfMarathon => 2_108_241,
            Race::FifteenMiles => 2_414_020,
            Race::TwentyFiveK => 2_500_000,
            Race::TwentyMiles => 3_218_690,
            Race::Marathon => 4_216_481,
            Race::FiftyK => 5_000_000,
            Race::HundredK => 10_000_000,
            Race::HundredMiles => 16_093_400,
        }
    }

    /// The name of the race's column.
    pub fn label(self) -> (name: &'static str)
        ensures
            name@ == self.label_text(),
    {
        match self {
            Race::FiveK => "5k",
            Race::FiveMiles => "5m",
            Race::TenK => "10k",
            Race::FifteenK => "15k",
            Race::TenMiles => "10m",
            Race::TwentyK => "20k",
            Race::HalfMarathon => "Half",
            Race::FifteenMiles => "15m",
            Race::TwentyFiveK => "25k",
            Race::TwentyMiles => "20m",
            Race::Marathon => "Marathon",
            Race::FiftyK => "50k",
            Race::HundredK => "100k",
            Race::HundredMiles => "100m",
        }
    }

    /// The races in column order.
    pub fn all() -> (races: Vec<Race>)
        ensures
            races@ == catalog(),
    {
        let mut races: Vec<Race> = Vec::new();
        races.push(Race::FiveK);
        races.push(Race::FiveMiles);
        races.push(Race::TenK);
        races.push(Race::FifteenK);
        races.push(Race::TenMiles);
        races.push(Race::TwentyK);
        races.push(Race::HalfMarathon);
        races.push(Race::FifteenMiles);
        races.push(Race::TwentyFiveK);
        races.push(Race::TwentyMiles);
        races.push(Race::Marathon);
        races.push(Race::FiftyK);
        races.push(Race::HundredK);
        races.push(Race::HundredMiles);
        assert(races@ =~= catalog());
        races
    }
}

} // verus!
