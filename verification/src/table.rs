//! The table: a header, then one row for each pace of a domain.

use crate::conversion::{
    distance_estimate, distance_estimate_text, km_pace, km_pace_text, km_per_hour,
    km_per_hour_text, lemma_distance_estimate_is_duration, lemma_km_pace_is_duration,
    lemma_mile_pace_is_duration, mile_pace, mile_pace_text, miles_per_hour,
    miles_per_hour_text, ConversionError,
};
use crate::race::{catalog, Race, RACES};
use crate::text::is_duration_text;
use vstd::prelude::*;
use vstd::string::StringExecFns;

verus! {

/// How many columns the table has: four metrics and the races.
pub const COLUMNS: usize = 4 + RACES;

/// The order in which a domain is walked.
#[derive(Debug, Clone, Copy, PartialEq, Eq, Structural)]
pub enum Direction {
    /// From the fastest pace to the slowest.
    Ascending,
    /// From the slowest pace to the fastest.
    Descending,
}

/// The paces of a table: every whole pace from `lowest` to `highest`, both
/// included, walked in one direction. No pace of a domain is zero. A domain
/// whose lowest pace is above its highest is empty.
#[derive(Debug, Clone, Copy)]
pub struct Domain {
    lo: u32,
    hi: u32,
    direction: Direction,
}

impl Domain {
    /// The fastest pace.
    pub closed spec fn lowest(self) -> int {
        self.lo as int
    }

    /// What holds of every domain: its fastest pace is not zero.
    #[verifier::type_invariant]
    pub open spec fn positive(self) -> bool {
        self.lowest() >= 1
    }

    /// The slowest pace.
    pub closed spec fn highest(self) -> int {
        self.hi as int
    }

    /// The direction of the walk.
    pub closed spec fn heading(self) -> Direction {
        self.direction
    }

    /// The paces in the order of the walk.
    pub open spec fn paces(self) -> Seq<int> {
        if self.highest() < self.lowest() {
            Seq::empty()
        } else {
            Seq::new(
                (self.highest() - self.lowest() + 1) as nat,
                |i: int|
                    match self.heading() {
                        Direction::Ascending => self.lowest() + i,
                        Direction::Descending => self.highest() - i,
                    },
            )
        }
    }

    /// The domain from `lo` to `hi`; a lowest pace of zero is refused.
    pub fn new(lo: u32, hi: u32, direction: Direction) -> (r: Result<Domain, ConversionError>)
        ensures
            lo == 0 ==> r == Err::<Domain, ConversionError>(ConversionError::ZeroPace),
            lo > 0 ==> r is Ok && r->Ok_0.lowest() == lo && r->Ok_0.highest() == hi
                && r->Ok_0.heading() == direction,
    {
        if lo == 0 {
            return Err(ConversionError::ZeroPace);
        }
        Ok(Domain { lo, hi, direction })
    }

    /// The fastest pace.
    pub fn lo(&self) -> (pace: u32)
        ensures
            pace == self.lowest(),
            pace >= 1,
    {
        proof {
            use_type_invariant(self);
        }
        self.lo
    }

    /// The slowest pace.
    pub fn hi(&self) -> (pace: u32)
        ensures
            pace == self.highest(),
    {
        self.hi
    }

    /// The direction of the walk.
    pub fn direction(&self) -> (direction: Direction)
        ensures
            direction == self.heading(),
    {
        self.direction
    }

    /// How many paces the domain has.
    pub fn len(&self) -> (count: u64)
        ensures
            count == self.paces().len(),
    {
        if self.hi < self.lo {
            0
        } else {
            (self.hi - self.lo) as u64 + 1
        }
    }

    /// The pace at `index` of the walk, counted from zero; none past the end.
    pub fn pace_at(&self, index: u64) -> (pace: Option<u32>)
        ensures
            match pace {
                Some(found) => index < self.paces().len() && found == self.paces()[index as int],
                None => index >= self.paces().len(),
            },
    {
        if index >= self.len() {
            return None;
        }
        let step = index as u32;
        match self.direction {
            Direction::Ascending => Some(self.lo + step),
            Direction::Descending => Some(self.hi - step),
        }
    }
}

/// The walk visits each pace from the lowest to the highest once and no
/// other, none of them zero, and keeps its direction: ascending, each pace is
/// above the one before; descending, below.
pub proof fn lemma_paces_walk(domain: Domain, i: int, j: int)
    requires
        domain.lowest() >= 1,
        0 <= i < j < domain.paces().len(),
    ensures
        domain.paces().len() == domain.highest() - domain.lowest() + 1,
        1 <= domain.lowest() <= domain.paces()[i] <= domain.highest(),
        domain.lowest() <= domain.paces()[j] <= domain.highest(),
        domain.heading() == Direction::Ascending ==> domain.paces()[i] < domain.paces()[j],
        domain.heading() == Direction::Descending ==> domain.paces()[i] > domain.paces()[j],
{
}

/// Each pace from the lowest to the highest is met on the walk.
pub proof fn lemma_paces_cover(domain: Domain, pace: int)
    requires
        domain.lowest() <= pace <= domain.highest(),
    ensures
        domain.paces().contains(pace),
{
    let i = match domain.heading() {
        Direction::Ascending => pace - domain.lowest(),
        Direction::Descending => domain.highest() - pace,
    };
    assert(domain.paces()[i] == pace);
}

/// The names of the columns.
pub open spec fn header_cells() -> Seq<Seq<char>> {
    seq!["KM Pace"@, "KPH"@, "Mile Pace"@, "MPH"@] + catalog().map_values(
        |race: Race| race.label_text(),
    )
}

/// The cells of the row of a positive pace.
pub open spec fn row_cells(pace: int) -> Seq<Seq<char>> {
    seq![
        km_pace_text(pace),
        km_per_hour_text(pace),
        mile_pace_text(pace),
        miles_per_hour_text(pace),
    ] + catalog().map_values(
        |race: Race| distance_estimate_text(pace, race.centimetres() as int),
    )
}

/// The cells of the whole table: the header, then the row of each pace of the walk.
pub open spec fn table_cells(domain: Domain) -> Seq<Seq<Seq<char>>> {
    seq![header_cells()] + domain.paces().map_values(|pace: int| row_cells(pace))
}

/// The header and every row have a cell for each column.
pub proof fn lemma_widths(pace: int)
    ensures
        header_cells().len() == COLUMNS,
        row_cells(pace).len() == COLUMNS,
{
}

/// The columns that hold a speed; the others hold a duration.
pub open spec fn is_speed_column(column: int) -> bool {
    column == 1 || column == 3
}

/// Up to 2236 seconds per kilometre, where a mile takes less than an hour,
/// every duration of a row is well formed: minutes and seconds of two digits
/// and below sixty.
pub proof fn lemma_row_durations_are_well_formed(pace: int, column: int)
    requires
        1 <= pace <= 2236,
        0 <= column < COLUMNS,
        !is_speed_column(column),
    ensures
        is_duration_text(row_cells(pace)[column]),
{
    lemma_km_pace_is_duration(pace);
    lemma_mile_pace_is_duration(pace);
    if column >= 4 {
        lemma_distance_estimate_is_duration(pace, catalog()[column - 4].centimetres() as int);
    }
}

/// The header row.
pub fn header() -> (cells: Vec<String>)
    ensures
        cells.deep_view() == header_cells(),
{
    let mut cells: Vec<String> = Vec::new();
    cells.push(String::from_str("KM Pace"));
    cells.push(String::from_str("KPH"));
    cells.push(String::from_str("Mile Pace"));
    cells.push(String::from_str("MPH"));
    let races = Race::all();
    let mut i: usize = 0;
    while i < races.len()
        invariant
            0 <= i <= races.len(),
            races@ == catalog(),
            cells.len() == 4 + i,
            cells.deep_view() == header_cells().take(4 + i),
        decreases races.len() - i,
    {
        cells.push(String::from_str(races[i].label()));
        i = i + 1;
        assert(cells.deep_view() =~= header_cells().take(4 + i));
    }
    assert(cells.deep_view() =~= header_cells());
    cells
}

/// The row of `pace`: the pace as a duration, kilometres per hour, the pace
/// per mile, miles per hour, then the estimate for each race of the catalog.
pub fn row(pace: u32) -> (r: Result<Vec<String>, ConversionError>)
    ensures
        pace == 0 ==> r == Err::<Vec<String>, ConversionError>(ConversionError::ZeroPace),
        pace > 0 ==> r is Ok && r->Ok_0.deep_view() == row_cells(pace as int),
{
    let mut cells: Vec<String> = Vec::new();
    cells.push(km_pace(pace)?);
    cells.push(km_per_hour(pace)?);
    cells.push(mile_pace(pace)?);
    cells.push(miles_per_hour(pace)?);
    let races = Race::all();
    let mut i: usize = 0;
    while i < races.len()
        invariant
            0 <= i <= races.len(),
            pace > 0,
            races@ == catalog(),
            cells.len() == 4 + i,
            cells.deep_view() == row_cells(pace as int).take(4 + i),
        decreases races.len() - i,
    {
        cells.push(distance_estimate(pace, races[i].length_cm())?);
        i = i + 1;
        assert(cells.deep_view() =~= row_cells(pace as int).take(4 + i));
    }
    assert(cells.deep_view() =~= row_cells(pace as int));
    Ok(cells)
}

/// The whole table: the header, then the rows in the order of the walk.
pub fn table(domain: &Domain) -> (rows: Vec<Vec<String>>)
    ensures
        rows.deep_view() == table_cells(*domain),
        rows.len() == domain.paces().len() + 1,
{
    let mut rows: Vec<Vec<String>> = Vec::new();
    rows.push(header());
    let count = domain.len();
    let mut i: u64 = 0;
    proof {
        use_type_invariant(domain);
    }
    while i < count
        invariant
            0 <= i <= count,
            count == domain.paces().len(),
            domain.lowest() >= 1,
            rows.len() == i + 1,
            rows[0].deep_view() == header_cells(),
            forall|k: int|
                0 <= k < i ==> (#[trigger] rows[k + 1]).deep_view() == row_cells(
                    domain.paces()[k],
                ),
        decreases count - i,
    {
        let pace = domain.pace_at(i).unwrap();
        let cells = row(pace).unwrap();
        rows.push(cells);
        i = i + 1;
    }
    proof {
        let built = rows.deep_view();
        let wanted = table_cells(*domain);
        assert(built.len() == wanted.len());
        assert forall|k: int| 0 <= k < built.len() implies built[k] == wanted[k] by {
            if k > 0 {
                assert(rows[(k - 1) + 1].deep_view() == row_cells(domain.paces()[k - 1]));
            }
        }
        assert(built =~= wanted);
    }
    rows
}

} // verus!
