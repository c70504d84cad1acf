use pace_table::conversion::ConversionError;
use pace_table::race::{Race, RACES};
use pace_table::table::{header, row, table, Direction, Domain, COLUMNS};

const HEADER: [&str; 18] = [
    "KM Pace", "KPH", "Mile Pace", "MPH", "5k", "5m", "10k", "15k", "10m", "20k", "Half", "15m",
    "25k", "20m", "Marathon", "50k", "100k", "100m",
];

fn pace_of(cells: &[String]) -> u32 {
    let parts: Vec<u32> = cells[0].split(':').map(|p| p.parse().unwrap()).collect();
    parts[1] * 60 + parts[2]
}

fn well_formed(text: &str) -> bool {
    let parts: Vec<&str> = text.split(':').collect();
    parts.len() == 3
        && !parts[0].is_empty()
        && parts[1].len() == 2
        && parts[2].len() == 2
        && parts.iter().all(|p| p.bytes().all(|b| b.is_ascii_digit()))
        && parts[1].parse::<u32>().unwrap() < 60
        && parts[2].parse::<u32>().unwrap() < 60
}

#[test]
fn header_names_the_columns() {
    assert_eq!(header(), HEADER);
    assert_eq!(COLUMNS, 18);
    assert_eq!(RACES, 14);
}

#[test]
fn catalog_lengths_and_labels() {
    let races = Race::all();
    assert_eq!(races.len(), 14);
    let lengths: Vec<u64> = races.iter().map(|r| r.length_cm()).collect();
    assert_eq!(
        lengths,
        [
            500_000, 804_672, 1_000_000, 1_500_000, 1_609_340, 2_000_000, 2_108_241, 2_414_020,
            2_500_000, 3_218_690, 4_216_481, 5_000_000, 10_000_000, 16_093_400
        ]
    );
    let labels: Vec<&str> = races.iter().map(|r| r.label()).collect();
    assert_eq!(labels, &HEADER[4..]);
    assert_eq!(races[10], Race::Marathon);
    assert_eq!(Race::Marathon.length_cm(), 4_216_481);
    assert_eq!(Race::HalfMarathon.label(), "Half");
}

#[test]
fn row_of_five_minute_pace() {
    assert_eq!(
        row(300).unwrap(),
        [
            "0:05:00", "12.000", "0:08:03", "7.456", "0:25:00", "0:40:14", "0:50:00", "1:15:00",
            "1:20:28", "1:40:00", "1:45:25", "2:00:42", "2:05:00", "2:40:56", "3:30:49",
            "4:10:00", "8:20:00", "13:24:40"
        ]
    );
}

#[test]
fn row_of_zero_pace_is_refused() {
    assert_eq!(row(0), Err(ConversionError::ZeroPace));
}

#[test]
fn rows_at_the_ends_of_the_domain_are_well_formed() {
    let fastest = row(120).unwrap();
    assert_eq!(
        fastest,
        [
            "0:02:00", "30.000", "0:03:13", "18.641", "0:10:00", "0:16:06", "0:20:00", "0:30:00",
            "0:32:11", "0:40:00", "0:42:10", "0:48:17", "0:50:00", "1:04:22", "1:24:20",
            "1:40:00", "3:20:00", "5:21:52"
        ]
    );
    let slowest = row(600).unwrap();
    assert_eq!(
        slowest,
        [
            "0:10:00", "6.000", "0:16:06", "3.728", "0:50:00", "1:20:28", "1:40:00", "2:30:00",
            "2:40:56", "3:20:00", "3:30:49", "4:01:24", "4:10:00", "5:21:52", "7:01:39",
            "8:20:00", "16:40:00", "26:49:20"
        ]
    );
    for cells in [fastest, slowest] {
        assert_eq!(cells.len(), 18);
        for (column, cell) in cells.iter().enumerate() {
            assert!(!cell.is_empty());
            if column != 1 && column != 3 {
                assert!(well_formed(cell));
            }
        }
    }
}

#[test]
fn every_row_of_the_usual_domain_is_well_formed() {
    for pace in 120..=600u32 {
        let cells = row(pace).unwrap();
        assert_eq!(cells.len(), 18);
        for (column, cell) in cells.iter().enumerate() {
            assert!(!cell.is_empty());
            assert!(!cell.contains("60:") && !cell.ends_with(":60"));
            if column != 1 && column != 3 {
                assert!(well_formed(cell));
            }
        }
    }
}

#[test]
fn row_of_the_slowest_pace_there_is() {
    let cells = row(u32::MAX).unwrap();
    assert_eq!(cells[0], "0:71582788:15");
    assert_eq!(cells[1], "0.000");
    assert_eq!(cells[17], "192001740:44:14");
}

#[test]
fn domain_refuses_a_pace_of_zero() {
    assert_eq!(
        Domain::new(0, 600, Direction::Descending).err(),
        Some(ConversionError::ZeroPace)
    );
    assert_eq!(Domain::new(0, 0, Direction::Ascending).err(), Some(ConversionError::ZeroPace));
    assert!(Domain::new(1, 1, Direction::Ascending).is_ok());
}

#[test]
fn domain_walks_down() {
    let domain = Domain::new(165, 600, Direction::Descending).unwrap();
    assert_eq!(domain.lo(), 165);
    assert_eq!(domain.hi(), 600);
    assert_eq!(domain.direction(), Direction::Descending);
    assert_eq!(domain.len(), 436);
    assert_eq!(domain.pace_at(0), Some(600));
    assert_eq!(domain.pace_at(1), Some(599));
    assert_eq!(domain.pace_at(435), Some(165));
    assert_eq!(domain.pace_at(436), None);
    assert_eq!(domain.pace_at(u64::MAX), None);
}

#[test]
fn domain_walks_up() {
    let domain = Domain::new(120, 130, Direction::Ascending).unwrap();
    assert_eq!(domain.len(), 11);
    assert_eq!(domain.pace_at(0), Some(120));
    assert_eq!(domain.pace_at(10), Some(130));
    assert_eq!(domain.pace_at(11), None);
}

#[test]
fn domain_above_its_end_is_empty() {
    let domain = Domain::new(601, 600, Direction::Descending).unwrap();
    assert_eq!(domain.len(), 0);
    assert_eq!(domain.pace_at(0), None);
    assert_eq!(table(&domain), [header()]);
}

#[test]
fn domain_of_every_pace() {
    let domain = Domain::new(1, u32::MAX, Direction::Descending).unwrap();
    assert_eq!(domain.len(), 4_294_967_295);
    assert_eq!(domain.pace_at(0), Some(u32::MAX));
    assert_eq!(domain.pace_at(4_294_967_294), Some(1));
    assert_eq!(domain.pace_at(4_294_967_295), None);
    let up = Domain::new(1, u32::MAX, Direction::Ascending).unwrap();
    assert_eq!(up.pace_at(4_294_967_294), Some(u32::MAX));
}

#[test]
fn table_of_the_usual_domain() {
    let domain = Domain::new(165, 600, Direction::Descending).unwrap();
    let rows = table(&domain);
    assert_eq!(rows.len(), 437);
    assert_eq!(rows[0], HEADER);
    let mut before = 601;
    for cells in &rows[1..] {
        assert_eq!(cells.len(), 18);
        let pace = pace_of(cells);
        assert_eq!(pace, before - 1);
        assert_eq!(*cells, row(pace).unwrap());
        before = pace;
    }
    assert_eq!(before, 165);
    assert_eq!(rows[1][0], "0:10:00");
    assert_eq!(rows[436][0], "0:02:45");
}

#[test]
fn table_walked_up() {
    let domain = Domain::new(298, 300, Direction::Ascending).unwrap();
    let rows = table(&domain);
    assert_eq!(rows.len(), 4);
    assert_eq!(rows[0], HEADER);
    assert_eq!(rows[1], row(298).unwrap());
    assert_eq!(rows[2], row(299).unwrap());
    assert_eq!(rows[3], row(300).unwrap());
}
