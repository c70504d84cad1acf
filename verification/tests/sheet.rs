use pace_table::sheet::{append_line, render, SheetError, COMMA, LINE_FEED};
use pace_table::table::{row, table, Direction, Domain};

const HEADER_LINE: &str =
    "KM Pace,KPH,Mile Pace,MPH,5k,5m,10k,15k,10m,20k,Half,15m,25k,20m,Marathon,50k,100k,100m\n";

/// The 64-bit FNV-1a hash.
fn fingerprint(bytes: &[u8]) -> u64 {
    let mut hash: u64 = 0xcbf2_9ce4_8422_2325;
    for byte in bytes {
        hash ^= *byte as u64;
        hash = hash.wrapping_mul(0x0000_0100_0000_01b3);
    }
    hash
}

#[test]
fn sheet_of_one_pace() {
    let domain = Domain::new(300, 300, Direction::Descending).unwrap();
    let text = String::from_utf8(render(&domain).unwrap()).unwrap();
    let wanted = format!(
        "{}{}",
        HEADER_LINE,
        "0:05:00,12.000,0:08:03,7.456,0:25:00,0:40:14,0:50:00,1:15:00,1:20:28,1:40:00,\
         1:45:25,2:00:42,2:05:00,2:40:56,3:30:49,4:10:00,8:20:00,13:24:40\n"
    );
    assert_eq!(text, wanted);
}

#[test]
fn sheet_of_the_usual_domain() {
    let domain = Domain::new(165, 600, Direction::Descending).unwrap();
    let text = String::from_utf8(render(&domain).unwrap()).unwrap();
    let lines: Vec<&str> = text.split_terminator('\n').collect();
    assert!(text.ends_with('\n'));
    assert_eq!(lines.len(), 437);
    assert_eq!(format!("{}\n", lines[0]), HEADER_LINE);
    let mut pace = 600;
    for line in &lines[1..] {
        let fields: Vec<&str> = line.split(',').collect();
        assert_eq!(fields.len(), 18);
        assert_eq!(fields, row(pace).unwrap());
        assert!(fields.iter().all(|f| !f.is_empty()));
        pace -= 1;
    }
    assert_eq!(pace, 164);
    assert_eq!(
        lines[1],
        "0:10:00,6.000,0:16:06,3.728,0:50:00,1:20:28,1:40:00,2:30:00,2:40:56,3:20:00,\
         3:30:49,4:01:24,4:10:00,5:21:52,7:01:39,8:20:00,16:40:00,26:49:20"
    );
    assert_eq!(
        lines[436],
        "0:02:45,21.818,0:04:26,13.557,0:13:45,0:22:08,0:27:30,0:41:15,0:44:15,0:55:00,\
         0:57:59,1:06:23,1:08:45,1:28:31,1:55:57,2:17:30,4:35:00,7:22:34"
    );
}

#[test]
fn sheets_byte_for_byte() {
    let usual = render(&Domain::new(165, 600, Direction::Descending).unwrap()).unwrap();
    assert_eq!(usual.len(), 62_001);
    assert_eq!(fingerprint(&usual), 0x96ac_3569_fb4f_0e10);
    let wide = render(&Domain::new(1, 5000, Direction::Ascending).unwrap()).unwrap();
    assert_eq!(wide.len(), 748_757);
    assert_eq!(fingerprint(&wide), 0x695b_8783_ed55_0f9c);
}

#[test]
fn sheet_is_read_back_as_written() {
    let domain = Domain::new(165, 600, Direction::Descending).unwrap();
    let bytes = render(&domain).unwrap();
    let rows = table(&domain);
    let mut reader = csv::ReaderBuilder::new().has_headers(false).from_reader(&bytes[..]);
    let mut count = 0;
    for record in reader.records() {
        let record = record.unwrap();
        assert_eq!(record.len(), 18);
        let fields: Vec<&str> = record.iter().collect();
        assert_eq!(fields, rows[count]);
        count += 1;
    }
    assert_eq!(count, 437);
}

#[test]
fn sheet_of_an_empty_domain_is_the_header() {
    let domain = Domain::new(2, 1, Direction::Ascending).unwrap();
    assert_eq!(render(&domain).unwrap(), HEADER_LINE.as_bytes());
}

#[test]
fn sheet_walked_up() {
    let domain = Domain::new(299, 300, Direction::Ascending).unwrap();
    let text = String::from_utf8(render(&domain).unwrap()).unwrap();
    let lines: Vec<&str> = text.lines().collect();
    assert_eq!(lines.len(), 3);
    assert!(lines[1].starts_with("0:04:59,12.040,"));
    assert!(lines[2].starts_with("0:05:00,12.000,"));
}

#[test]
fn append_line_puts_the_line_at_the_end() {
    let mut sheet = b"a,b\n".to_vec();
    assert_eq!(append_line(&mut sheet, Ok(b"c,d\n".to_vec())), Ok(()));
    assert_eq!(sheet, b"a,b\nc,d\n");
    assert_eq!(append_line(&mut sheet, Ok(Vec::new())), Ok(()));
    assert_eq!(sheet, b"a,b\nc,d\n");
    assert_eq!(COMMA, b',');
    assert_eq!(LINE_FEED, b'\n');
}

#[test]
fn append_line_reports_a_failed_writer() {
    let mut sheet = b"a,b\n".to_vec();
    let failure = csv::Error::from(std::io::Error::new(std::io::ErrorKind::Other, "full"));
    assert_eq!(append_line(&mut sheet, Err(failure)), Err(SheetError::Writer));
    assert_eq!(sheet, b"a,b\n");
    assert_eq!(SheetError::Writer.message(), "the record writer failed");
}
