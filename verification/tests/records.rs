use wham::records::read_metadata;
use wham::records::read_window_records;

fn lines(text: &[&str]) -> Vec<String> {
    text.iter().map(|s| s.to_string()).collect()
}

#[test]
fn metadata_file_collects_records_in_order() {
    let input = lines(&[
        "# window  position  force constant",
        "",
        "COLVAR-2.5.xvg -2.5 100.0",
        "COLVAR+0.0.xvg  0.0 100.0",
        "# trailing comment",
        "COLVAR+2.5.xvg  2.5 100.0",
    ]);
    let records = read_metadata(&input, 1).unwrap();
    assert_eq!(3, records.len());
    assert_eq!("COLVAR-2.5.xvg", records[0].path);
    assert_eq!(vec!["-2.5".to_string()], records[0].bias_pos);
    assert_eq!(vec!["100.0".to_string()], records[0].bias_fc);
    assert_eq!("COLVAR+2.5.xvg", records[2].path);
    assert_eq!(vec!["2.5".to_string()], records[2].bias_pos);
}

#[test]
fn metadata_file_reports_first_bad_line() {
    let input = lines(&[
        "# header",
        "w0.dat 0.0 100.0",
        "w1.dat oops 100.0",
        "w2.dat also-bad",
    ]);
    let msg = read_metadata(&input, 1).unwrap_err().message();
    assert_eq!("Failed to read bias position in line 3 of metadata file", msg);
}

#[test]
fn metadata_file_counts_skipped_lines() {
    let input = lines(&["# one", "# two", "w0.dat 0.0"]);
    let msg = read_metadata(&input, 1).unwrap_err().message();
    assert_eq!(
        "Wrong number of columns in line 3 of metadata file. Empty Line?",
        msg
    );
}

#[test]
fn window_file_collects_samples() {
    let input = lines(&[
        "@ xvg legend",
        "# created by a simulation",
        "0.0000 -0.153145",
        "0.0200 -0.377860 99.9",
        "0.0400  0.010992",
    ]);
    let rows = read_window_records(&input, 1, "COLVAR+0.0.xvg").unwrap();
    assert_eq!(3, rows.len());
    assert_eq!(vec!["0.0000".to_string(), "-0.153145".to_string()], rows[0]);
    // extra columns beyond time and the coordinates are dropped
    assert_eq!(vec!["0.0200".to_string(), "-0.377860".to_string()], rows[1]);
}

#[test]
fn window_file_reports_bad_columns_with_path() {
    let input = lines(&["0.0 1.0", "0.1"]);
    let msg = read_window_records(&input, 1, "w0.dat").unwrap_err().message();
    assert_eq!("Wrong number of columns in line 2 of window file w0.dat. Empty Line?.", msg);

    let input = lines(&["0.0 broken"]);
    let msg = read_window_records(&input, 1, "w0.dat").unwrap_err().message();
    assert_eq!("Failed to parse line 1 of window file w0.dat.", msg);
}
