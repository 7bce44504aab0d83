use wham::parse::is_float_token;
use wham::parse::parse_metadata_line;
use wham::parse::parse_window_line;
use wham::parse::split_columns;
use wham::parse::MetaLine;
use wham::parse::WindowLine;

#[test]
fn split_columns_basic() {
    let toks = split_columns("COLVAR+0.0.xvg  0.0 100.0");
    assert_eq!(3, toks.len());
    assert_eq!("COLVAR+0.0.xvg", toks[0]);
    assert_eq!("0.0", toks[1]);
    assert_eq!("100.0", toks[2]);
}

#[test]
fn split_columns_mixed_whitespace() {
    let toks = split_columns("\t a \t\t b\nc ");
    assert_eq!(vec!["a".to_string(), "b".to_string(), "c".to_string()], toks);
    assert_eq!(0, split_columns("").len());
    assert_eq!(0, split_columns(" \t ").len());
    assert_eq!(1, split_columns("one").len());
}

#[test]
fn split_columns_unicode_whitespace() {
    // columns split on the whole Unicode white-space set
    let toks = split_columns("a\u{a0}b\u{2003}c\u{3000}d");
    assert_eq!(
        vec!["a".to_string(), "b".to_string(), "c".to_string(), "d".to_string()],
        toks
    );
    for (line, expected) in "w.dat\u{85}-3.0\u{2028}100.0"
        .split_whitespace()
        .zip(["w.dat", "-3.0", "100.0"])
    {
        assert_eq!(expected, line);
    }
    let toks = split_columns("w.dat\u{85}-3.0\u{2028}100.0");
    assert_eq!(
        vec!["w.dat".to_string(), "-3.0".to_string(), "100.0".to_string()],
        toks
    );
}

#[test]
fn float_tokens_agree_with_double_parsing() {
    // the checker must accept exactly what reading a double accepts
    let samples = [
        "1", "4", "921", "-3.0", "3.0", "+2.5", "3.14", "-3.14", "0.0", ".5", "5.", "1e5",
        "1E5", "-1.25e-3", "+1.25E+3", "inf", "-inf", "Infinity", "nan", "NaN", "-NAN", "1e999",
        "", ".", "-", "+", "e5", "1e", "1e+", "1.2.3", "abc", "--1", "1 2", "0x10", "1_000",
        "infx", "nanf", "1.5f", " 1", "1 ", "+.5e-7", "-.e5", "12345678901234567890", "1.e5",
        ".e5", "+infinity", "InFiNiTy", "in",
    ];
    for t in samples {
        assert_eq!(
            t.parse::<f64>().is_ok(),
            is_float_token(t),
            "disagreement on {:?}",
            t
        );
    }
}

#[test]
fn metadata_record_parsed() {
    let r = parse_metadata_line("window_0.dat -3.0 100.0", 1, 1).unwrap();
    match r {
        MetaLine::Record { path, bias_pos, bias_fc } => {
            assert_eq!("window_0.dat", path);
            assert_eq!(vec!["-3.0".to_string()], bias_pos);
            assert_eq!(vec!["100.0".to_string()], bias_fc);
        },
        MetaLine::Skip => panic!("expected a record"),
    }
}

#[test]
fn metadata_two_dimensional_record() {
    let r = parse_metadata_line("w.dat -3.0 2.5 100.0 80.0 extra", 2, 4).unwrap();
    match r {
        MetaLine::Record { path, bias_pos, bias_fc } => {
            assert_eq!("w.dat", path);
            assert_eq!(vec!["-3.0".to_string(), "2.5".to_string()], bias_pos);
            assert_eq!(vec!["100.0".to_string(), "80.0".to_string()], bias_fc);
        },
        MetaLine::Skip => panic!("expected a record"),
    }
}

#[test]
fn metadata_comments_and_empty_lines_skipped() {
    assert!(matches!(parse_metadata_line("# a comment", 1, 1), Ok(MetaLine::Skip)));
    assert!(matches!(parse_metadata_line("", 1, 2), Ok(MetaLine::Skip)));
    // a whitespace-only line is not skipped: it has too few columns
    let r = parse_metadata_line("   ", 1, 3);
    let msg = r.unwrap_err().message();
    assert!(msg.contains("Wrong number of columns in line 3 of metadata file"));
}

#[test]
fn cli_unparseable_bias_pos() {
    let r = parse_metadata_line("window_0.dat notanumber 100.0", 1, 1);
    let msg = r.unwrap_err().message();
    assert!(msg.contains("Failed to read bias position in line 1"));
}

#[test]
fn cli_unparseable_bias_fc() {
    let r = parse_metadata_line("window_0.dat -3.0 xyz", 1, 1);
    let msg = r.unwrap_err().message();
    assert!(msg.contains("Failed to read bias fc in line 1"));
}

#[test]
fn cli_unparseable_timeseries() {
    let r = parse_window_line("0.0 broken\n", 1, 17, "window_0.dat");
    let msg = r.unwrap_err().message();
    assert!(msg.contains("Failed to parse line"));
    assert!(msg.contains("17 of window file window_0.dat"));
}

#[test]
fn cli_unparseable_timeseries_empty() {
    let r = parse_window_line("\n", 1, 3, "window_0.dat");
    let msg = r.unwrap_err().message();
    assert!(msg.contains("Wrong number of columns in line"));
    assert!(msg.contains("3 of window file window_0.dat"));
}

#[test]
fn window_record_parsed() {
    let r = parse_window_line("0.0000 -0.153145 12.5\n", 1, 1, "w.dat").unwrap();
    match r {
        WindowLine::Values(values) => {
            // only the time and one coordinate column are kept
            assert_eq!(vec!["0.0000".to_string(), "-0.153145".to_string()], values);
        },
        WindowLine::Skip => panic!("expected values"),
    }
}

#[test]
fn window_comments_and_directives_skipped() {
    assert!(matches!(parse_window_line("# t x\n", 1, 1, "w"), Ok(WindowLine::Skip)));
    assert!(matches!(parse_window_line("@ xvg directive\n", 1, 2, "w"), Ok(WindowLine::Skip)));
    assert!(matches!(parse_window_line("", 1, 3, "w"), Ok(WindowLine::Skip)));
}
