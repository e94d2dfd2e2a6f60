use fbc_host::gui::pattern_converter::pin_extractor::{
    classify_column, csv_records_table, detect_delimiter, detect_format, detect_table_header, extract_from_csv_text,
    extract_from_pdf_text, extract_signal_name, is_signal_like, normalize_direction, parse_string_rows_into_table,
    parse_table_row, simple_pin_signal_match, split_first_number, ColRole,
};
use fbc_host::gui::pattern_converter::pin_extractor::{
    cell_text, excel_rows_table, extract_from_pdf_extraction, extract_from_workbook, SheetCell, WorkbookRead,
};

fn row(cells: &[&str]) -> Vec<String> {
    cells.iter().map(|c| c.to_string()).collect()
}

fn chars(s: &str) -> Vec<char> {
    s.chars().collect()
}

#[test]
fn column_roles_from_headers() {
    assert_eq!(classify_column(" Signal "), ColRole::Signal);
    assert_eq!(classify_column("GPIO"), ColRole::Channel);
    assert_eq!(classify_column("Bank"), ColRole::Group);
    assert_eq!(classify_column("io_voltage"), ColRole::Voltage);
    assert_eq!(classify_column("Core_Name"), ColRole::CoreName);
    assert_eq!(classify_column("seq"), ColRole::Sequence);
    assert_eq!(classify_column("RAMP_MS"), ColRole::RampDelay);
    assert_eq!(classify_column("Pin_Type"), ColRole::Direction);
    assert_eq!(classify_column("comment"), ColRole::Unknown);
}

#[test]
fn delimiters() {
    assert_eq!(detect_delimiter("a,b,c"), b',');
    assert_eq!(detect_delimiter("a\tb"), b'\t');
    assert_eq!(detect_delimiter("a;b;c,d"), b';');
    assert_eq!(detect_delimiter("abc"), b',');
    assert_eq!(detect_delimiter("a,b\tc"), b'\t');
    assert_eq!(detect_delimiter("a;b,c"), b',');
}

#[test]
fn directions() {
    assert_eq!(normalize_direction(" IN "), "Input");
    assert_eq!(normalize_direction("2"), "Output");
    assert_eq!(normalize_direction("InOut"), "IO");
    assert_eq!(normalize_direction("foo"), "IO");
    assert_eq!(normalize_direction("o"), "Output");
}

#[test]
fn formats_by_extension() {
    assert_eq!(detect_format("x/dev.CSV"), Ok("csv".to_string()));
    assert_eq!(detect_format("a.tsv"), Ok("csv".to_string()));
    assert_eq!(detect_format("a.xlsx"), Ok("xlsx".to_string()));
    assert_eq!(detect_format("b.Pdf"), Ok("pdf".to_string()));
    assert_eq!(detect_format("c.doc"), Err("Unsupported file format: .doc".to_string()));
    assert_eq!(detect_format("noext"), Err("Unsupported file format: .".to_string()));
}

#[test]
fn rows_with_header_and_warnings() {
    let rows = vec![
        row(&["Signal", "Channel", "Dir", "Voltage", "Group"]),
        row(&["CLK", "0", "in", "1.8V", "B13"]),
        row(&["DATA", "x", "out", "", ""]),
        row(&["", "", "", "", ""]),
        row(&["Supplies"]),
        row(&["RST", " 5 ", "", "3.3", " "]),
    ];
    let t = parse_string_rows_into_table(&rows, "xlsx", "/tmp/dev.xlsx").unwrap();
    assert_eq!(t.device_name, "dev");
    assert_eq!(t.source_format, "xlsx");
    assert_eq!(t.channels.len(), 2);
    assert_eq!(t.channels[0].signal_name, "CLK");
    assert_eq!(t.channels[0].channel, 0);
    assert_eq!(t.channels[0].direction, "Input");
    assert_eq!(t.channels[0].voltage, Some("1.8V".to_string()));
    assert_eq!(t.channels[0].group, Some("B13".to_string()));
    assert_eq!(t.channels[1].signal_name, "RST");
    assert_eq!(t.channels[1].channel, 5);
    assert_eq!(t.channels[1].direction, "IO");
    assert_eq!(t.channels[1].group, None);
    assert_eq!(t.warnings, vec!["Row 3: no channel for 'DATA'".to_string()]);
    assert!(t.supplies.is_empty());
}

#[test]
fn rows_with_supplies_only() {
    let rows = vec![
        row(&["core", "voltage", "sequence", "ramp"]),
        row(&["CORE1", "0.9", "2", "5"]),
        row(&["core2", "1.0", "", ""]),
        row(&["other", "1.0", "", ""]),
    ];
    let t = parse_string_rows_into_table(&rows, "xlsx", "plan.xlsx").unwrap();
    assert!(t.channels.is_empty());
    assert_eq!(t.supplies.len(), 2);
    assert_eq!(t.supplies[0].core_name, "CORE1");
    assert_eq!(t.supplies[0].voltage, Some("0.9".to_string()));
    assert_eq!(t.supplies[0].sequence_order, 2);
    assert_eq!(t.supplies[0].ramp_delay_ms, Some("5".to_string()));
    assert_eq!(t.supplies[1].sequence_order, 1);
}

#[test]
fn rows_without_header_are_positional() {
    let rows = vec![row(&["A", "1", "out"]), row(&["B", "2", "in"]), row(&["C", "3"])];
    let t = parse_string_rows_into_table(&rows, "xlsx", "x.xlsx").unwrap();
    // Row 0 is taken as the header.
    assert_eq!(t.channels.len(), 2);
    assert_eq!(t.channels[0].signal_name, "B");
    assert_eq!(t.channels[0].direction, "Input");
    assert_eq!(t.channels[1].signal_name, "C");
    assert_eq!(t.channels[1].direction, "IO");
}

#[test]
fn rows_errors() {
    let empty: Vec<Vec<String>> = Vec::new();
    assert_eq!(parse_string_rows_into_table(&empty, "xlsx", "a.xlsx").unwrap_err(), "No data rows");
    let rows = vec![row(&["Signal", "Channel"]), row(&["A", "-1"])];
    assert_eq!(
        parse_string_rows_into_table(&rows, "xlsx", "a.xlsx").unwrap_err(),
        "No pin data found in xlsx. Check column headers."
    );
}

#[test]
fn csv_text_tables() {
    let t = extract_from_csv_text("Signal,Channel\nA,1\nB,x\n", "p/board.csv").unwrap();
    assert_eq!(t.device_name, "board");
    assert_eq!(t.source_format, "csv");
    assert_eq!(t.channels.len(), 1);
    assert_eq!(t.channels[0].signal_name, "A");
    assert_eq!(t.warnings, vec!["Row 3: no channel number for signal 'B'".to_string()]);
    let s = extract_from_csv_text("\nSignal;GPIO\nX;3\n", "b.csv").unwrap();
    assert_eq!(s.channels.len(), 1);
    assert_eq!(s.channels[0].channel, 3);
    assert_eq!(extract_from_csv_text("", "a.csv").unwrap_err(), "Empty CSV file");
    assert_eq!(
        extract_from_csv_text("Signal,Channel\n", "a.csv").unwrap_err(),
        "No pin data found in CSV. Check column headers."
    );
    assert_eq!(csv_records_table(&vec![None], "a.csv").unwrap_err(), "No records in CSV");
}

#[test]
fn table_headers_and_rows() {
    let p = detect_table_header("Pin Name Type").unwrap();
    assert_eq!(p.pin_field, Some(0));
    assert_eq!(p.signal_field, Some(1));
    assert_eq!(p.direction_field, Some(2));
    assert_eq!(p.voltage_field, None);
    assert_eq!(p.total_fields, 3);
    assert!(detect_table_header("hello world").is_none());
    assert!(detect_table_header("Pin").is_none());
    assert!(detect_table_header("Type Level").is_none());

    let c = parse_table_row("12 CLK IN", &p).unwrap();
    assert_eq!(c.signal_name, "CLK");
    assert_eq!(c.channel, 12);
    assert_eq!(c.direction, "Input");
    assert!(parse_table_row("12", &p).is_none());
    assert!(parse_table_row("a b c d e f g", &p).is_none());
    let q = detect_table_header("Pin Type").unwrap();
    let d = parse_table_row("7 out", &q).unwrap();
    assert_eq!(d.signal_name, "PIN_7");
    assert_eq!(d.direction, "Output");
    assert!(parse_table_row("x out", &q).is_none());
}

#[test]
fn pin_signal_pairs() {
    assert_eq!(simple_pin_signal_match("Pin 14 CLK_IN"), Some((14, "CLK_IN".to_string())));
    assert_eq!(simple_pin_signal_match("14 DQ0"), Some((14, "DQ0".to_string())));
    assert_eq!(simple_pin_signal_match("300 DQ0"), None);
    assert_eq!(simple_pin_signal_match("Pin 3 : RESET"), Some((3, "RESET".to_string())));
    assert_eq!(simple_pin_signal_match("PIN 7 nCS"), Some((7, "nCS".to_string())));
    assert_eq!(simple_pin_signal_match("GPIO_0 (Pin 14)"), Some((14, "GPIO_0".to_string())));
    assert_eq!(simple_pin_signal_match("  _RST (pin   9)  "), Some((9, "_RST".to_string())));
    assert_eq!(simple_pin_signal_match("GPIO_0 (Pin 14"), None);
    assert_eq!(simple_pin_signal_match("GPIO_0 (Pin x)"), None);
    assert_eq!(simple_pin_signal_match("14 D"), None);
    assert_eq!(simple_pin_signal_match("no numbers"), None);
    assert_eq!(split_first_number(&chars(" 42 rest ")), Some((chars("42"), chars("rest"))));
    assert_eq!(split_first_number(&chars("x42")), None);
    assert_eq!(extract_signal_name(&chars(" -:CLK more")), chars("CLK"));
    assert_eq!(extract_signal_name(&chars("9abc")), chars(""));
    assert!(is_signal_like(&chars("DQ_0")));
    assert!(!is_signal_like(&chars("D")));
    assert!(!is_signal_like(&chars("0DQ")));
    assert!(!is_signal_like(&chars("DQ-0")));
}

#[test]
fn pdf_text_with_a_table() {
    let text = "Datasheet\nPin Name Type\n1 CLK in\n2 DATA out\n3 RST in\nThis is a long paragraph line with many words\n4 LATE in\n";
    let t = extract_from_pdf_text(text, "/docs/chip.pdf").unwrap();
    assert_eq!(t.device_name, "chip");
    assert_eq!(t.source_format, "pdf");
    assert_eq!(t.channels.len(), 3);
    assert_eq!(t.channels[2].signal_name, "RST");
    assert_eq!(t.warnings, vec!["PDF extraction found 3 pins. Verify and edit before generating.".to_string()]);
}

#[test]
fn pdf_text_with_scattered_pins() {
    let t = extract_from_pdf_text("Pin 5 CLK\n3 DATA0\nPin 5 OTHER\n", "x.pdf").unwrap();
    assert_eq!(t.channels.len(), 2);
    assert_eq!(t.channels[0].channel, 3);
    assert_eq!(t.channels[0].signal_name, "DATA0");
    assert_eq!(t.channels[1].channel, 5);
    assert_eq!(t.channels[1].signal_name, "CLK");
    assert_eq!(t.channels[1].direction, "IO");
    assert_eq!(
        t.warnings,
        vec![
            "No pin table found. Trying pattern extraction...".to_string(),
            "PDF extraction found 2 pins. Verify and edit before generating.".to_string()
        ]
    );
    assert_eq!(
        extract_from_pdf_text("   \n", "x.pdf").unwrap_err(),
        "PDF contains no extractable text (may be scanned/raster)"
    );
    assert_eq!(
        extract_from_pdf_text("hello", "x.pdf").unwrap_err(),
        "Could not extract pin data from PDF. Try CSV or Excel instead."
    );
}

#[test]
fn scattered_pins_in_both_forms() {
    let t = extract_from_pdf_text("GPIO_0 (Pin 14)\nPin 3 DQ0\n", "board.pdf").unwrap();
    assert_eq!(t.channels.len(), 2);
    assert_eq!(t.channels[0].signal_name, "DQ0");
    assert_eq!(t.channels[0].channel, 3);
    assert_eq!(t.channels[1].signal_name, "GPIO_0");
    assert_eq!(t.channels[1].channel, 14);
    assert_eq!(t.channels[1].direction, "IO");
    assert!(t.channels[1].voltage.is_none());
    assert!(t.channels[1].group.is_none());
}

#[test]
fn excel_rows_become_a_table() {
    assert_eq!(excel_rows_table(&vec![], "/data/board.xlsx").unwrap_err(), "Empty Excel sheet");
    let rows = vec![row(&["Signal", "Channel", "Direction"]), row(&["CLK", "3", "in"]), row(&["DQ0", "4", "out"])];
    let t = excel_rows_table(&rows, "/data/board.xlsx").unwrap();
    assert_eq!(t.device_name, "board");
    assert_eq!(t.source_format, "xlsx");
    assert_eq!(t.channels.len(), 2);
    assert_eq!(t.channels[0].signal_name, "CLK");
    assert_eq!(t.channels[0].channel, 3);
    assert_eq!(t.channels[1].direction, "Output");
    let none = vec![row(&["Signal", "Channel"]), row(&["", ""])];
    assert_eq!(
        excel_rows_table(&none, "b.xlsx").unwrap_err(),
        "No pin data found in xlsx. Check column headers."
    );
}

#[test]
fn workbook_reads_become_tables() {
    assert_eq!(
        extract_from_workbook(&WorkbookRead::OpenFailed("bad zip".into()), "x.xlsx").unwrap_err(),
        "Failed to open Excel file: bad zip"
    );
    assert_eq!(extract_from_workbook(&WorkbookRead::NoSheets, "x.xlsx").unwrap_err(), "Excel file has no sheets");
    assert_eq!(
        extract_from_workbook(&WorkbookRead::SheetFailed("Pins".into(), "oops".into()), "x.xlsx").unwrap_err(),
        "Failed to read sheet 'Pins': oops"
    );
    assert_eq!(extract_from_workbook(&WorkbookRead::Rows(vec![]), "x.xlsx").unwrap_err(), "Empty Excel sheet");
    let rows = vec![
        vec![SheetCell::Text("Signal".into()), SheetCell::Text("Channel".into()), SheetCell::Text("Dir".into())],
        vec![SheetCell::Text("CLK".into()), SheetCell::Float(Some(3), "3".into()), SheetCell::Text("in".into())],
        vec![SheetCell::Text("DQ0".into()), SheetCell::Int(4), SheetCell::Empty],
    ];
    let t = extract_from_workbook(&WorkbookRead::Rows(rows), "/d/board.xlsx").unwrap();
    assert_eq!(t.device_name, "board");
    assert_eq!(t.source_format, "xlsx");
    assert_eq!(t.channels.len(), 2);
    assert_eq!((t.channels[0].signal_name.as_str(), t.channels[0].channel), ("CLK", 3));
    assert_eq!(t.channels[0].direction, "Input");
    assert_eq!((t.channels[1].signal_name.as_str(), t.channels[1].channel), ("DQ0", 4));
}

#[test]
fn sheet_cell_text() {
    assert_eq!(cell_text(&SheetCell::Text("A b".into())), "A b");
    assert_eq!(cell_text(&SheetCell::Int(-42)), "-42");
    assert_eq!(cell_text(&SheetCell::Int(i64::MIN)), "-9223372036854775808");
    assert_eq!(cell_text(&SheetCell::Float(Some(0), "-0".into())), "0");
    assert_eq!(cell_text(&SheetCell::Float(Some(i64::MAX), "9223372036854775808".into())), "9223372036854775807");
    assert_eq!(cell_text(&SheetCell::Float(None, "1.5".into())), "1.5");
    assert_eq!(cell_text(&SheetCell::Bool(true)), "true");
    assert_eq!(cell_text(&SheetCell::Bool(false)), "false");
    assert_eq!(cell_text(&SheetCell::DateTime), "");
    assert_eq!(cell_text(&SheetCell::DateTimeIso("2024-01-01".into())), "");
    assert_eq!(cell_text(&SheetCell::DurationIso("PT1H".into())), "");
    assert_eq!(cell_text(&SheetCell::Error), "");
    assert_eq!(cell_text(&SheetCell::Empty), "");
}

#[test]
fn pdf_extraction_outcomes() {
    assert_eq!(
        extract_from_pdf_extraction(&Err("invalid file header".into()), "a.pdf").unwrap_err(),
        "Failed to extract PDF text: invalid file header"
    );
    let t = extract_from_pdf_extraction(&Ok("Pin 3 DQ0\n".into()), "a.pdf").unwrap();
    assert_eq!(t.channels.len(), 1);
    assert_eq!(t.channels[0].signal_name, "DQ0");
}

#[test]
fn csv_without_header_starts_at_row_zero() {
    let t = extract_from_csv_text("CLK,0\nDATA,1\n", "/tmp/dev.csv").unwrap();
    assert_eq!(t.device_name, "dev");
    assert_eq!(t.source_format, "csv");
    assert_eq!(t.channels.len(), 2);
    assert_eq!((t.channels[0].signal_name.as_str(), t.channels[0].channel), ("CLK", 0));
    assert_eq!((t.channels[1].signal_name.as_str(), t.channels[1].channel), ("DATA", 1));
    assert_eq!(t.channels[0].direction, "IO");
    assert_eq!(t.channels[1].direction, "IO");
    assert!(t.supplies.is_empty());
    assert!(t.warnings.is_empty());
    // A first row whose channel cell is text is still a header.
    let h = extract_from_csv_text("alpha,beta\nCLK,0\nDATA,1\n", "x.csv").unwrap();
    assert_eq!(h.channels.len(), 2);
    assert_eq!(h.channels[0].signal_name, "CLK");
}
