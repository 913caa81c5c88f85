use csv_converter::csv::export;
use csv_converter::csv::quote_csv_cell;
use csv_converter::csv::rows_from_text;
use csv_converter::csv::CsvParser;

#[test]
fn quote_csv_cell_test() {
    let mut output = String::from("");
    quote_csv_cell("test", &mut output);
    assert_eq!(output, String::from("test"));
    output.clear();
    quote_csv_cell("test,", &mut output);
    assert_eq!(output, String::from("\"test,\""));
    output.clear();
    quote_csv_cell("test\"", &mut output);
    assert_eq!(output, String::from("\"test\"\"\""));
    output.clear();
    quote_csv_cell("test\ntest", &mut output);
    assert_eq!(output, String::from("\"test\ntest\""));
}

#[test]
fn rows_from_text_test() {
    assert_eq!(
        rows_from_text("Name,Address\nAlice,17 Rabbit Hole Rd\n"),
        vec![
            vec![String::from("Name"), String::from("Address")],
            vec![String::from("Alice"), String::from("17 Rabbit Hole Rd")],
        ]
    );
    // A quoted field may hold commas, doubled quotes and line breaks.
    assert_eq!(
        rows_from_text("a,\"b,\"\"c\"\"\nd\",e\n"),
        vec![vec![
            String::from("a"),
            String::from("b,\"c\"\nd"),
            String::from("e")
        ]]
    );
    // A final row without a line break still counts.
    assert_eq!(
        rows_from_text("a,b"),
        vec![vec![String::from("a"), String::from("b")]]
    );
    assert_eq!(rows_from_text(""), Vec::<Vec<String>>::new());
}

#[test]
fn feed_line_test() {
    let mut parser = CsvParser::new();
    assert!(!parser.feed_line("a,\"open\n"));
    assert!(parser.feed_line("closed\",b\n"));
    assert_eq!(
        parser.parse_csv_line(),
        vec![
            String::from("a"),
            String::from("open\nclosed"),
            String::from("b")
        ]
    );
    assert!(parser.bytes_read() > 0);
    parser.clear();
    assert!(parser.buffer_is_empty());
}

#[test]
fn export_test() {
    let mut output = String::new();
    export(
        &vec![vec![
            String::from("Name"),
            String::from("Address"),
            String::from("Note"),
            String::from("HTML"),
        ]],
        &mut output,
    );
    assert_eq!(output, String::from("Name,Address,Note,HTML\n"));

    export(
        &vec![vec![
            String::from("Bob Builder"),
            String::from("99 Fixit Ave"),
            String::from("Can he fix it? Yes, he can!"),
            String::from("<img src=\"toolbox.jpg\" alt=\"Toolbox\"/>"),
        ]],
        &mut output,
    );
    assert_eq!(
        output,
        String::from(
            "Bob Builder,99 Fixit Ave,\"Can he fix it? Yes, he can!\",\"<img src=\"\"toolbox.jpg\"\" alt=\"\"Toolbox\"\"/>\"\n"
        )
    );
}

#[test]
fn export_round_trip_test() {
    let rows = vec![
        vec![String::from("plain"), String::from("with,comma")],
        vec![String::from("with\"quote"), String::from("with\nnewline")],
    ];
    let mut text = String::new();
    export(&rows, &mut text);
    assert_eq!(rows_from_text(&text), rows);
}
