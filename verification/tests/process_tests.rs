use csv_converter::config::Condition;
use csv_converter::config::Item;
use csv_converter::config::OutputConfig;
use csv_converter::csv::rows_from_text;
use csv_converter::errors::EvalError;
use csv_converter::filter::Filter;
use csv_converter::process;

fn cfg(text: &str) -> OutputConfig {
    OutputConfig::new(rows_from_text(text)).unwrap().0
}

#[test]
fn run_cell_test() {
    assert_eq!(
        process::run(
            &vec![String::from("A"), String::from("B"), String::from("C")],
            &cfg("A,B,C\n<cell1>,<cell3>,<cell2>\n"),
        )
        .unwrap(),
        vec![vec![String::from("A"), String::from("C"), String::from("B")]]
    );
}

#[test]
fn run_value_test() {
    assert_eq!(
        process::run(
            &vec![String::from("A"), String::from("B"), String::from("C")],
            &OutputConfig {
                heading: String::new(),
                lines: vec![vec![
                    Item::Value(String::from("NEW")),
                    Item::Cell(2, None),
                    Item::Cell(1, None)
                ]],
            },
        )
        .unwrap(),
        vec![vec![String::from("NEW"), String::from("C"), String::from("B")]]
    );
}

#[test]
fn run_multiple_lines_test() {
    assert_eq!(
        process::run(
            &vec![String::from("A"), String::from("B"), String::from("C")],
            &OutputConfig {
                heading: String::new(),
                lines: vec![
                    vec![Item::Cell(0, None), Item::Cell(2, None), Item::Cell(1, None)],
                    vec![Item::Cell(0, None), Item::Cell(1, None), Item::Cell(2, None)],
                ],
            },
        )
        .unwrap(),
        vec![
            vec![String::from("A"), String::from("C"), String::from("B")],
            vec![String::from("A"), String::from("B"), String::from("C")],
        ]
    );
}

#[test]
fn run_everything_test() {
    assert_eq!(
        process::run(
            &vec![String::from("A"), String::from("B"), String::from("C")],
            &OutputConfig {
                heading: String::new(),
                lines: vec![
                    vec![Item::Cell(0, None), Item::Cell(2, None), Item::Cell(1, None)],
                    vec![
                        Item::Cell(2, None),
                        Item::Value(String::from("MERGE")),
                        Item::Cell(2, None)
                    ],
                    vec![
                        Item::Cell(1, None),
                        Item::Cell(0, None),
                        Item::Value(String::from("NEW"))
                    ],
                ],
            },
        )
        .unwrap(),
        vec![
            vec![String::from("A"), String::from("C"), String::from("B")],
            vec![String::from("C"), String::from("MERGE"), String::from("C")],
            vec![String::from("B"), String::from("A"), String::from("NEW")],
        ]
    );
}

#[test]
fn skip_line_test() {
    assert_eq!(
        process::run(
            &vec![
                String::from("A"),
                String::from("B"),
                String::from("C"),
                String::from("D")
            ],
            &cfg("Column A,Column B,Column C\n<cell1>,MERGE,<cell2>\n<cell1>,NEW,:IF <cell3> == 'D' ('SKIP_LINE') ELSE (<cell3>)\n<cell1>,NEW,:IF <cell4> == 'D' ('SKIP_LINE') ELSE (<cell4>)\n"),
        )
        .unwrap(),
        vec![
            vec![String::from("A"), String::from("MERGE"), String::from("B")],
            vec![String::from("A"), String::from("NEW"), String::from("C")],
        ]
    );
}

#[test]
fn skip_line_value_cell_test() {
    // A plain template cell that resolves to the sentinel suppresses its
    // own row; the other templates still appear.
    assert_eq!(
        process::run(
            &vec![String::from("SKIP_LINE"), String::from("B")],
            &OutputConfig {
                heading: String::new(),
                lines: vec![
                    vec![Item::Value(String::from("first")), Item::Cell(1, None)],
                    vec![Item::Cell(0, None), Item::Cell(1, None)],
                    vec![Item::Value(String::from("last"))],
                ],
            },
        )
        .unwrap(),
        vec![
            vec![String::from("first"), String::from("B")],
            vec![String::from("last")],
        ]
    );
}

#[test]
fn run_cell_out_of_range_test() {
    assert_eq!(
        process::run(
            &vec![String::from("A")],
            &OutputConfig { heading: String::new(), lines: vec![vec![Item::Cell(7, None)]] },
        ),
        Err(EvalError::CellNotFound(7))
    );
}

#[test]
fn end_to_end_scenario_test() {
    // Heading and one template with a filtered cell and a literal.
    let config = cfg("H1,H2\n<cell1 UPPER_CASE>,X\n");
    assert_eq!(config.heading, String::from("H1,H2"));
    assert_eq!(
        config.lines,
        vec![vec![
            Item::Cell(0, Some(vec![Filter::UpperCase])),
            Item::Value(String::from("X"))
        ]]
    );
    assert_eq!(
        process::run(&vec![String::from("hello"), String::from("ignored")], &config).unwrap(),
        vec![vec![String::from("HELLO"), String::from("X")]]
    );
}

#[test]
fn run_conditional_template_test() {
    let config = OutputConfig {
        heading: String::new(),
        lines: vec![vec![Item::If(
            Condition::IsEmpty(Box::new(Item::Cell(0, None))),
            Box::new(Item::Value(String::from("empty"))),
            Some(Box::new(Item::Value(String::from("full")))),
        )]],
    };
    assert_eq!(
        process::run(&vec![String::from("")], &config).unwrap(),
        vec![vec![String::from("empty")]]
    );
    assert_eq!(
        process::run(&vec![String::from("x")], &config).unwrap(),
        vec![vec![String::from("full")]]
    );
}
