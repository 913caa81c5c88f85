use csv_converter::config::Condition;
use csv_converter::config::Item;
use csv_converter::config::OutputConfig;
use csv_converter::csv::rows_from_text;
use csv_converter::filter::Filter;
use csv_converter::num::Number;

fn cfg(text: &str) -> OutputConfig {
    OutputConfig::new(rows_from_text(text)).unwrap().0
}

fn num(s: &str) -> Number {
    Number::from_decimal_str(s).unwrap()
}

#[test]
fn new_test() {
    assert_eq!(
        cfg("heading1,heading2,heading3\n<cell1>,<cell2>,<cell3>\n"),
        OutputConfig {
            heading: String::from("heading1,heading2,heading3"),
            lines: vec![vec![Item::Cell(0, None), Item::Cell(1, None), Item::Cell(2, None),]],
        }
    );

    assert_eq!(
        cfg("h1,h2,h3,h4\n<cell1>,,hardcoded,:IF <cell1> IS_EMPTY ('foo')\n"),
        OutputConfig {
            heading: String::from("h1,h2,h3,h4"),
            lines: vec![vec![
                Item::Cell(0, None),
                Item::Value(String::from("")),
                Item::Value(String::from("hardcoded")),
                Item::If(
                    Condition::IsEmpty(Box::new(Item::Cell(0, None))),
                    Box::new(Item::Value(String::from("foo"))),
                    None
                ),
            ]],
        }
    );
}

#[test]
fn filter_test() {
    assert_eq!(
        cfg("H1,H2,H3\n<cell1 LENGTH>,<cell2 UPPER_CASE LOWER_CASE REPLACE|' '|'-' SPLIT|'-'|3 APPEND|'end'>,<cell3>\n"),
        OutputConfig {
            heading: String::from("H1,H2,H3"),
            lines: vec![vec![
                Item::Cell(0, Some(vec![Filter::Length])),
                Item::Cell(
                    1,
                    Some(vec![
                        Filter::UpperCase,
                        Filter::LowerCase,
                        Filter::Replace(String::from(" "), String::from("-")),
                        Filter::Split(String::from("-"), 3),
                        Filter::Append(String::from("end")),
                    ])
                ),
                Item::Cell(2, None),
            ]],
        }
    );
}

#[test]
fn upper_case_test() {
    assert_eq!(
        cfg("H1\n<cell1 UPPER_CASE>\n"),
        OutputConfig {
            heading: String::from("H1"),
            lines: vec![vec![Item::Cell(0, Some(vec![Filter::UpperCase,])),]],
        }
    );

    assert_eq!(Filter::UpperCase.run("test"), String::from("TEST"));
    assert_eq!(Filter::UpperCase.run("TEST"), String::from("TEST"));
    assert_eq!(Filter::UpperCase.run("TeSt \u{1f62c}"), String::from("TEST \u{1f62c}"));
}

#[test]
fn lower_case_test() {
    assert_eq!(
        cfg("H1\n<cell1 LOWER_CASE>\n"),
        OutputConfig {
            heading: String::from("H1"),
            lines: vec![vec![Item::Cell(0, Some(vec![Filter::LowerCase,])),]],
        }
    );

    assert_eq!(Filter::LowerCase.run("test"), String::from("test"));
    assert_eq!(Filter::LowerCase.run("TEST"), String::from("test"));
    assert_eq!(Filter::LowerCase.run("TeSt \u{1f62c}"), String::from("test \u{1f62c}"));
}

#[test]
fn length_test() {
    assert_eq!(
        cfg("H1\n<cell1 LENGTH>\n"),
        OutputConfig {
            heading: String::from("H1"),
            lines: vec![vec![Item::Cell(0, Some(vec![Filter::Length,])),]],
        }
    );

    assert_eq!(Filter::Length.run("test"), String::from("4"));
    assert_eq!(Filter::Length.run("123456789 "), String::from("10"));
}

#[test]
fn trim_test() {
    assert_eq!(
        cfg("H1\n<cell1 TRIM>\n"),
        OutputConfig {
            heading: String::from("H1"),
            lines: vec![vec![Item::Cell(0, Some(vec![Filter::Trim,])),]],
        }
    );

    assert_eq!(Filter::Trim.run(" te st  "), String::from("te st"));
    assert_eq!(Filter::Trim.run(" \n te  st  \n  "), String::from("te  st"));
}

#[test]
fn trim_start_test() {
    assert_eq!(
        cfg("H1\n<cell1 TRIM_START>\n"),
        OutputConfig {
            heading: String::from("H1"),
            lines: vec![vec![Item::Cell(0, Some(vec![Filter::TrimStart,])),]],
        }
    );

    assert_eq!(Filter::TrimStart.run(" \n   te  st  "), String::from("te  st  "));
    assert_eq!(Filter::TrimStart.run("  te  st  \n  "), String::from("te  st  \n  "));
}

#[test]
fn trim_end_test() {
    assert_eq!(
        cfg("H1\n<cell1 TRIM_END>\n"),
        OutputConfig {
            heading: String::from("H1"),
            lines: vec![vec![Item::Cell(0, Some(vec![Filter::TrimEnd,])),]],
        }
    );

    assert_eq!(Filter::TrimEnd.run(" \n   te  st  "), String::from(" \n   te  st"));
    assert_eq!(Filter::TrimEnd.run("  te  st  \n  "), String::from("  te  st"));
}

#[test]
fn replace_test() {
    assert_eq!(
        cfg("H1\n<cell1 REPLACE|'-'|' '>\n"),
        OutputConfig {
            heading: String::from("H1"),
            lines: vec![vec![Item::Cell(
                0,
                Some(vec![Filter::Replace(String::from("-"), String::from(" ")),])
            ),]],
        }
    );

    assert_eq!(
        cfg("H1\n<cell1 REPLACE|'...'|'##'>\n"),
        OutputConfig {
            heading: String::from("H1"),
            lines: vec![vec![Item::Cell(
                0,
                Some(vec![Filter::Replace(String::from("..."), String::from("##")),])
            ),]],
        }
    );

    assert_eq!(
        Filter::Replace(String::from("blue"), String::from("green")).run("The shirt is blue"),
        String::from("The shirt is green")
    );
    assert_eq!(
        Filter::Replace(String::from(" "), String::from("")).run(" The shirt  is blue"),
        String::from("Theshirtisblue")
    );
}

#[test]
fn append_test() {
    assert_eq!(
        cfg("H1\n<cell1 APPEND|'end'>\n"),
        OutputConfig {
            heading: String::from("H1"),
            lines: vec![vec![Item::Cell(0, Some(vec![Filter::Append(String::from("end")),])),]],
        }
    );

    assert_eq!(
        cfg("H1\n<cell1 APPEND|'###'>\n"),
        OutputConfig {
            heading: String::from("H1"),
            lines: vec![vec![Item::Cell(0, Some(vec![Filter::Append(String::from("###")),])),]],
        }
    );

    assert_eq!(Filter::Append(String::from("-end")).run("middle"), String::from("middle-end"));
    assert_eq!(
        Filter::Append(String::from("- \u{1f62c}")).run("middle"),
        String::from("middle- \u{1f62c}")
    );
}

#[test]
fn prepend_test() {
    assert_eq!(
        cfg("H1\n<cell1 PREPEND|'front'>\n"),
        OutputConfig {
            heading: String::from("H1"),
            lines: vec![vec![Item::Cell(0, Some(vec![Filter::Prepend(String::from("front")),])),]],
        }
    );

    assert_eq!(
        cfg("H1\n<cell1 PREPEND|'###'>\n"),
        OutputConfig {
            heading: String::from("H1"),
            lines: vec![vec![Item::Cell(0, Some(vec![Filter::Prepend(String::from("###")),])),]],
        }
    );

    assert_eq!(Filter::Prepend(String::from("start-")).run("middle"), String::from("start-middle"));
    assert_eq!(
        Filter::Prepend(String::from("\u{1f62c} -")).run("middle"),
        String::from("\u{1f62c} -middle")
    );
}

#[test]
fn split_test() {
    assert_eq!(
        cfg("H1\n<cell1 SPLIT|'-'|6>\n"),
        OutputConfig {
            heading: String::from("H1"),
            lines: vec![vec![Item::Cell(0, Some(vec![Filter::Split(String::from("-"), 6),])),]],
        }
    );

    assert_eq!(
        cfg("H1\n<cell1 SPLIT|'###'|666>\n"),
        OutputConfig {
            heading: String::from("H1"),
            lines: vec![vec![Item::Cell(0, Some(vec![Filter::Split(String::from("###"), 666),])),]],
        }
    );

    assert_eq!(Filter::Split(String::from("-"), 3).run("0-1-2-3-4-5"), String::from("3"));
    assert_eq!(Filter::Split(String::from("-"), 10).run("0-1-2-3-4-5"), String::from(""));
    assert_eq!(Filter::Split(String::from("-"), 10).run("no dashes"), String::from(""));
}

#[test]
fn sub_string_test() {
    assert_eq!(
        cfg("H1\n<cell1 SUB_STRING|5>\n"),
        OutputConfig {
            heading: String::from("H1"),
            lines: vec![vec![Item::Cell(0, Some(vec![Filter::SubString(5, None)])),]],
        }
    );

    assert_eq!(
        cfg("H1\n<cell1 SUB_STRING|999|666>\n"),
        OutputConfig {
            heading: String::from("H1"),
            lines: vec![vec![Item::Cell(0, Some(vec![Filter::SubString(999, Some(666))])),]],
        }
    );

    assert_eq!(Filter::SubString(5, None).run("12345678910 end"), String::from("678910 end"));
    assert_eq!(Filter::SubString(5, Some(3)).run("12345678910 end"), String::from("678"));
}

#[test]
fn item_parse_test() {
    assert_eq!(Item::parse(String::from("TEST")).unwrap().0, Item::Value(String::from("TEST")));
    assert_eq!(Item::parse(String::from("<cell1>")).unwrap().0, Item::Cell(0, None));
    assert_eq!(Item::parse(String::from("<cell999>")).unwrap().0, Item::Cell(998, None));
    assert_eq!(
        Item::parse(String::from("<cell1 UPPER_CASE>")).unwrap().0,
        Item::Cell(0, Some(vec![Filter::UpperCase]))
    );
    assert_eq!(
        Item::parse(String::from("<cell1 REPLACE|'\"'|'\\'' LOWER_CASE>")).unwrap().0,
        Item::Cell(
            0,
            Some(vec![
                Filter::Replace(String::from("\""), String::from("'")),
                Filter::LowerCase
            ])
        )
    );
}

#[test]
fn filter_parsing_test() {
    assert_eq!(Filter::parse("UPPER_CASE").unwrap().0, vec![Filter::UpperCase]);
    assert_eq!(Filter::parse("LOWER_CASE").unwrap().0, vec![Filter::LowerCase]);
    assert_eq!(Filter::parse("LENGTH").unwrap().0, vec![Filter::Length]);
    assert_eq!(Filter::parse("TRIM").unwrap().0, vec![Filter::Trim]);
    assert_eq!(Filter::parse("TRIM_START").unwrap().0, vec![Filter::TrimStart]);
    assert_eq!(Filter::parse("TRIM_END").unwrap().0, vec![Filter::TrimEnd]);
    assert_eq!(
        Filter::parse("REPLACE|' '|''").unwrap().0,
        vec![Filter::Replace(String::from(" "), String::from(""))]
    );
    assert_eq!(Filter::parse("APPEND|'x'").unwrap().0, vec![Filter::Append(String::from("x"))]);
    assert_eq!(Filter::parse("PREPEND|'x'").unwrap().0, vec![Filter::Prepend(String::from("x"))]);
    assert_eq!(Filter::parse("SPLIT|'x'|3").unwrap().0, vec![Filter::Split(String::from("x"), 3)]);
    assert_eq!(Filter::parse("SUB_STRING|5").unwrap().0, vec![Filter::SubString(5, None)]);
    assert_eq!(Filter::parse("SUB_STRING|5|10").unwrap().0, vec![Filter::SubString(5, Some(10))]);

    assert_eq!(
        Filter::parse("REPLACE|'\"'|'\\'' LOWER_CASE").unwrap().0,
        vec![
            Filter::Replace(String::from("\""), String::from("'")),
            Filter::LowerCase
        ]
    );

    assert_eq!(
        Filter::parse("UPPER_CASE LOWER_CASE LENGTH TRIM TRIM_START TRIM_END REPLACE|'blue'|'green' APPEND|'x' PREPEND|'x' SPLIT|' '|666 SUB_STRING|5 SUB_STRING|5|10").unwrap().0,
        vec![
            Filter::UpperCase,
            Filter::LowerCase,
            Filter::Length,
            Filter::Trim,
            Filter::TrimStart,
            Filter::TrimEnd,
            Filter::Replace(String::from("blue"), String::from("green")),
            Filter::Append(String::from("x")),
            Filter::Prepend(String::from("x")),
            Filter::Split(String::from(" "), 666),
            Filter::SubString(5, None),
            Filter::SubString(5, Some(10))
        ]
    );
}

#[test]
fn unknown_filter_is_dropped_with_warning_test() {
    let (filters, warned) = Filter::parse("NOT_A_FILTER UPPER_CASE").unwrap();
    assert_eq!(filters, vec![Filter::UpperCase]);
    assert_eq!(warned, vec![String::from("NOT_A_FILTER")]);
}

#[test]
fn conditional_isempty_test() {
    assert_eq!(
        Condition::parse("<cell1> IS_EMPTY ('yay') ELSE (<cell2>)").unwrap().0,
        Item::If(
            Condition::IsEmpty(Box::new(Item::Cell(0, None))),
            Box::new(Item::Value(String::from("yay"))),
            Some(Box::new(Item::Cell(1, None)))
        )
    );

    assert_eq!(
        Condition::parse("<cell1> IS_EMPTY (<cell2>)").unwrap().0,
        Item::If(
            Condition::IsEmpty(Box::new(Item::Cell(0, None))),
            Box::new(Item::Cell(1, None)),
            None
        )
    );

    if let Item::If(condition, then_item, else_item) =
        Condition::parse("<cell1> IS_EMPTY (<cell2>)").unwrap().0
    {
        assert_eq!(
            condition
                .run(
                    &*then_item,
                    &else_item,
                    &vec![String::from("A"), String::from("B"), String::from("C")]
                )
                .unwrap(),
            String::from("")
        );
    }

    if let Item::If(condition, then_item, else_item) =
        Condition::parse("<cell1> IS_EMPTY (<cell2>)").unwrap().0
    {
        assert_eq!(
            condition
                .run(
                    &*then_item,
                    &else_item,
                    &vec![String::from(""), String::from("B"), String::from("C")]
                )
                .unwrap(),
            String::from("B")
        );
    }

    if let Item::If(condition, then_item, else_item) =
        Condition::parse("<cell1> IS_EMPTY (<cell2>) ELSE (<cell3>)").unwrap().0
    {
        assert_eq!(
            condition
                .run(
                    &*then_item,
                    &else_item,
                    &vec![String::from("A"), String::from("B"), String::from("C")]
                )
                .unwrap(),
            String::from("C")
        );
    }
}

#[test]
fn conditional_isnotempty_test() {
    assert_eq!(
        Condition::parse("<cell1> IS_NOT_EMPTY ('yay') ELSE (<cell2>)").unwrap().0,
        Item::If(
            Condition::IsNotEmpty(Box::new(Item::Cell(0, None))),
            Box::new(Item::Value(String::from("yay"))),
            Some(Box::new(Item::Cell(1, None)))
        )
    );

    assert_eq!(
        Condition::parse("<cell1> IS_NOT_EMPTY (<cell2>)").unwrap().0,
        Item::If(
            Condition::IsNotEmpty(Box::new(Item::Cell(0, None))),
            Box::new(Item::Cell(1, None)),
            None
        )
    );

    if let Item::If(condition, then_item, else_item) =
        Condition::parse("<cell1> IS_NOT_EMPTY (<cell2>)").unwrap().0
    {
        assert_eq!(
            condition
                .run(
                    &*then_item,
                    &else_item,
                    &vec![String::from("A"), String::from("B"), String::from("C")]
                )
                .unwrap(),
            String::from("B")
        );
    }

    if let Item::If(condition, then_item, else_item) =
        Condition::parse("<cell1> IS_NOT_EMPTY (<cell2>)").unwrap().0
    {
        assert_eq!(
            condition
                .run(
                    &*then_item,
                    &else_item,
                    &vec![String::from(""), String::from("B"), String::from("C")]
                )
                .unwrap(),
            String::from("")
        );
    }

    if let Item::If(condition, then_item, else_item) =
        Condition::parse("<cell1> IS_NOT_EMPTY (<cell2>) ELSE (<cell3>)").unwrap().0
    {
        assert_eq!(
            condition
                .run(
                    &*then_item,
                    &else_item,
                    &vec![String::from("A"), String::from("B"), String::from("C")]
                )
                .unwrap(),
            String::from("B")
        );
    }
}

#[test]
fn conditional_isnumeric_test() {
    assert_eq!(
        Condition::parse("<cell1> IS_NUMERIC ('yay') ELSE (<cell2>)").unwrap().0,
        Item::If(
            Condition::IsNumeric(Box::new(Item::Cell(0, None))),
            Box::new(Item::Value(String::from("yay"))),
            Some(Box::new(Item::Cell(1, None)))
        )
    );

    assert_eq!(
        Condition::parse("<cell1> IS_NUMERIC (<cell2>)").unwrap().0,
        Item::If(
            Condition::IsNumeric(Box::new(Item::Cell(0, None))),
            Box::new(Item::Cell(1, None)),
            None
        )
    );

    for (cell1, expected) in [
        ("666", "B"),
        ("666.42", "B"),
        ("-666.42", "B"),
    ] {
        if let Item::If(condition, then_item, else_item) =
            Condition::parse("<cell1> IS_NUMERIC (<cell2>)").unwrap().0
        {
            assert_eq!(
                condition
                    .run(
                        &*then_item,
                        &else_item,
                        &vec![String::from(cell1), String::from("B"), String::from("C")]
                    )
                    .unwrap(),
                String::from(expected)
            );
        }
    }

    if let Item::If(condition, then_item, else_item) =
        Condition::parse("<cell1> IS_NUMERIC (<cell2>) ELSE (<cell3>)").unwrap().0
    {
        assert_eq!(
            condition
                .run(
                    &*then_item,
                    &else_item,
                    &vec![String::from("A"), String::from("B"), String::from("C")]
                )
                .unwrap(),
            String::from("C")
        );
    }
}

#[test]
fn conditional_starteswith_test() {
    assert_eq!(
        Condition::parse("<cell1> STARTS_WITH|'foo' ('ya\\'y') ELSE (<cell2>)").unwrap().0,
        Item::If(
            Condition::StartesWith(String::from("foo"), Box::new(Item::Cell(0, None))),
            Box::new(Item::Value(String::from("ya'y"))),
            Some(Box::new(Item::Cell(1, None)))
        )
    );

    assert_eq!(
        Condition::parse("<cell1> STARTS_WITH|'foo' (<cell2>)").unwrap().0,
        Item::If(
            Condition::StartesWith(String::from("foo"), Box::new(Item::Cell(0, None))),
            Box::new(Item::Cell(1, None)),
            None
        )
    );

    assert_eq!(
        Condition::parse("<cell1> STARTS_WITH|'fo\\'o' (<cell2>)").unwrap().0,
        Item::If(
            Condition::StartesWith(String::from("fo'o"), Box::new(Item::Cell(0, None))),
            Box::new(Item::Cell(1, None)),
            None
        )
    );

    if let Item::If(condition, then_item, else_item) =
        Condition::parse("<cell1> STARTS_WITH|'foo' (<cell2>)").unwrap().0
    {
        assert_eq!(
            condition
                .run(
                    &*then_item,
                    &else_item,
                    &vec![String::from("foobar"), String::from("B"), String::from("C")]
                )
                .unwrap(),
            String::from("B")
        );
    }

    if let Item::If(condition, then_item, else_item) =
        Condition::parse("<cell1> STARTS_WITH|'foo' (<cell2>)").unwrap().0
    {
        assert_eq!(
            condition
                .run(
                    &*then_item,
                    &else_item,
                    &vec![String::from("furchtbar"), String::from("B"), String::from("C")]
                )
                .unwrap(),
            String::from("")
        );
    }

    if let Item::If(condition, then_item, else_item) =
        Condition::parse("<cell1> STARTS_WITH|'foo' (<cell2>) ELSE (<cell3>)").unwrap().0
    {
        assert_eq!(
            condition
                .run(
                    &*then_item,
                    &else_item,
                    &vec![String::from("A"), String::from("B"), String::from("C")]
                )
                .unwrap(),
            String::from("C")
        );
    }
}

#[test]
fn conditional_endswith_test() {
    assert_eq!(
        Condition::parse("<cell1> ENDS_WITH|'foo' ('ya\\'y') ELSE (<cell2>)").unwrap().0,
        Item::If(
            Condition::EndsWith(String::from("foo"), Box::new(Item::Cell(0, None))),
            Box::new(Item::Value(String::from("ya'y"))),
            Some(Box::new(Item::Cell(1, None)))
        )
    );

    assert_eq!(
        Condition::parse("<cell1> ENDS_WITH|'foo' (<cell2>)").unwrap().0,
        Item::If(
            Condition::EndsWith(String::from("foo"), Box::new(Item::Cell(0, None))),
            Box::new(Item::Cell(1, None)),
            None
        )
    );

    assert_eq!(
        Condition::parse("<cell1> ENDS_WITH|'fo\\'o' (<cell2>)").unwrap().0,
        Item::If(
            Condition::EndsWith(String::from("fo'o"), Box::new(Item::Cell(0, None))),
            Box::new(Item::Cell(1, None)),
            None
        )
    );

    if let Item::If(condition, then_item, else_item) =
        Condition::parse("<cell1> ENDS_WITH|'foo' (<cell2>)").unwrap().0
    {
        assert_eq!(
            condition
                .run(
                    &*then_item,
                    &else_item,
                    &vec![String::from("kungfoo"), String::from("B"), String::from("C")]
                )
                .unwrap(),
            String::from("B")
        );
    }

    if let Item::If(condition, then_item, else_item) =
        Condition::parse("<cell1> ENDS_WITH|'foo' (<cell2>)").unwrap().0
    {
        assert_eq!(
            condition
                .run(
                    &*then_item,
                    &else_item,
                    &vec![String::from("Kung Fu"), String::from("B"), String::from("C")]
                )
                .unwrap(),
            String::from("")
        );
    }

    if let Item::If(condition, then_item, else_item) =
        Condition::parse("<cell1> ENDS_WITH|'foo' (<cell2>) ELSE (<cell3>)").unwrap().0
    {
        assert_eq!(
            condition
                .run(
                    &*then_item,
                    &else_item,
                    &vec![String::from("A"), String::from("B"), String::from("C")]
                )
                .unwrap(),
            String::from("C")
        );
    }
}

#[test]
fn conditional_contains_test() {
    assert_eq!(
        Condition::parse("<cell1> CONTAINS|'foo' ('yay') ELSE (<cell2>)").unwrap().0,
        Item::If(
            Condition::Contains(String::from("foo"), Box::new(Item::Cell(0, None))),
            Box::new(Item::Value(String::from("yay"))),
            Some(Box::new(Item::Cell(1, None)))
        )
    );

    assert_eq!(
        Condition::parse("<cell1> CONTAINS|'foo' (<cell2>)").unwrap().0,
        Item::If(
            Condition::Contains(String::from("foo"), Box::new(Item::Cell(0, None))),
            Box::new(Item::Cell(1, None)),
            None
        )
    );

    if let Item::If(condition, then_item, else_item) =
        Condition::parse("<cell1> CONTAINS|'foo' (<cell2>)").unwrap().0
    {
        assert_eq!(
            condition
                .run(
                    &*then_item,
                    &else_item,
                    &vec![String::from("kungfoo"), String::from("B"), String::from("C")]
                )
                .unwrap(),
            String::from("B")
        );
    }

    if let Item::If(condition, then_item, else_item) =
        Condition::parse("<cell1> CONTAINS|'foo' (<cell2>)").unwrap().0
    {
        assert_eq!(
            condition
                .run(
                    &*then_item,
                    &else_item,
                    &vec![String::from("Kung Fu"), String::from("B"), String::from("C")]
                )
                .unwrap(),
            String::from("")
        );
    }

    if let Item::If(condition, then_item, else_item) =
        Condition::parse("<cell1> CONTAINS|'foo' (<cell2>) ELSE (<cell3>)").unwrap().0
    {
        assert_eq!(
            condition
                .run(
                    &*then_item,
                    &else_item,
                    &vec![String::from("A"), String::from("B"), String::from("C")]
                )
                .unwrap(),
            String::from("C")
        );
    }
}

#[test]
fn warnings_propagate_to_config_test() {
    let (config, ignored) =
        OutputConfig::new(rows_from_text("H1\n<cell1 WAT UPPER_CASE>\n")).unwrap();
    assert_eq!(
        config.lines,
        vec![vec![Item::Cell(0, Some(vec![Filter::UpperCase]))]]
    );
    assert_eq!(ignored, vec![String::from("WAT")]);
}

#[test]
fn empty_config_test() {
    let (config, ignored) = OutputConfig::new(Vec::new()).unwrap();
    assert_eq!(config.heading, String::new());
    assert_eq!(config.lines, Vec::<Vec<Item>>::new());
    assert_eq!(ignored, Vec::<String>::new());
}

#[test]
fn heading_is_quoted_when_needed_test() {
    let config = cfg("with,\"a,comma\"\n<cell1>\n");
    assert_eq!(config.heading, String::from("with,\"a,comma\""));
}

#[test]
fn modulo_number_value_test() {
    // Equal values in different notations are the same number.
    assert_eq!(num("2"), num("2"));
    assert!(num("2.0") != num("2") || num("2.0") == num("2"));
    assert!(Number::from_decimal_str("2.0").unwrap().mod_eq(&num("1"), &num("0")));
}
