use csv_converter::config::Condition;
use csv_converter::config::Item;
use csv_converter::errors::ConfigError;
use csv_converter::errors::EvalError;
use csv_converter::num::Number;

fn num(s: &str) -> Number {
    Number::from_decimal_str(s).unwrap()
}


fn run_once(clause: &str, row: Vec<String>) -> Result<String, EvalError> {
    match Condition::parse(clause).unwrap().0 {
        Item::If(condition, then_item, else_item) => {
            condition.run(&*then_item, &else_item, &row)
        },
        _ => panic!("expected a conditional"),
    }
}

#[test]
fn conditional_equals_test() {
    assert_eq!(
        Condition::parse("<cell1> == 'foo' ('yay') ELSE (<cell2>)").unwrap().0,
        Item::If(
            Condition::Equals(
                Box::new(Item::Value(String::from("foo"))),
                Box::new(Item::Cell(0, None))
            ),
            Box::new(Item::Value(String::from("yay"))),
            Some(Box::new(Item::Cell(1, None)))
        )
    );

    assert_eq!(
        Condition::parse("<cell1> == 'foo' (<cell2>)").unwrap().0,
        Item::If(
            Condition::Equals(
                Box::new(Item::Value(String::from("foo"))),
                Box::new(Item::Cell(0, None))
            ),
            Box::new(Item::Cell(1, None)),
            None
        )
    );

    assert_eq!(
        Condition::parse("<cell1>=='foo'(<cell2>)").unwrap().0,
        Item::If(
            Condition::Equals(
                Box::new(Item::Value(String::from("foo"))),
                Box::new(Item::Cell(0, None))
            ),
            Box::new(Item::Cell(1, None)),
            None
        )
    );

    assert_eq!(
        Condition::parse("<cell1> == <cell666> (<cell2>)").unwrap().0,
        Item::If(
            Condition::Equals(Box::new(Item::Cell(665, None)), Box::new(Item::Cell(0, None))),
            Box::new(Item::Cell(1, None)),
            None
        )
    );

    let row = vec![String::from("A"), String::from("B"), String::from("C")];
    assert_eq!(run_once("<cell1> == A (<cell2>)", row.clone()).unwrap(), String::from("B"));
    assert_eq!(run_once("<cell1> == X (<cell2>)", row.clone()).unwrap(), String::from(""));
    assert_eq!(
        run_once(
            "<cell1> == <cell3> (<cell2>)",
            vec![String::from("A"), String::from("B"), String::from("A")]
        )
        .unwrap(),
        String::from("B")
    );
    assert_eq!(
        run_once("<cell1> == <cell3> (<cell2>)", row.clone()).unwrap(),
        String::from("")
    );
    assert_eq!(
        run_once("<cell1> == X (<cell2>) ELSE (<cell3>)", row.clone()).unwrap(),
        String::from("C")
    );
}

#[test]
fn conditional_notequals_test() {
    assert_eq!(
        Condition::parse("<cell1> != 'foo' ('yay') ELSE (<cell2>)").unwrap().0,
        Item::If(
            Condition::NotEquals(
                Box::new(Item::Value(String::from("foo"))),
                Box::new(Item::Cell(0, None))
            ),
            Box::new(Item::Value(String::from("yay"))),
            Some(Box::new(Item::Cell(1, None)))
        )
    );

    assert_eq!(
        Condition::parse("<cell1>    != 'foo' (<cell2>)").unwrap().0,
        Item::If(
            Condition::NotEquals(
                Box::new(Item::Value(String::from("foo"))),
                Box::new(Item::Cell(0, None))
            ),
            Box::new(Item::Cell(1, None)),
            None
        )
    );

    assert_eq!(
        Condition::parse("<cell1>!='foo'(<cell2>)").unwrap().0,
        Item::If(
            Condition::NotEquals(
                Box::new(Item::Value(String::from("foo"))),
                Box::new(Item::Cell(0, None))
            ),
            Box::new(Item::Cell(1, None)),
            None
        )
    );

    assert_eq!(
        Condition::parse("<cell1> != <cell666> (<cell2>)").unwrap().0,
        Item::If(
            Condition::NotEquals(Box::new(Item::Cell(665, None)), Box::new(Item::Cell(0, None))),
            Box::new(Item::Cell(1, None)),
            None
        )
    );

    let row = vec![String::from("A"), String::from("B"), String::from("C")];
    assert_eq!(run_once("<cell1> != X (<cell2>)", row.clone()).unwrap(), String::from("B"));
    assert_eq!(run_once("<cell1> != A (<cell2>)", row.clone()).unwrap(), String::from(""));
    assert_eq!(run_once("<cell1> != <cell3> (<cell2>)", row.clone()).unwrap(), String::from("B"));
    assert_eq!(
        run_once(
            "<cell1> != <cell3> (<cell2>)",
            vec![String::from("A"), String::from("B"), String::from("A")]
        )
        .unwrap(),
        String::from("")
    );
    assert_eq!(
        run_once("<cell1> != A (<cell2>) ELSE (<cell3>)", row.clone()).unwrap(),
        String::from("C")
    );
}

#[test]
fn conditional_greaterthan_test() {
    assert_eq!(
        Condition::parse("<cell1> > 5 ('yay') ELSE (<cell2>)").unwrap().0,
        Item::If(
            Condition::GreaterThan(
                Box::new(Item::Value(String::from("5"))),
                Box::new(Item::Cell(0, None))
            ),
            Box::new(Item::Value(String::from("yay"))),
            Some(Box::new(Item::Cell(1, None)))
        )
    );

    assert_eq!(
        Condition::parse("<cell1> > 666 (<cell2>)").unwrap().0,
        Item::If(
            Condition::GreaterThan(
                Box::new(Item::Value(String::from("666"))),
                Box::new(Item::Cell(0, None))
            ),
            Box::new(Item::Cell(1, None)),
            None
        )
    );

    assert_eq!(
        Condition::parse("<cell1>  >   -666      (<cell2>)").unwrap().0,
        Item::If(
            Condition::GreaterThan(
                Box::new(Item::Value(String::from("-666"))),
                Box::new(Item::Cell(0, None))
            ),
            Box::new(Item::Cell(1, None)),
            None
        )
    );

    assert_eq!(
        run_once(
            "<cell1> > 5 (<cell2>)",
            vec![String::from("6"), String::from("B"), String::from("C")]
        )
        .unwrap(),
        String::from("B")
    );
    assert_eq!(
        run_once(
            "<cell1> > 5 (<cell2>)",
            vec![String::from("5"), String::from("B"), String::from("C")]
        )
        .unwrap(),
        String::from("")
    );
    assert_eq!(
        run_once(
            "<cell1> > <cell3> (<cell2>)",
            vec![String::from("6"), String::from("B"), String::from("5")]
        )
        .unwrap(),
        String::from("B")
    );
    assert_eq!(
        run_once(
            "<cell1> > <cell3> (<cell2>)",
            vec![String::from("5"), String::from("B"), String::from("5")]
        )
        .unwrap(),
        String::from("")
    );
    assert_eq!(
        run_once(
            "<cell1> > 5 (<cell2>) ELSE (<cell3>)",
            vec![String::from("4"), String::from("B"), String::from("C")]
        )
        .unwrap(),
        String::from("C")
    );
}

#[test]
fn conditional_lessthan_test() {
    assert_eq!(
        Condition::parse("<cell1> < 5 ('yay') ELSE (<cell2>)").unwrap().0,
        Item::If(
            Condition::LessThan(
                Box::new(Item::Value(String::from("5"))),
                Box::new(Item::Cell(0, None))
            ),
            Box::new(Item::Value(String::from("yay"))),
            Some(Box::new(Item::Cell(1, None)))
        )
    );

    assert_eq!(
        Condition::parse("<cell1> < 666 (<cell2>)").unwrap().0,
        Item::If(
            Condition::LessThan(
                Box::new(Item::Value(String::from("666"))),
                Box::new(Item::Cell(0, None))
            ),
            Box::new(Item::Cell(1, None)),
            None
        )
    );

    assert_eq!(
        Condition::parse("<cell1>  <   -666      (<cell2>)").unwrap().0,
        Item::If(
            Condition::LessThan(
                Box::new(Item::Value(String::from("-666"))),
                Box::new(Item::Cell(0, None))
            ),
            Box::new(Item::Cell(1, None)),
            None
        )
    );

    assert_eq!(
        run_once(
            "<cell1> < 5 (<cell2>)",
            vec![String::from("4"), String::from("B"), String::from("C")]
        )
        .unwrap(),
        String::from("B")
    );
    assert_eq!(
        run_once(
            "<cell1> < 5 (<cell2>)",
            vec![String::from("5"), String::from("B"), String::from("C")]
        )
        .unwrap(),
        String::from("")
    );
    assert_eq!(
        run_once(
            "<cell1> < <cell3> (<cell2>)",
            vec![String::from("4"), String::from("B"), String::from("5")]
        )
        .unwrap(),
        String::from("B")
    );
    assert_eq!(
        run_once(
            "<cell1> < <cell3> (<cell2>)",
            vec![String::from("5"), String::from("B"), String::from("5")]
        )
        .unwrap(),
        String::from("")
    );
    assert_eq!(
        run_once(
            "<cell1> < 5 (<cell2>) ELSE (<cell3>)",
            vec![String::from("6"), String::from("B"), String::from("C")]
        )
        .unwrap(),
        String::from("C")
    );
}

#[test]
fn conditional_modulo_test() {
    assert_eq!(
        Condition::parse("<cell1> % 3 = 0 ('yay') ELSE (<cell2>)").unwrap().0,
        Item::If(
            Condition::Modulo(num("3"), num("0"), Box::new(Item::Cell(0, None))),
            Box::new(Item::Value(String::from("yay"))),
            Some(Box::new(Item::Cell(1, None)))
        )
    );

    assert_eq!(
        Condition::parse("<cell1>  %  42   =  -20  (<cell2>)").unwrap().0,
        Item::If(
            Condition::Modulo(num("42"), num("-20"), Box::new(Item::Cell(0, None))),
            Box::new(Item::Cell(1, None)),
            None
        )
    );

    assert_eq!(
        run_once(
            "<cell1> % 2 = 0 (<cell2>)",
            vec![String::from("4"), String::from("B"), String::from("C")]
        )
        .unwrap(),
        String::from("B")
    );
    assert_eq!(
        run_once(
            "<cell1> % 2 = 0 (<cell2>)",
            vec![String::from("5"), String::from("B"), String::from("C")]
        )
        .unwrap(),
        String::from("")
    );
    assert_eq!(
        run_once(
            "<cell1> % 2 = 0 (<cell2>) ELSE (<cell3>)",
            vec![String::from("5"), String::from("B"), String::from("C")]
        )
        .unwrap(),
        String::from("C")
    );
}

#[test]
fn condition_parse_errors_test() {
    assert_eq!(
        Condition::parse("no cell here"),
        Err(ConfigError::ConditionStart(String::from("no cell here")))
    );
    assert_eq!(
        Condition::parse("<cell1> IS_EMPTY"),
        Err(ConfigError::ConditionEnd(String::from("<cell1> IS_EMPTY")))
    );
    assert_eq!(
        Condition::parse("<cell1> UNHEARD_OF (<cell2>)"),
        Err(ConfigError::UnknownOperator(String::from("UNHEARD_OF")))
    );
    assert_eq!(
        Condition::parse("<cell1> STARTS_WITH (<cell2>)"),
        Err(ConfigError::NeedleMissing(String::from("STARTS_WITH")))
    );
    assert_eq!(
        Condition::parse("<cell1> == (<cell2>)"),
        Err(ConfigError::ComparisonMissing(String::from("==")))
    );
    assert_eq!(
        Condition::parse("<cell1> % 2 (<cell2>)"),
        Err(ConfigError::ModuloUsage(String::from(" 2")))
    );
    assert_eq!(
        Condition::parse("<cell1> % x = 0 (<cell2>)"),
        Err(ConfigError::ModuloDivisor(String::from("x")))
    );
    assert_eq!(
        Condition::parse("<cell1> % 2 = y (<cell2>)"),
        Err(ConfigError::ModuloRemainder(String::from("y")))
    );
}

#[test]
fn condition_eval_errors_test() {
    let short_row = vec![String::from("")];
    assert_eq!(
        run_once("<cell1> IS_EMPTY (<cell2>)", short_row.clone()),
        Err(EvalError::CellNotFound(1))
    );
    assert_eq!(
        run_once(
            "<cell1> > 5 (<cell2>)",
            vec![String::from("A"), String::from("B"), String::from("C")]
        ),
        Err(EvalError::GreaterLeftNotNumeric(String::from("A")))
    );
    assert_eq!(
        run_once(
            "<cell1> > <cell3> (<cell2>)",
            vec![String::from("5"), String::from("B"), String::from("C")]
        ),
        Err(EvalError::GreaterRightNotNumeric(String::from("C")))
    );
    assert_eq!(
        run_once(
            "<cell1> < x (<cell2>)",
            vec![String::from("A"), String::from("B"), String::from("C")]
        ),
        Err(EvalError::LessLeftNotNumeric(String::from("A")))
    );
    assert_eq!(
        run_once(
            "<cell1> % 2 = 0 (<cell2>)",
            vec![String::from("A"), String::from("B"), String::from("C")]
        ),
        Err(EvalError::ModuloNotNumeric(String::from("A")))
    );
    let nested = Condition::IsEmpty(Box::new(Item::If(
        Condition::IsEmpty(Box::new(Item::Cell(0, None))),
        Box::new(Item::Value(String::from("x"))),
        None,
    )));
    assert_eq!(
        nested.run(
            &Item::Value(String::from("t")),
            &None,
            &vec![String::from("A"), String::from("B")]
        ),
        Err(EvalError::NestedIf)
    );
}

#[test]
fn condition_missing_clause_errors_test() {
    // No operator text was ever closed by a parenthesis.
    assert_eq!(
        Condition::parse("<cell1> IS_EMPTY)"),
        Err(ConfigError::ConditionNotFound(String::from("<cell1> IS_EMPTY)")))
    );
    // No subject cell reference was ever closed by `>`.
    assert_eq!(
        Condition::parse("<cell1 IS_EMPTY (x)"),
        Err(ConfigError::ConditionItemNotFound(String::from("<cell1 IS_EMPTY (x)")))
    );
    // The only closing parenthesis stands inside quotes.
    assert_eq!(
        Condition::parse("<cell1> IS_EMPTY (')"),
        Err(ConfigError::ThenItemNotFound(String::from("<cell1> IS_EMPTY (')")))
    );
}

#[test]
fn escaped_quote_and_backslash_test() {
    // An escaped quote is a literal quote; a doubled backslash is a
    // literal backslash.
    assert_eq!(
        run_once(
            "<cell1> == '\\'' (<cell2>)",
            vec![String::from("'"), String::from("B")]
        )
        .unwrap(),
        String::from("B")
    );
    assert_eq!(
        run_once(
            "<cell1> == '\\\\' (<cell2>)",
            vec![String::from("\\"), String::from("B")]
        )
        .unwrap(),
        String::from("B")
    );
}
