use ical_grammar::{param, param_value, paramtext, quoted_string, Rule};

fn check_param() {
    assert_eq!(
        param("NAME=value1,value2,value3"),
        Ok((
            "",
            (
                "NAME".to_string(),
                vec![
                    "value1".to_string(),
                    "value2".to_string(),
                    "value3".to_string()
                ]
            )
        ))
    );
    assert_eq!(
        param("NAME=value1"),
        Ok(("", ("NAME".to_string(), vec!["value1".to_string()])))
    );
    assert_eq!(
        param("NAME="),
        Ok(("", ("NAME".to_string(), vec!["".to_string()])))
    );
    assert!(param("NAME").is_err());
    assert!(param("=value1").is_err());
}

#[test]
fn lib_test_param() {
    check_param();
}

#[test]
fn param_test_param() {
    check_param();
}

fn check_param_value() {
    // paramtext
    assert_eq!(param_value("value"), Ok(("", "value".to_string())));
    assert_eq!(param_value("héllo"), Ok(("", "héllo".to_string())));

    // quoted-string
    assert_eq!(param_value("\"quoted\""), Ok(("", "quoted".to_string())));
    assert_eq!(param_value("\"héllo\""), Ok(("", "héllo".to_string())));

    assert_eq!(param_value(""), Ok(("", "".to_string())));
    assert_eq!(
        param_value("\"unterminated"),
        Ok(("\"unterminated", "".to_string()))
    );
}

#[test]
fn lib_test_param_value() {
    check_param_value();
}

#[test]
fn param_value_test_param_value() {
    check_param_value();
}

fn check_paramtext() {
    assert_eq!(paramtext("value"), Ok(("", "value".to_string())));
    assert_eq!(paramtext("héllo"), Ok(("", "héllo".to_string())));
    assert_eq!(paramtext("value123"), Ok(("", "value123".to_string())));
    assert_eq!(paramtext(""), Ok(("", "".to_string())));
    assert_eq!(paramtext(";invalid"), Ok((";invalid", "".to_string())));
}

#[test]
fn lib_test_paramtext() {
    check_paramtext();
}

#[test]
fn paramtext_test_paramtext() {
    check_paramtext();
}

fn check_quoted_string() {
    assert_eq!(quoted_string("\"hello\""), Ok(("", "hello".to_string())));
    assert_eq!(quoted_string("\"héllo\""), Ok(("", "héllo".to_string())));
    assert_eq!(quoted_string("\"\""), Ok(("", "".to_string())));
    assert!(quoted_string("\"hello").is_err());
    assert!(quoted_string("hello\"").is_err());
    assert_eq!(
        quoted_string("\"he\"llo\""),
        Ok(("llo\"", "he".to_string()))
    );
}

#[test]
fn lib_test_quoted_string() {
    check_quoted_string();
}

#[test]
fn quoted_string_test_quoted_string() {
    check_quoted_string();
}

#[test]
fn param_value_quoted_and_plain_agree() {
    assert_eq!(param_value("value"), Ok(("", "value".to_string())));
    assert_eq!(param_value("\"value\""), Ok(("", "value".to_string())));
    assert_eq!(
        param_value("\"unterminated"),
        Ok(("\"unterminated", "".to_string()))
    );
}

#[test]
fn quoted_string_round_trip_example() {
    let inner = "a; b:c,d é";
    let quoted = format!("\"{}\"", inner);
    assert_eq!(quoted_string(&quoted), Ok(("", inner.to_string())));
}

#[test]
fn quoted_string_allows_separators_inside() {
    assert_eq!(
        param_value("\"a,b;c:d\",e"),
        Ok((",e", "a,b;c:d".to_string()))
    );
    assert_eq!(
        param("X-P=\"a,b\",c;NEXT"),
        Ok((";NEXT", ("X-P".to_string(), vec!["a,b".to_string(), "c".to_string()])))
    );
}

#[test]
fn param_error_keeps_input() {
    let e = param("NAME").unwrap_err();
    assert_eq!(e.input, "NAME");
    assert_eq!(e.rule, Rule::Param);
    assert_eq!(quoted_string("\"open").unwrap_err().rule, Rule::QuotedString);
}
