use ical_grammar::{
    b_end, binary, boolean, cal_address_from_uri_match, date_fullyear, date_mday, date_month,
    date_value, pidvalue, text, Binary, Boolean, CalendarUserAddress, PropertyValue, Rule, Text,
};

#[test]
fn b_end_test() {
    let input = "ab==";
    let expected = Ok(("", "ab==".to_owned()));
    assert_eq!(b_end(input), expected);

    let input = "abc=";
    let expected = Ok(("", "abc=".to_owned()));
    assert_eq!(b_end(input), expected);

    let input = "a==";
    assert!(b_end(input).is_err());
}

#[test]
fn binary_test() {
    let input = "";
    let expected = Ok(("", Binary("".to_owned())));
    assert_eq!(binary(input), expected);

    let input = "abcd";
    let expected = Ok(("", Binary("abcd".to_owned())));
    assert_eq!(binary(input), expected);

    let input = "abcdabcd";
    let expected = Ok(("", Binary("abcdabcd".to_owned())));
    assert_eq!(binary(input), expected);

    let input = "abcdabcdabc=";
    let expected = Ok(("", Binary("abcdabcdabc=".to_owned())));
    assert_eq!(binary(input), expected);

    let input = "abcdabcdab==";
    let expected = Ok(("", Binary("abcdabcdab==".to_owned())));
    assert_eq!(binary(input), expected);
}

#[test]
fn binary_padding_boundaries() {
    assert_eq!(
        binary("abcdabcdab=="),
        Ok(("", Binary("abcdabcdab==".to_owned())))
    );
    assert_eq!(binary("abcdabcdabc").unwrap_err().rule, Rule::Binary);
    assert!(binary("abcdabcdab").is_err());
    assert_eq!(
        binary("abcdabcdabcd"),
        Ok(("", Binary("abcdabcdabcd".to_owned())))
    );
    assert_eq!(binary("ab+/\r\n"), Ok(("\r\n", Binary("ab+/".to_owned()))));
    assert!(binary("a=").is_err());
}

#[test]
fn test_boolean() {
    let input = "TRUE";
    let expected = Ok(("", Boolean::True));
    assert_eq!(boolean(input), expected);

    let input = "FALSE";
    let expected = Ok(("", Boolean::False));
    assert_eq!(boolean(input), expected);

    let input = "INVALID";
    assert!(boolean(input).is_err());
}

#[test]
fn boolean_is_case_sensitive() {
    assert!(boolean("true").is_err());
    assert_eq!(boolean("FALSEx"), Ok(("x", Boolean::False)));
}

#[test]
fn test_date_fullyear() {
    assert_eq!(date_fullyear("2023"), Ok(("", "2023".to_owned())));
    assert_eq!(date_fullyear("1970"), Ok(("", "1970".to_owned())));
    assert_eq!(date_fullyear("0000"), Ok(("", "0000".to_owned())));
    assert_eq!(date_fullyear("9999"), Ok(("", "9999".to_owned())));

    assert_eq!(date_fullyear("2023rest"), Ok(("rest", "2023".to_owned())));
    assert_eq!(
        date_fullyear("2023-10-15"),
        Ok(("-10-15", "2023".to_owned()))
    );

    let result = date_fullyear("");
    assert!(result.is_err());

    let result = date_fullyear("123");
    assert!(result.is_err());

    let result = date_fullyear("12345");
    assert_eq!(result, Ok(("5", "1234".to_owned())));

    let result = date_fullyear("abcd");
    assert!(result.is_err());

    let result = date_fullyear("20AB");
    assert!(result.is_err());
}

#[test]
fn test_date_mday() {
    assert_eq!(date_mday("01"), Ok(("", "01".to_owned())));
    assert_eq!(date_mday("31"), Ok(("", "31".to_owned())));
    assert_eq!(date_mday("15"), Ok(("", "15".to_owned())));
    assert_eq!(date_mday("28"), Ok(("", "28".to_owned())));

    assert_eq!(date_mday("02rest"), Ok(("rest", "02".to_owned())));
    assert_eq!(date_mday("15T"), Ok(("T", "15".to_owned())));

    let result = date_mday("");
    assert!(result.is_err());

    let result = date_mday("1");
    assert!(result.is_err());

    let result = date_mday("123");
    assert_eq!(result, Ok(("3", "12".to_owned())));

    let result = date_mday("ab");
    assert!(result.is_err());

    let result = date_mday("A2");
    assert!(result.is_err());
}

#[test]
fn test_date_month() {
    assert_eq!(date_month("01"), Ok(("", "01".to_owned())));
    assert_eq!(date_month("12"), Ok(("", "12".to_owned())));
    assert_eq!(date_month("06"), Ok(("", "06".to_owned())));
    assert_eq!(date_month("09"), Ok(("", "09".to_owned())));

    assert_eq!(date_month("02rest"), Ok(("rest", "02".to_owned())));
    assert_eq!(date_month("10-15"), Ok(("-15", "10".to_owned())));

    let result = date_month("");
    assert!(result.is_err());

    let result = date_month("1");
    assert!(result.is_err());

    let result = date_month("123");
    assert_eq!(result, Ok(("3", "12".to_owned())));

    let result = date_month("ab");
    assert!(result.is_err());

    let result = date_month("A2");
    assert!(result.is_err());
}

#[test]
fn test_date_value() {
    assert_eq!(date_value("19970714"), Ok(("", "19970714".to_owned())));

    assert_eq!(date_value("20230101"), Ok(("", "20230101".to_owned())));
    assert_eq!(date_value("19991231"), Ok(("", "19991231".to_owned())));
    assert_eq!(date_value("20000229"), Ok(("", "20000229".to_owned())));

    assert_eq!(
        date_value("20230101rest"),
        Ok(("rest", "20230101".to_owned()))
    );
    assert_eq!(
        date_value("20230101T120000Z"),
        Ok(("T120000Z", "20230101".to_owned()))
    );

    let result = date_value("");
    assert!(result.is_err());

    let result = date_value("2023");
    assert!(result.is_err());

    let result = date_value("202301");
    assert!(result.is_err());

    let result = date_value("2023AB01");
    assert!(result.is_err());

    let result = date_value("202301AB");
    assert!(result.is_err());

    let result = date_value("ABCD0101");
    assert!(result.is_err());

    // the calendar is not checked
    let result = date_value("20231301");
    assert_eq!(result, Ok(("", "20231301".to_owned())));

    let result = date_value("20230132");
    assert_eq!(result, Ok(("", "20230132".to_owned())));

    assert_eq!(date_value("20230101"), Ok(("", "20230101".to_owned())));
    assert_eq!(date_value("20231201"), Ok(("", "20231201".to_owned())));
    assert_eq!(date_value("20230401"), Ok(("", "20230401".to_owned())));
    assert_eq!(date_value("20230430"), Ok(("", "20230430".to_owned())));
    assert_eq!(date_value("20230131"), Ok(("", "20230131".to_owned())));
}

#[test]
fn date_value_any_digits() {
    for (y, m, d) in [("0000", "00", "00"), ("9999", "99", "99"), ("2024", "02", "30")] {
        let s = format!("{}{}{}", y, m, d);
        assert_eq!(date_value(&s), Ok(("", s.clone())));
    }
    assert_eq!(date_value("2023010").unwrap_err().rule, Rule::DateValue);
}

#[test]
fn test_text_with_tsafe_char() {
    let input = "abc";
    let expected = Ok(("", Text("abc".to_owned())));
    assert_eq!(text(input), expected);
}

#[test]
fn test_text_with_colon() {
    let input = ":";
    let expected = Ok(("", Text(":".to_owned())));
    assert_eq!(text(input), expected);
}

#[test]
fn test_text_with_double_quote() {
    let input = "\"";
    let expected = Ok(("", Text("\"".to_owned())));
    assert_eq!(text(input), expected);
}

#[test]
fn test_text_with_escaped_char() {
    // the escape is decoded to the newline it stands for
    let input = "\\n";
    let expected = Ok(("", Text("\n".to_owned())));
    assert_eq!(text(input), expected);
}

#[test]
fn test_text_with_mixed_input() {
    let input = "a:b\"\\n";
    let expected = Ok(("", Text("a:b\"\n".to_owned())));
    assert_eq!(text(input), expected);
}

#[test]
fn text_decodes_every_escape() {
    assert_eq!(
        text(r"a\\b\;c\,d\Ne"),
        Ok(("", Text("a\\b;c,d\ne".to_owned())))
    );
}

#[test]
fn text_stops_before_other_characters() {
    assert_eq!(text("ab;c"), Ok((";c", Text("ab".to_owned()))));
    assert_eq!(text("ab\\xc"), Ok(("\\xc", Text("ab".to_owned()))));
    assert_eq!(text("ab\r\n"), Ok(("\r\n", Text("ab".to_owned()))));
    assert_eq!(text(""), Ok(("", Text("".to_owned()))));
}

#[test]
fn text_round_trip_example() {
    let s = "Plain text - with spaces, no; wait";
    assert_eq!(text("Plain text - with spaces"), Ok(("", Text("Plain text - with spaces".to_owned()))));
    assert_eq!(text(s), Ok((", no; wait", Text("Plain text - with spaces".to_owned()))));
}

#[test]
fn pidvalue_test() {
    let input = "-//ABC Corporation//NONSGML My Product//EN";
    let expected = Ok(("", PropertyValue::Text(Text(input.to_owned()))));
    assert_eq!(pidvalue(input), expected);
}

#[test]
fn cal_address_from_uri_match_splits() {
    let input = "mailto:jane_doe@example.com rest";
    assert_eq!(
        cal_address_from_uri_match(input, Some(27)),
        Ok((
            " rest",
            CalendarUserAddress("mailto:jane_doe@example.com".to_owned())
        ))
    );
    let e = cal_address_from_uri_match("", None).unwrap_err();
    assert_eq!(e.rule, Rule::CalAddress);
    assert_eq!(e.input, "");
}
