use ical_grammar::{
    calprops, contentline, parameter_map, prodid, ParameterName, ParameterValue, Property,
    PropertyName, PropertyValue, Rule, Text,
};

#[test]
fn prodid_test_valid() {
    let input = "PRODID:-//Example Corp//NONSGML Example//EN\r\n";
    assert_eq!(
        prodid(input),
        Ok((
            "",
            Property(
                PropertyName("PRODID".to_owned()),
                Default::default(),
                PropertyValue::Text(Text("-//Example Corp//NONSGML Example//EN".to_string())),
            )
        ))
    );
}

#[test]
fn prodid_test_invalid() {
    let input = "INVALID:-//Example Corp//NONSGML Example//EN\r\n";
    let result = prodid(input);
    assert!(result.is_err());
}

#[test]
fn prodid_errors() {
    let e = prodid("PRODID:x").unwrap_err();
    assert_eq!(e.rule, Rule::Prodid);
    assert_eq!(e.input, "PRODID:x");
    assert!(prodid("PRODID;X=1:x\r\n").is_err());
}

#[test]
fn prodid_decodes_text() {
    assert_eq!(
        prodid("PRODID:a\\, b\r\n"),
        Ok((
            "",
            Property(
                PropertyName("PRODID".to_owned()),
                vec![],
                PropertyValue::Text(Text("a, b".to_string())),
            )
        ))
    );
}

fn names(list: &[(&str, &[&str])]) -> Vec<(String, Vec<String>)> {
    list.iter()
        .map(|(n, vs)| (n.to_string(), vs.iter().map(|v| v.to_string()).collect()))
        .collect()
}

fn entry(n: &str, vs: &[&str]) -> (ParameterName, ParameterValue) {
    (
        ParameterName(n.to_string()),
        ParameterValue(vs.iter().map(|v| v.to_string()).collect()),
    )
}

#[test]
fn parameter_map_last_one_wins() {
    let list = names(&[("A", &["1"]), ("B", &["2", "3"]), ("A", &["4"])]);
    assert_eq!(
        parameter_map(list),
        vec![entry("A", &["4"]), entry("B", &["2", "3"])]
    );
    assert_eq!(parameter_map(vec![]), vec![]);
}

#[test]
fn parameter_map_of_a_content_line() {
    let (_, (_, params, _)) = contentline("X-A;P=1;Q=2;P=3:v\r\n").unwrap();
    assert_eq!(
        parameter_map(params),
        vec![entry("P", &["3"]), entry("Q", &["2"])]
    );
}

#[test]
fn calprops_reads_property_lines() {
    let input = "PRODID:-//A//B//EN\r\nVERSION:2.0\r\nX-WR-CALNAME;X-P=a;X-P=b:Cal\r\nBEGIN";
    let (rest, props) = calprops(input).unwrap();
    assert_eq!(rest, "BEGIN");
    assert_eq!(
        props,
        vec![
            Property(
                PropertyName("PRODID".to_owned()),
                vec![],
                PropertyValue::Text(Text("-//A//B//EN".to_owned())),
            ),
            Property(
                PropertyName("VERSION".to_owned()),
                vec![],
                PropertyValue::XType("2.0".to_owned()),
            ),
            Property(
                PropertyName("X-WR-CALNAME".to_owned()),
                vec![entry("X-P", &["b"])],
                PropertyValue::XType("Cal".to_owned()),
            ),
        ]
    );
}

#[test]
fn calprops_takes_nothing_from_other_text() {
    assert_eq!(calprops(""), Ok(("", vec![])));
    assert_eq!(calprops(":x\r\n"), Ok((":x\r\n", vec![])));
}
