use vstd::prelude::*;

verus! {

/// A property: its name, its parameters, and its value.
///
/// The parameters hold each name at most once (see `ParameterName` and
/// `crate::property::parameter_map`).
#[derive(Debug, Clone, PartialEq)]
pub struct Property(pub PropertyName, pub Vec<(ParameterName, ParameterValue)>, pub PropertyValue);

/// The name of a property, as written.
#[derive(Debug, Clone, PartialEq)]
pub struct PropertyName(pub String);

/// The name of a parameter, as written.
#[derive(Debug, Clone, PartialEq)]
pub struct ParameterName(pub String);

/// The values of a parameter, in order; never empty.
#[derive(Debug, Clone, PartialEq)]
pub struct ParameterValue(pub Vec<String>);

/// A property value, by data type. The types whose meaning is not interpreted
/// here hold the text whose shape was checked.
#[derive(Debug, Clone, PartialEq)]
pub enum PropertyValue {
    Binary(Binary),
    Boolean(bool),
    CalAddress(CalendarUserAddress),
    Date(String),
    DateTime(String),
    Duration(String),
    Float(String),
    Integer(i32),
    Period(String),
    Recur(String),
    Text(Text),
    Time(String),
    Uri(String),
    UtcOffset(String),
    XType(String),
}

/// A text value, with its escapes decoded.
#[derive(Debug, Clone, PartialEq)]
pub struct Text(pub String);

/// A base64 value, kept as the characters that were checked.
#[derive(Debug, Clone, PartialEq)]
pub struct Binary(pub String);

#[derive(Debug, Clone, Copy, PartialEq, Eq, Structural)]
pub enum Boolean {
    False,
    True,
}

/// A calendar user address: the text of a URI.
#[derive(Debug, Clone, PartialEq)]
pub struct CalendarUserAddress(pub String);

} // verus!
