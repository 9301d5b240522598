//! Parsing of iCalendar content lines, parameters and typed values.
//!
//! Every parser takes the remaining input and returns the decoded token
//! together with the input that it did not consume. A parser that fails
//! consumes nothing: the error carries the input it was given.

pub mod chars;
pub mod error;
pub mod token;
pub mod param;
pub mod line;
pub mod model;
pub mod values;
pub mod property;
pub mod laws;

pub use chars::{b_char, non_us_ascii, qsafe_char, safe_char, tsafe_char, value_char, wsp};
pub use error::{ParseError, Rule};
pub use token::{escaped_char, iana_token, name, param_name, vendorid, x_name};
pub use param::{param, param_value, paramtext, quoted_string};
pub use line::{contentline, line_ending, value};
pub use model::{
    Binary, Boolean, CalendarUserAddress, ParameterName, ParameterValue, Property, PropertyName,
    PropertyValue, Text,
};
pub use values::{
    b_end, binary, boolean, cal_address_from_uri_match, date_fullyear, date_mday, date_month,
    date_value, pidvalue, text,
};
pub use property::{calprops, parameter_map, prodid};
