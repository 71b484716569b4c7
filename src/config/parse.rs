//! Parsers of configuration values.
use vstd::prelude::*;
use super::ValueParser;

verus! {

/// The value as it stands.
#[derive(Clone, Debug)]
pub struct StringParser {}

impl ValueParser<String> for StringParser {
    fn parse(&self, value: &str) -> (r: Result<String, String>)
        ensures
            r matches Ok(s) && s@ == value@,
    {
        Ok(value.to_owned())
    }
}

/// `true` or `false`.
#[derive(Clone, Debug)]
pub struct BoolParser {}

impl ValueParser<bool> for BoolParser {
    fn parse(&self, value: &str) -> (r: Result<bool, String>)
        ensures
            value@ == "true"@ ==> r == Ok::<bool, String>(true),
            value@ == "false"@ ==> r == Ok::<bool, String>(false),
            value@ != "true"@ && value@ != "false"@ ==> (r matches Err(e) && e@
                == "invalid boolean value: "@ + value@),
    {
        proof {
            reveal_strlit("true");
            reveal_strlit("false");
            assert("true"@.len() != "false"@.len());
        }
        let s = value.to_owned();
        let t = "true".to_owned();
        let f = "false".to_owned();
        if s == t {
            Ok(true)
        } else if s == f {
            Ok(false)
        } else {
            Err("invalid boolean value: ".to_owned().concat(value))
        }
    }
}

/// The number that a text denotes, where it is a decimal number in `0..=65535`.
pub uninterp spec fn parse_u16_of(s: Seq<char>) -> Option<u16>;

/// Relies on `str::parse::<u16>`: the number the text denotes, `None` where it
/// is no decimal number or out of range.
#[verifier::external_body]
fn parse_u16(s: &str) -> (r: Option<u16>)
    ensures
        r == parse_u16_of(s@),
{
    s.parse::<u16>().ok()
}

/// A TCP port number.
#[derive(Clone, Debug)]
pub struct WebPortParser {}

impl ValueParser<u16> for WebPortParser {
    fn parse(&self, value: &str) -> (r: Result<u16, String>)
        ensures
            match parse_u16_of(value@) {
                Some(n) => r == Ok::<u16, String>(n),
                None => r matches Err(e) && e@ == "invalid port number: "@ + value@,
            },
    {
        match parse_u16(value) {
            Some(n) => Ok(n),
            None => Err("invalid port number: ".to_owned().concat(value)),
        }
    }
}

} // verus!
