//! Typed values out of attribute text: an IP address, a port number.

use vstd::prelude::*;
use vstd::string::StringExecFns;
use crate::model::{ConfigError, ConfigErrorView, IpAddress};

verus! {

/// What std's parser of IP addresses makes of a text: the address, in either
/// version's textual form, or the parser's own description of the failure.
pub uninterp spec fn ip_of_text(text: Seq<char>) -> Result<IpAddress, Seq<char>>;

/// How std's parser of 16-bit unsigned integers describes its failure on a
/// text that is no such number.
pub uninterp spec fn u16_failure(text: Seq<char>) -> Seq<char>;

/// Every character is a decimal digit.
pub open spec fn all_digits(digits: Seq<char>) -> bool {
    forall|i: int| 0 <= i < digits.len() ==> '0' <= #[trigger] digits[i] <= '9'
}

/// The number that decimal digits write, the first digit counting most.
pub open spec fn digits_value(digits: Seq<char>) -> nat
    decreases digits.len(),
{
    if digits.len() == 0 {
        0
    } else {
        digits_value(digits.drop_last()) * 10 + (digits.last() as nat - '0' as nat) as nat
    }
}

/// A text without the plus sign that may stand before a number.
pub open spec fn unsigned_part(text: Seq<char>) -> Seq<char> {
    if text.len() > 0 && text[0] == '+' {
        text.skip(1)
    } else {
        text
    }
}

/// The 16-bit number that a text writes in decimal: at least one digit and
/// nothing but digits, after an optional plus sign, with a value of at most
/// 65535. Any other text writes none.
pub open spec fn decimal_u16(text: Seq<char>) -> Option<u16> {
    let digits = unsigned_part(text);
    if digits.len() > 0 && all_digits(digits) && digits_value(digits) <= u16::MAX {
        Some(digits_value(digits) as u16)
    } else {
        None
    }
}

/// What the parser of port numbers makes of a text: the number, or the
/// description of the failure.
pub open spec fn u16_of_text(text: Seq<char>) -> Result<u16, Seq<char>> {
    match decimal_u16(text) {
        Some(n) => Ok(n),
        None => Err(u16_failure(text)),
    }
}

/// The name under which a failed address is reported.
pub open spec fn ip_type_name() -> Seq<char> {
    "IpAddr"@
}

/// The name under which a failed port number is reported.
pub open spec fn port_type_name() -> Seq<char> {
    "u16"@
}

/// Calls `str::parse` for `IpAddr`. The contract names the outcome
/// `ip_of_text`: it depends on the text alone. The address comes back as its
/// octets or segments, a failure as the text of std's error.
#[verifier::external_body]
fn ip_from_text(text: &str) -> (res: Result<IpAddress, String>)
    ensures
        match res {
            Ok(ip) => ip_of_text(text@) == Ok::<IpAddress, Seq<char>>(ip),
            Err(cause) => ip_of_text(text@) == Err::<IpAddress, Seq<char>>(cause@),
        },
{
    match text.parse::<core::net::IpAddr>() {
        Ok(core::net::IpAddr::V4(a)) => Ok(IpAddress::V4 { octets: a.octets() }),
        Ok(core::net::IpAddr::V6(a)) => Ok(IpAddress::V6 { segments: a.segments() }),
        Err(e) => Err(e.to_string()),
    }
}

/// Calls `str::parse` for `u16`. As std documents it, the text is a number if
/// it is an optional plus sign followed by decimal digits only, at least one,
/// and the value fits; the contract says so through `decimal_u16`. A failure
/// comes back as the text of std's error, which the contract names
/// `u16_failure`: it depends on the text alone.
#[verifier::external_body]
fn u16_from_text(text: &str) -> (res: Result<u16, String>)
    ensures
        match res {
            Ok(n) => decimal_u16(text@) == Some(n),
            Err(cause) => decimal_u16(text@) is None && cause@ == u16_failure(text@),
        },
{
    match text.parse::<u16>() {
        Ok(n) => Ok(n),
        Err(e) => Err(e.to_string()),
    }
}

/// The address that a text stands for, or the parse error that reports the
/// text, the target's name and the cause.
pub open spec fn ip_value(text: Seq<char>) -> Result<IpAddress, ConfigErrorView> {
    typed_ip(text, ip_of_text(text))
}

/// What becomes of a parser's outcome for an address.
pub open spec fn typed_ip(text: Seq<char>, parsed: Result<IpAddress, Seq<char>>) -> Result<
    IpAddress,
    ConfigErrorView,
> {
    match parsed {
        Ok(ip) => Ok(ip),
        Err(cause) => Err(
            ConfigErrorView::ParseError { input: text, to: ip_type_name(), cause },
        ),
    }
}

/// The port that a text stands for, or the parse error that reports the text,
/// the target's name and the cause.
pub open spec fn port_value(text: Seq<char>) -> Result<u16, ConfigErrorView> {
    typed_port(text, u16_of_text(text))
}

/// What becomes of a parser's outcome for a port number.
pub open spec fn typed_port(text: Seq<char>, parsed: Result<u16, Seq<char>>) -> Result<
    u16,
    ConfigErrorView,
> {
    match parsed {
        Ok(n) => Ok(n),
        Err(cause) => Err(
            ConfigErrorView::ParseError { input: text, to: port_type_name(), cause },
        ),
    }
}

/// The view of an outcome whose error is a configuration error.
pub open spec fn config_result_view<T>(r: Result<T, ConfigError>) -> Result<T, ConfigErrorView> {
    match r {
        Ok(v) => Ok(v),
        Err(e) => Err(e@),
    }
}

/// Wraps a failed conversion of an address into the error that names it.
pub fn ip_outcome(text: &String, parsed: Result<IpAddress, String>) -> (res: Result<
    IpAddress,
    ConfigError,
>)
    ensures
        config_result_view(res) == typed_ip(
            text@,
            match parsed {
                Ok(ip) => Ok(ip),
                Err(c) => Err(c@),
            },
        ),
{
    match parsed {
        Ok(ip) => Ok(ip),
        Err(cause) => Err(
            ConfigError::ParseError { input: text.clone(), to: String::from_str("IpAddr"), cause },
        ),
    }
}

/// Wraps a failed conversion of a port number into the error that names it.
pub fn port_outcome(text: &String, parsed: Result<u16, String>) -> (res: Result<u16, ConfigError>)
    ensures
        config_result_view(res) == typed_port(
            text@,
            match parsed {
                Ok(n) => Ok(n),
                Err(c) => Err(c@),
            },
        ),
{
    match parsed {
        Ok(n) => Ok(n),
        Err(cause) => Err(
            ConfigError::ParseError { input: text.clone(), to: String::from_str("u16"), cause },
        ),
    }
}

/// Reads an attribute's text as an IP address, version 4 or 6.
pub fn parse_ip(text: &String) -> (res: Result<IpAddress, ConfigError>)
    ensures
        config_result_view(res) == ip_value(text@),
{
    ip_outcome(text, ip_from_text(text.as_str()))
}

/// Reads an attribute's text as a port number, 0 to 65535.
pub fn parse_port(text: &String) -> (res: Result<u16, ConfigError>)
    ensures
        config_result_view(res) == port_value(text@),
{
    port_outcome(text, u16_from_text(text.as_str()))
}

} // verus!
