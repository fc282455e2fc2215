//! Error taxonomy and its mapping to HTTP statuses and human-readable
//! messages. This is the single place where an internal failure becomes a
//! `{status, message}` pair.

use vstd::prelude::*;
use vstd::string::StringExecFns;

verus! {

/// Every failure this core can signal.
#[derive(Debug)]
pub enum Error {
    /// No or invalid credential.
    Unauthorized,
    /// Malformed input, such as a bad id format or an empty required field;
    /// carries the message shown to the caller.
    ValidationError(String),
    /// No matching resource under the ownership scope.
    NotFound,
    /// The third-party dependency answered with a non-success status or its
    /// answer was unreadable; carries the upstream status and body text.
    UpstreamFailure(u16, String),
    /// The persistence layer failed.
    StoreFailure,
}

/// The decimal digit `d` as a character; meaningful for `0 <= d < 10`.
pub open spec fn digit_char(d: int) -> char
    recommends
        0 <= d < 10,
{
    if d == 0 {
        '0'
    } else if d == 1 {
        '1'
    } else if d == 2 {
        '2'
    } else if d == 3 {
        '3'
    } else if d == 4 {
        '4'
    } else if d == 5 {
        '5'
    } else if d == 6 {
        '6'
    } else if d == 7 {
        '7'
    } else if d == 8 {
        '8'
    } else {
        '9'
    }
}

/// The usual decimal rendering of `n`, without leading zeroes (except for
/// `n == 0` itself); meaningful for `n >= 0`.
pub open spec fn spec_decimal(n: int) -> Seq<char>
    recommends
        n >= 0,
    decreases n,
{
    if n < 10 {
        seq![digit_char(n)]
    } else {
        spec_decimal(n / 10).push(digit_char(n % 10))
    }
}

/// The one-character string for a single decimal digit.
fn digit_str(d: u16) -> (s: &'static str)
    requires
        d < 10,
    ensures
        s@ == seq![digit_char(d as int)],
{
    proof {
        reveal_strlit("0");
        reveal_strlit("1");
        reveal_strlit("2");
        reveal_strlit("3");
        reveal_strlit("4");
        reveal_strlit("5");
        reveal_strlit("6");
        reveal_strlit("7");
        reveal_strlit("8");
        reveal_strlit("9");
    }
    let s: &'static str = if d == 0 {
        "0"
    } else if d == 1 {
        "1"
    } else if d == 2 {
        "2"
    } else if d == 3 {
        "3"
    } else if d == 4 {
        "4"
    } else if d == 5 {
        "5"
    } else if d == 6 {
        "6"
    } else if d == 7 {
        "7"
    } else if d == 8 {
        "8"
    } else {
        "9"
    };
    proof {
        assert(s@ =~= seq![digit_char(d as int)]);
    }
    s
}

/// Renders `n` in decimal.
pub fn u16_decimal(n: u16) -> (s: String)
    ensures
        s@ == spec_decimal(n as int),
    decreases n,
{
    if n < 10 {
        String::from_str(digit_str(n))
    } else {
        let rest = u16_decimal(n / 10);
        let s = rest.concat(digit_str(n % 10));
        proof {
            assert(s@ =~= spec_decimal(n as int));
        }
        s
    }
}

impl Error {
    /// The HTTP status this failure maps to.
    pub open spec fn spec_status(&self) -> int {
        match self {
            Error::Unauthorized => 401,
            Error::ValidationError(_) => 400,
            Error::NotFound => 404,
            Error::UpstreamFailure(_, _) => 502,
            Error::StoreFailure => 500,
        }
    }

    /// The human-readable message shown to the caller.
    pub open spec fn spec_message(&self) -> Seq<char> {
        match self {
            Error::Unauthorized => "unauthorized"@,
            Error::ValidationError(m) => m@,
            Error::NotFound => "not found"@,
            Error::UpstreamFailure(status, body) => "Received a "@ + spec_decimal(
                *status as int,
            ) + " error: "@ + body@,
            Error::StoreFailure => "store failure"@,
        }
    }

    /// Maps this failure to its HTTP status code.
    pub fn status_code(&self) -> (s: u16)
        ensures
            s as int == self.spec_status(),
    {
        match self {
            Error::Unauthorized => 401,
            Error::ValidationError(_) => 400,
            Error::NotFound => 404,
            Error::UpstreamFailure(_, _) => 502,
            Error::StoreFailure => 500,
        }
    }

    /// Builds the message shown to the caller.
    pub fn message(&self) -> (m: String)
        ensures
            m@ == self.spec_message(),
    {
        match self {
            Error::Unauthorized => String::from_str("unauthorized"),
            Error::ValidationError(msg) => msg.clone(),
            Error::NotFound => String::from_str("not found"),
            Error::UpstreamFailure(status, body) => {
                let m = String::from_str("Received a ").concat(
                    u16_decimal(*status).as_str(),
                ).concat(" error: ").concat(body.as_str());
                proof {
                    assert(m@ =~= self.spec_message());
                }
                m
            },
            Error::StoreFailure => String::from_str("store failure"),
        }
    }
}

} // verus!
