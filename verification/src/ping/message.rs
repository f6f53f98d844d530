//! The flow-control signals in words.

use crate::ping::server::PingServerError;
use vstd::prelude::*;
use vstd::string::StringExecFns;

verus! {

/// The text of one decimal digit.
pub open spec fn digit_text(digit: nat) -> Seq<char> {
    if digit == 0 {
        "0"@
    } else if digit == 1 {
        "1"@
    } else if digit == 2 {
        "2"@
    } else if digit == 3 {
        "3"@
    } else if digit == 4 {
        "4"@
    } else if digit == 5 {
        "5"@
    } else if digit == 6 {
        "6"@
    } else if digit == 7 {
        "7"@
    } else if digit == 8 {
        "8"@
    } else {
        "9"@
    }
}

/// A number written in decimal, without leading zeros.
pub open spec fn decimal(n: nat) -> Seq<char>
    decreases n,
{
    if n < 10 {
        digit_text(n)
    } else {
        decimal(n / 10) + digit_text(n % 10)
    }
}

/// The text of one decimal digit.
fn digit_str(digit: usize) -> (text: &'static str)
    requires
        digit < 10,
    ensures
        text@ == digit_text(digit as nat),
{
    match digit {
        0 => "0",
        1 => "1",
        2 => "2",
        3 => "3",
        4 => "4",
        5 => "5",
        6 => "6",
        7 => "7",
        8 => "8",
        _ => "9",
    }
}

/// Writes a number in decimal.
fn decimal_string(n: usize) -> (text: String)
    ensures
        text@ == decimal(n as nat),
    decreases n,
{
    if n < 10 {
        digit_str(n).to_owned()
    } else {
        let mut text = decimal_string(n / 10);
        text.append(digit_str(n % 10));
        text
    }
}

impl PingServerError {
    /// What the signal says, in words.
    pub open spec fn spec_message(&self) -> Seq<char> {
        match self {
            PingServerError::IngestFull { read } => "Ingest buffer full after reading "@
                + decimal(*read as nat) + " bytes"@,
            PingServerError::IngestEmpty => "Ingest buffer is empty"@,
            PingServerError::EgressFull => "Egress buffer is full"@,
            PingServerError::Unknown => "Unknown PingServer error"@,
        }
    }

    /// Describes the signal in words, for logs.
    pub fn to_string(&self) -> (text: String)
        ensures
            text@ == self.spec_message(),
    {
        match self {
            PingServerError::IngestFull { read } => {
                let mut text = "Ingest buffer full after reading ".to_owned();
                text.append(decimal_string(*read).as_str());
                text.append(" bytes");
                text
            },
            PingServerError::IngestEmpty => "Ingest buffer is empty".to_owned(),
            PingServerError::EgressFull => "Egress buffer is full".to_owned(),
            PingServerError::Unknown => "Unknown PingServer error".to_owned(),
        }
    }
}

} // verus!
