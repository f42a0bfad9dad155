//! The errors of this library.
use crate::bytes::{text_from_bytes, utf8_lossy};
use vstd::string::{StringExecFns, to_string_from_display_ensures};
use prost::DecodeError;
use vstd::prelude::*;

verus! {

/// `std::io::Error`, the error of a failed read, write or connection.
#[verifier::external_type_specification]
#[verifier::external_body]
pub struct ExIoError(std::io::Error);

/// The kinds of I/O error that this library tells apart.
#[derive(Clone, Copy, Debug, PartialEq, Eq, Structural)]
pub enum IoErrorKind {
    /// An argument that cannot be used, such as an empty address list.
    InvalidInput,
    /// A connection that cannot take a request.
    BrokenPipe,
    /// Any other kind.
    Other,
}

/// The kind of an I/O error, as `std::io::Error::kind` gives it, among the
/// kinds this library tells apart: `Other` for all the rest.
pub uninterp spec fn io_error_kind(e: std::io::Error) -> IoErrorKind;

/// An I/O error of the given kind and message, from `std::io::Error::new`,
/// whose documentation says that the error has that kind. Its message is not
/// stated.
#[verifier::external_body]
pub(crate) fn io_error(kind: IoErrorKind, message: &'static str) -> (r: std::io::Error)
    ensures
        io_error_kind(r) == kind,
{
    let k = match kind {
        IoErrorKind::InvalidInput => std::io::ErrorKind::InvalidInput,
        IoErrorKind::BrokenPipe => std::io::ErrorKind::BrokenPipe,
        IoErrorKind::Other => std::io::ErrorKind::Other,
    };
    std::io::Error::new(k, message)
}

/// The character of the decimal digit `d`.
pub open spec fn digit_char(d: nat) -> char {
    (d + 48) as char
}

/// The decimal digits of `n`, without leading zeros.
pub open spec fn decimal(n: nat) -> Seq<char>
    decreases n,
{
    if n < 10 {
        seq![digit_char(n)]
    } else {
        decimal(n / 10).push(digit_char(n % 10))
    }
}

/// The text of a decimal digit.
fn digit_str(d: u8) -> (r: &'static str)
    requires
        d < 10,
    ensures
        r@ == seq![digit_char(d as nat)],
{
    proof {
        reveal_strlit("0");
        reveal_strlit("1");
        reveal_strlit("2");
        reveal_strlit("3");
        reveal_strlit("4");
        reveal_strlit("5");
        reveal_strlit("6");
        reveal_strlit("7");
        reveal_strlit("8");
        reveal_strlit("9");
    }
    if d == 0 {
        "0"
    } else if d == 1 {
        "1"
    } else if d == 2 {
        "2"
    } else if d == 3 {
        "3"
    } else if d == 4 {
        "4"
    } else if d == 5 {
        "5"
    } else if d == 6 {
        "6"
    } else if d == 7 {
        "7"
    } else if d == 8 {
        "8"
    } else {
        "9"
    }
}

/// The decimal text of `n`.
pub fn decimal_string(n: u8) -> (r: String)
    ensures
        r@ == decimal(n as nat),
{
    proof {
        reveal_with_fuel(decimal, 3);
    }
    if n < 10 {
        String::from_str(digit_str(n))
    } else if n < 100 {
        let mut s = String::from_str(digit_str(n / 10));
        s.append(digit_str(n % 10));
        s
    } else {
        let mut s = String::from_str(digit_str(n / 100));
        s.append(digit_str((n / 10) % 10));
        s.append(digit_str(n % 10));
        proof {
            assert((n as nat) / 10 / 10 == (n as nat) / 100);
        }
        s
    }
}

/// The message of a server's error with code `code` and text `data`.
pub open spec fn server_error_text(code: u8, data: Seq<char>) -> Seq<char> {
    "received code "@ + decimal(code as nat) + ", error was: "@ + data
}

/// An error that the server answered with: the code of its reply and the
/// reply's body, read as text.
#[derive(Clone, Debug)]
pub struct ServerError {
    pub code: u8,
    pub data: String,
}

impl ServerError {
    /// The error for a reply with code `error_code` and body `error_data`.
    pub fn new(error_code: u8, error_data: &[u8]) -> (r: ServerError)
        ensures
            r.code == error_code,
            r.data@ == utf8_lossy(error_data@),
    {
        ServerError { code: error_code, data: text_from_bytes(error_data) }
    }

    /// The message of the error: its code and its text.
    pub fn message(&self) -> (r: String)
        ensures
            r@ == server_error_text(self.code, self.data@),
    {
        let mut s = String::from_str("received code ");
        let d = decimal_string(self.code);
        s.append(d.as_str());
        s.append(", error was: ");
        s.append(self.data.as_str());
        s
    }
}

/// The errors that this client and its parts return.
#[derive(Debug)]
pub enum RiakErr {
    /// Reading from or writing to the connection failed, or the connection
    /// cannot be used.
    IoError(std::io::Error),
    /// A reply could not be read as the message it should be.
    ProtobufError(DecodeError),
    /// The server answered with an error.
    ServerError(ServerError),
}

impl RiakErr {
    /// The message of the error: what went wrong, then the message of the
    /// error it holds, as that error's `Display` writes it.
    pub fn message(&self) -> (r: String)
        ensures
            match self {
                RiakErr::IoError(e) => exists|t: String|
                    to_string_from_display_ensures::<std::io::Error>(&e, t) && r@
                        == "error pinging riak: "@ + t@,
                RiakErr::ProtobufError(e) => exists|t: String|
                    to_string_from_display_ensures::<DecodeError>(&e, t) && r@
                        == "connection to riak terminated: "@ + t@,
                RiakErr::ServerError(e) => r@ == "error from server: "@ + server_error_text(
                    e.code,
                    e.data@,
                ),
            },
    {
        match self {
            RiakErr::IoError(e) => {
                let t = e.to_string();
                let mut s = String::from_str("error pinging riak: ");
                s.append(t.as_str());
                s
            },
            RiakErr::ProtobufError(e) => {
                let t = e.to_string();
                let mut s = String::from_str("connection to riak terminated: ");
                s.append(t.as_str());
                s
            },
            RiakErr::ServerError(e) => {
                let t = e.message();
                let mut s = String::from_str("error from server: ");
                s.append(t.as_str());
                s
            },
        }
    }
}

} // verus!
