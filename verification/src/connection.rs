//! How a database is reached.

use crate::text::{decimal_digits, push_unsigned};
use vstd::prelude::*;
use vstd::string::*;

verus! {

/// Where a database is and who asks for it.
#[derive(Clone, Debug)]
pub struct ConnectionConfig {
    pub host: String,
    pub port: u16,
    pub database: String,
    pub username: String,
    pub password: String,
}

/// What became of an attempt to connect.
#[derive(Clone, Debug)]
pub struct ConnectionStatus {
    pub id: String,
    pub connected: bool,
    pub database: String,
    pub host: String,
    pub error: Option<String>,
}

/// The bytes that stand for themselves in a percent-encoded text: ASCII
/// letters and digits, `-`, `.`, `_` and `~`.
pub open spec fn is_unreserved(b: u8) -> bool {
    ||| 0x30 <= b <= 0x39
    ||| 0x41 <= b <= 0x5a
    ||| 0x61 <= b <= 0x7a
    ||| b == 0x2d
    ||| b == 0x2e
    ||| b == 0x5f
    ||| b == 0x7e
}

/// The upper-case hexadecimal digit for `d`.
pub open spec fn hex_digit(d: int) -> char {
    if d < 10 {
        (0x30 + d) as char
    } else {
        (0x41 + d - 10) as char
    }
}

/// The percent-encoding of a sequence of bytes: an unreserved byte as the
/// character it is, any other as `%` and its two hexadecimal digits.
pub open spec fn percent_encoded(bytes: Seq<u8>) -> Seq<char>
    decreases bytes.len(),
{
    if bytes.len() == 0 {
        Seq::empty()
    } else if is_unreserved(bytes.last()) {
        percent_encoded(bytes.drop_last()).push(bytes.last() as char)
    } else {
        percent_encoded(bytes.drop_last()).push('%').push(hex_digit(bytes.last() as int / 16)).push(
            hex_digit(bytes.last() as int % 16),
        )
    }
}

/// `urlencoding::encode`: the UTF-8 bytes of the text, each byte that is no
/// ASCII letter, digit, `-`, `.`, `_` or `~` replaced by `%` and its two
/// upper-case hexadecimal digits.
#[verifier::external_body]
fn url_encode(s: &str) -> (r: String)
    ensures
        r@ == percent_encoded(vstd::utf8::encode_utf8(s@)),
{
    urlencoding::encode(s).into_owned()
}

impl ConnectionConfig {
    /// The address of the database as one text.
    pub open spec fn connection_text(self) -> Seq<char> {
        "postgres://"@ + percent_encoded(vstd::utf8::encode_utf8(self.username@)) + ":"@
            + percent_encoded(vstd::utf8::encode_utf8(self.password@)) + "@"@ + self.host@ + ":"@
            + decimal_digits(self.port as nat) + "/"@ + self.database@ + "?sslmode=require"@
    }

    /// The address of the database as one text: user name and password
    /// percent-encoded, encryption demanded.
    pub fn connection_string(&self) -> (r: String)
        ensures
            r@ == self.connection_text(),
    {
        let user = url_encode(self.username.as_str());
        let password = url_encode(self.password.as_str());
        let mut out = String::from_str("postgres://");
        out.append(user.as_str());
        out.append(":");
        out.append(password.as_str());
        out.append("@");
        out.append(self.host.as_str());
        out.append(":");
        push_unsigned(&mut out, self.port as u64);
        out.append("/");
        out.append(self.database.as_str());
        out.append("?sslmode=require");
        out
    }
}

} // verus!
