//! The monitor's configuration: a username, a password, a host name,
//! and an optional port. The driver reads the raw values from its
//! environment; everything after that is decided here.

use vstd::prelude::*;

use crate::text::{digit_val, digits_val, is_digit, is_digit_char};

verus! {

/// The settings a run needs to reach and authenticate with the host.
#[derive(Debug)]
pub struct Config {
    pub username: String,
    pub password: String,
    pub host: String,
    pub port: u16,
}

/// Why a set of raw settings was rejected, naming the first fault in
/// the order the settings are read.
#[derive(Debug, PartialEq, Eq, Structural)]
pub enum ConfigError {
    MissingUsername,
    MissingPassword,
    MissingHost,
    InvalidPort,
}

/// The port used when none is configured.
pub const DEFAULT_PORT: u16 = 22;

/// The digits of a port text, an optional leading plus sign dropped.
pub open spec fn port_digits(s: Seq<char>) -> Seq<char> {
    if s.len() > 0 && s[0] == '+' {
        s.skip(1)
    } else {
        s
    }
}

/// A port text: an optional plus sign, then at least one decimal
/// digit, denoting a value that fits in sixteen bits.
pub open spec fn is_valid_port(s: Seq<char>) -> bool {
    let d = port_digits(s);
    &&& d.len() > 0
    &&& forall|j: int| 0 <= j < d.len() ==> is_digit(d[j])
    &&& digits_val(d) <= 65535
}

/// The number a port text denotes.
pub open spec fn port_value(s: Seq<char>) -> nat {
    digits_val(port_digits(s))
}

proof fn lemma_digits_val_take_succ(d: Seq<char>, j: int)
    requires
        0 <= j < d.len(),
    ensures
        digits_val(d.take(j + 1)) == digits_val(d.take(j)) * 10 + digit_val(d[j]),
{
    let u = d.take(j + 1);
    assert(u.drop_last() =~= d.take(j));
    assert(u.last() == d[j]);
}

proof fn lemma_digits_val_prefix_le(d: Seq<char>, i: int)
    requires
        0 <= i <= d.len(),
    ensures
        digits_val(d.take(i)) <= digits_val(d),
    decreases d.len(),
{
    if i == d.len() {
        assert(d.take(i) =~= d);
    } else {
        let u = d.drop_last();
        assert(u.take(i) =~= d.take(i));
        lemma_digits_val_prefix_le(u, i);
        assert(digits_val(d) == digits_val(u) * 10 + digit_val(d.last()));
        assert(digits_val(u) * 10 >= digits_val(u));
    }
}

/// Parse a port text; `None` when it is not a port text.
pub fn parse_port(s: &str) -> (r: Option<u16>)
    ensures
        r matches Some(v) ==> is_valid_port(s@) && v as nat == port_value(s@),
        r is None ==> !is_valid_port(s@),
{
    let n = s.unicode_len();
    let mut i: usize = 0;
    if n > 0 && s.get_char(0) == '+' {
        i = 1;
    }
    let sign_len = i;
    let ghost d = port_digits(s@);
    proof {
        assert(d =~= s@.skip(sign_len as int));
    }
    if i == n {
        return None;
    }
    let mut acc: u32 = 0;
    while i < n
        invariant
            sign_len <= i <= n,
            n == s@.len(),
            d == s@.skip(sign_len as int),
            d == port_digits(s@),
            forall|j: int| 0 <= j < i - sign_len ==> is_digit(d[j]),
            acc as nat == digits_val(d.take(i - sign_len)),
            acc <= 65535,
        decreases n - i,
    {
        let c = s.get_char(i);
        if !is_digit_char(c) {
            proof {
                assert(!is_digit(d[i - sign_len]));
            }
            return None;
        }
        let dv = c as u32 - 48;
        proof {
            lemma_digits_val_take_succ(d, i - sign_len);
        }
        let next = acc * 10 + dv;
        if next > 65535 {
            proof {
                lemma_digits_val_prefix_le(d, i + 1 - sign_len);
            }
            return None;
        }
        acc = next;
        i += 1;
    }
    proof {
        assert(d.take(n - sign_len) =~= d);
    }
    Some(acc as u16)
}

/// Validate the raw settings, defaulting the port, and name the first
/// missing or malformed one.
pub fn build_config(
    username: Option<String>,
    password: Option<String>,
    host: Option<String>,
    port_text: Option<String>,
) -> (r: Result<Config, ConfigError>)
    ensures
        username is None ==> r == Err::<Config, ConfigError>(ConfigError::MissingUsername),
        username is Some && password is None ==> r == Err::<Config, ConfigError>(
            ConfigError::MissingPassword,
        ),
        username is Some && password is Some && host is None ==> r == Err::<Config, ConfigError>(
            ConfigError::MissingHost,
        ),
        username is Some && password is Some && host is Some && port_text is Some
            && !is_valid_port(port_text->0@) ==> r == Err::<Config, ConfigError>(
            ConfigError::InvalidPort,
        ),
        username is Some && password is Some && host is Some && (port_text is None
            || is_valid_port(port_text->0@)) ==> {
            &&& r is Ok
            &&& r->Ok_0.username == username->0
            &&& r->Ok_0.password == password->0
            &&& r->Ok_0.host == host->0
            &&& (port_text is None ==> r->Ok_0.port == DEFAULT_PORT)
            &&& (port_text is Some ==> r->Ok_0.port as nat == port_value(port_text->0@))
        },
{
    let username = match username {
        Some(u) => u,
        None => {
            return Err(ConfigError::MissingUsername);
        },
    };
    let password = match password {
        Some(p) => p,
        None => {
            return Err(ConfigError::MissingPassword);
        },
    };
    let host = match host {
        Some(h) => h,
        None => {
            return Err(ConfigError::MissingHost);
        },
    };
    let port = match port_text {
        Some(t) => match parse_port(t.as_str()) {
            Some(p) => p,
            None => {
                return Err(ConfigError::InvalidPort);
            },
        },
        None => DEFAULT_PORT,
    };
    Ok(Config { username, password, host, port })
}

} // verus!
