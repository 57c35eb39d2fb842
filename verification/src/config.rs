//! The configuration of the service, assembled from the values that the
//! environment holds.

use vstd::prelude::*;
use vstd::string::*;
use crate::error::{AppError, ErrorKind};

verus! {

/// The credentials of the Google sign-in.
#[derive(Debug, Clone)]
pub struct GoogleOAuthConfig {
    pub client_id: String,
    pub client_secret: String,
    pub redirect_url: String,
}

/// Everything the service is configured with.
#[derive(Debug, Clone)]
pub struct AppConfig {
    pub database_url: String,
    pub port: u16,
    pub google_oauth: GoogleOAuthConfig,
    pub session_secret: String,
    pub frontend_url: String,
}

/// The port that is used where none is configured.
pub const DEFAULT_PORT: u16 = 3000;

/// The address of the front end where none is configured.
pub open spec fn default_frontend_url() -> Seq<char> {
    "http://localhost:5173"@
}

/// The value of a decimal digit.
pub open spec fn digit_of(c: char) -> Option<int> {
    if '0' <= c <= '9' {
        Some(c as int - '0' as int)
    } else {
        None
    }
}

/// The number that a non-empty run of decimal digits writes.
pub open spec fn decimal_value(s: Seq<char>) -> Option<int>
    decreases s.len(),
{
    if s.len() == 0 {
        None
    } else if s.len() == 1 {
        digit_of(s[0])
    } else {
        match (decimal_value(s.drop_last()), digit_of(s.last())) {
            (Some(v), Some(d)) => Some(10 * v + d),
            _ => None,
        }
    }
}

/// The port that a text writes: decimal digits only, at most 65535.
pub open spec fn spec_parse_port(s: Seq<char>) -> Option<u16> {
    match decimal_value(s) {
        Some(v) => if v <= u16::MAX {
            Some(v as u16)
        } else {
            None
        },
        None => None,
    }
}

/// A number never shrinks when digits follow, and a text that fails to be
/// a number at some length fails at every greater one.
proof fn lemma_prefix(s: Seq<char>, i: int, j: int)
    requires
        1 <= i <= j <= s.len(),
    ensures
        decimal_value(s.take(i)) is None ==> decimal_value(s.take(j)) is None,
        decimal_value(s.take(i)) matches Some(v) ==> v >= 0 && (decimal_value(
            s.take(j),
        ) matches Some(w) ==> w >= v),
    decreases j - i,
{
    lemma_value_nonnegative(s.take(i));
    if i < j {
        lemma_prefix(s, i, j - 1);
        assert(s.take(j).drop_last() =~= s.take(j - 1));
    }
}

/// The number that digits write is never negative.
proof fn lemma_value_nonnegative(s: Seq<char>)
    ensures
        decimal_value(s) matches Some(v) ==> v >= 0,
    decreases s.len(),
{
    if s.len() > 1 {
        lemma_value_nonnegative(s.drop_last());
    }
}

/// Reads a port: decimal digits only, at most 65535.
pub fn parse_port(text: &str) -> (p: Option<u16>)
    ensures
        p == spec_parse_port(text@),
{
    let n = text.unicode_len();
    if n == 0 {
        return None;
    }
    let mut acc: u32 = 0;
    let mut i: usize = 0;
    while i < n
        invariant
            n == text@.len(),
            i <= n,
            acc <= u16::MAX,
            i > 0 ==> decimal_value(text@.take(i as int)) == Some(acc as int),
            i == 0 ==> acc == 0,
        decreases n - i,
    {
        let c = text.get_char(i);
        proof {
            assert(text@.take(i + 1).drop_last() =~= text@.take(i as int));
            assert(text@.take(n as int) =~= text@);
            lemma_prefix(text@, i as int + 1, n as int);
        }
        if c < '0' || c > '9' {
            return None;
        }
        let d: u32 = c as u32 - '0' as u32;
        acc = acc * 10 + d;
        if acc > 65535 {
            return None;
        }
        i += 1;
    }
    proof {
        assert(text@.take(n as int) =~= text@);
    }
    Some(acc as u16)
}

impl AppConfig {
    /// Assembles the configuration from the values of the environment.
    /// Where no port is set the service listens on 3000, and where no
    /// front end is set it is the local one. A port that is not a number
    /// up to 65535 is refused with `Validation`.
    pub fn assemble(
        database_url: String,
        port: Option<String>,
        google_oauth: GoogleOAuthConfig,
        session_secret: String,
        frontend_url: Option<String>,
    ) -> (res: Result<AppConfig, AppError>)
        ensures
            match res {
                Ok(c) => {
                    &&& c.database_url == database_url
                    &&& c.google_oauth == google_oauth
                    &&& c.session_secret == session_secret
                    &&& match port {
                        Some(t) => spec_parse_port(t@) == Some(c.port),
                        None => c.port == DEFAULT_PORT,
                    }
                    &&& c.frontend_url@ == match frontend_url {
                        Some(u) => u@,
                        None => default_frontend_url(),
                    }
                },
                Err(e) => {
                    &&& e.spec_kind() == ErrorKind::Validation
                    &&& port matches Some(t) && spec_parse_port(t@) is None
                },
            },
    {
        let port = match port {
            Some(t) => match parse_port(t.as_str()) {
                Some(p) => p,
                None => {
                    return Err(
                        AppError::Validation("PORT must be a number up to 65535".to_owned()),
                    );
                },
            },
            None => DEFAULT_PORT,
        };
        let frontend_url = match frontend_url {
            Some(u) => u,
            None => "http://localhost:5173".to_owned(),
        };
        Ok(AppConfig { database_url, port, google_oauth, session_secret, frontend_url })
    }
}

} // verus!
