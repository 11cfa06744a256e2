//! Names of accounts in a credential store.

use vstd::prelude::*;
use vstd::string::*;

use crate::config::ConfigView;
use crate::config::ConnectionConfig;
use crate::text::chars_of;
use crate::text::contains_char;
use crate::text::decimal_text;
use crate::text::joined3;

verus! {

/// `host:port`, with brackets around an address that holds colons and has none.
pub open spec fn endpoint_text(host: Seq<char>, port: u16) -> Seq<char> {
    let bracketed = host.len() > 0 && host[0] == '[' && host.last() == ']';
    if host.contains(':') && !bracketed {
        "["@ + host + "]:"@ + crate::text::decimal(port as nat)
    } else {
        host + ":"@ + crate::text::decimal(port as nat)
    }
}

pub fn endpoint(host: &str, port: u16) -> (r: String)
    ensures
        r@ == endpoint_text(host@, port),
{
    let chars = chars_of(host);
    let bracketed = chars.len() > 0 && chars[0] == '[' && chars[chars.len() - 1] == ']';
    let number = decimal_text(port as u64);
    if contains_char(host, ':') && !bracketed {
        let head = joined3("[", host, "]:");
        crate::text::joined(head.as_str(), number.as_str())
    } else {
        joined3(host, ":", number.as_str())
    }
}

/// `user@host:port`
pub open spec fn account_text(config: ConfigView) -> Seq<char> {
    config.username + "@"@ + endpoint_text(config.host, config.port)
}

/// The account under which the secret of a connection is kept.
pub fn account_name(config: &ConnectionConfig) -> (r: String)
    ensures
        r@ == account_text(config@),
{
    let place = endpoint(config.host.as_str(), config.port);
    joined3(config.username.as_str(), "@", place.as_str())
}

} // verus!
