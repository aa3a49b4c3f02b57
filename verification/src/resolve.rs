//! Resolution of the effective client address.
//!
//! When a trusted header is configured, its value — and only its value
//! — names the client: a missing header, a value that is not header
//! text, or text that is not an IP address is an error, never a silent
//! fallback.  When no trusted header is configured, the client is the
//! transport-level peer address, whatever headers the request carries.

use vstd::prelude::*;

use crate::headers::{Headers, spec_lookup, visible_ascii, value_is_text};
use crate::ip::IpAddress;
use crate::parse::{parse_ip, spec_parse_ip};

verus! {

/// Why no client address could be resolved.
#[derive(Clone, Copy, Debug, PartialEq, Eq, Structural)]
pub enum Error {
    /// A trusted header is configured but the request does not carry it.
    MissingTrustedHeader,
    /// The header's value holds bytes that are not header text.
    InvalidHeaderEncoding,
    /// The header's text is not an IP address.
    InvalidIpFormat,
}

/// A character allowed in a header name.
pub open spec fn valid_header_name_char(c: char) -> bool {
    ('a' <= c <= 'z') || ('A' <= c <= 'Z') || ('0' <= c <= '9') || c == '!' || c == '#' || c == '$'
        || c == '%' || c == '&' || c == '\'' || c == '*' || c == '+' || c == '-' || c == '.' || c
        == '^' || c == '_' || c == '`' || c == '|' || c == '~'
}

/// A well-formed header name: nonempty, all characters allowed.
pub open spec fn valid_header_name(s: Seq<char>) -> bool {
    s.len() > 0 && forall|i: int| 0 <= i < s.len() ==> valid_header_name_char(s[i])
}

/// The bytes that a sequence of ASCII characters stands for.
pub open spec fn bytes_of_chars(s: Seq<char>) -> Seq<u8> {
    s.map(|i: int, c: char| c as u8)
}

/// The configuration the service is started with: the name of the
/// trusted header, when one is configured.  Immutable once built.
#[derive(Debug)]
pub struct AppState {
    header: Option<Vec<u8>>,
}

impl AppState {
    /// The configured trusted header name, as bytes.
    pub closed spec fn trusted_header(&self) -> Option<Seq<u8>> {
        match self.header {
            None => None,
            Some(v) => Some(v@),
        }
    }

    /// Builds the configuration.  A configured name must be a
    /// well-formed header name.
    pub fn new(client_ip_name: Option<String>) -> (r: AppState)
        requires
            client_ip_name matches Some(s) ==> valid_header_name(s@),
        ensures
            r.trusted_header() == match client_ip_name {
                None => None::<Seq<u8>>,
                Some(s) => Some(bytes_of_chars(s@)),
            },
    {
        match client_ip_name {
            None => AppState { header: None },
            Some(s) => {
                let ss = s.as_str();
                proof {
                    assert(vstd::string::is_ascii(ss)) by {
                        assert(forall|i: int| 0 <= i < ss@.len() ==> valid_header_name_char(
                            #[trigger] ss@[i]));
                    }
                    vstd::string::is_ascii_spec_bytes(ss);
                }
                let v = ss.as_bytes_vec();
                proof {
                    assert(v@ =~= bytes_of_chars(s@));
                }
                AppState { header: Some(v) }
            },
        }
    }
}

/// What resolution returns: the decision tree of the handler.
pub open spec fn spec_get_ip(addr: IpAddress, hs: Seq<(Seq<u8>, Seq<u8>)>, name: Option<Seq<u8>>)
    -> Result<IpAddress, Error> {
    match name {
        None => Ok(addr),
        Some(n) => match spec_lookup(hs, n) {
            None => Err(Error::MissingTrustedHeader),
            Some(v) => if !visible_ascii(v) {
                Err(Error::InvalidHeaderEncoding)
            } else {
                match spec_parse_ip(v) {
                    None => Err(Error::InvalidIpFormat),
                    Some(ip) => Ok(ip),
                }
            },
        },
    }
}

/// Resolves the client address: from the trusted header when one is
/// configured, else from the peer address.  The clauses after the
/// first restate the decision tree one case at a time: a well-formed
/// header value resolves to exactly the address it spells; with no
/// trusted header configured the peer address is returned whatever the
/// headers say; a missing header, a value that is not text, and text
/// that is no address each yield their own error, and nothing else
/// does.
pub fn get_ip(addr: IpAddress, headers: &Headers, state: &AppState) -> (r: Result<IpAddress, Error>)
    ensures
        r == spec_get_ip(addr, headers@, state.trusted_header()),
        state.trusted_header() is None ==> r == Ok::<IpAddress, Error>(addr),
        (state.trusted_header() matches Some(n) && spec_lookup(headers@, n) is None) ==> r
            == Err::<IpAddress, Error>(Error::MissingTrustedHeader),
        (state.trusted_header() matches Some(n) && spec_lookup(headers@, n) matches Some(v)
            && !visible_ascii(v)) ==> r == Err::<IpAddress, Error>(Error::InvalidHeaderEncoding),
        (state.trusted_header() matches Some(n) && spec_lookup(headers@, n) matches Some(v)
            && visible_ascii(v) && spec_parse_ip(v) is None) ==> r == Err::<IpAddress, Error>(
            Error::InvalidIpFormat),
        forall|ip: IpAddress|
            (state.trusted_header() matches Some(n) && spec_lookup(headers@, n) matches Some(v)
                && visible_ascii(v) && spec_parse_ip(v) == Some(ip)) ==> r == Ok::<IpAddress,
                Error>(ip),
{
    match &state.header {
        None => Ok(addr),
        Some(name) => match headers.get(name.as_slice()) {
            None => Err(Error::MissingTrustedHeader),
            Some(value) => {
                if !value_is_text(value.as_slice()) {
                    Err(Error::InvalidHeaderEncoding)
                } else {
                    match parse_ip(value.as_slice()) {
                        None => Err(Error::InvalidIpFormat),
                        Some(ip) => Ok(ip),
                    }
                }
            },
        },
    }
}

} // verus!
