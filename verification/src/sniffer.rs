//! The card-number leak detector of the network sniffer and HTTP proxy:
//! which text of a packet or request body is scanned, and what is reported.
use vstd::prelude::*;
use vstd::utf8::*;
use crate::text::{str_from_utf8, utf8_lossy, lossy_utf8, push_str};
use crate::dlp::{regex_valid, regex_match_texts, regex_compiles, regex_find_all};

verus! {

/// Four groups of four digits, optionally separated by `-` or a space,
/// standing as a whole word.
pub const CARD_PATTERN: &'static str = "\\b\\d{4}[- ]?\\d{4}[- ]?\\d{4}[- ]?\\d{4}\\b";

/// The fragments of a text that look like card numbers, in order; `None`
/// only if the pattern does not compile.
pub fn inspect_data(data: &str) -> (r: Option<Vec<String>>)
    ensures
        r is Some <==> regex_valid(CARD_PATTERN@),
        r matches Some(v) ==> v@.map_values(|s: String| s@) == regex_match_texts(CARD_PATTERN@, data@),
{
    if !regex_compiles(CARD_PATTERN) {
        return None;
    }
    Some(regex_find_all(CARD_PATTERN, data))
}

/// Where scanned text came from.
#[derive(Clone, Copy, PartialEq, Eq, Structural, Debug)]
pub enum SniffSource {
    /// The whole packet is valid UTF-8.
    Text,
    /// The packet's lossy UTF-8 text, long enough to be worth scanning.
    Lossy,
}

/// Lossy texts of at most this many bytes are not scanned.
pub const MIN_LOSSY_LEN: usize = 40;

/// The text of a captured packet to scan: the packet itself when it is
/// valid UTF-8; otherwise its lossy text when that is longer than
/// `MIN_LOSSY_LEN` bytes; otherwise nothing.
pub fn sniffed_text(packet: &[u8]) -> (r: Option<(SniffSource, String)>)
    ensures
        valid_utf8(packet@) ==> (r matches Some((src, t)) && src == SniffSource::Text && t@ == decode_utf8(packet@)),
        !valid_utf8(packet@) && encode_utf8(lossy_utf8(packet@)).len() > MIN_LOSSY_LEN ==> (r matches Some((src, t))
            && src == SniffSource::Lossy && t@ == lossy_utf8(packet@)),
        !valid_utf8(packet@) && encode_utf8(lossy_utf8(packet@)).len() <= MIN_LOSSY_LEN ==> r is None,
{
    match str_from_utf8(packet) {
        Some(t) => {
            let mut s = String::new();
            push_str(&mut s, t);
            Some((SniffSource::Text, s))
        },
        None => {
            let lossy = utf8_lossy(packet);
            if lossy.as_str().as_bytes().len() > MIN_LOSSY_LEN {
                Some((SniffSource::Lossy, lossy))
            } else {
                None
            }
        },
    }
}

/// The context under which a proxied request body is reported.
pub fn proxy_context(uri: &str) -> (r: String)
    ensures
        r@ == "HTTP Proxy Request to "@ + uri@,
{
    let mut s = String::new();
    push_str(&mut s, "HTTP Proxy Request to ");
    push_str(&mut s, uri);
    s
}

/// The proxy's reply: 400 when the body could not be read, 200 otherwise.
pub fn proxy_response(body_read: bool) -> (r: (u16, &'static str))
    ensures
        body_read ==> r.0 == 200 && r.1@ == "data successfully processed by the DLP proxy"@,
        !body_read ==> r.0 == 400 && r.1@ == "Error reading request body"@,
{
    if body_read {
        (200, "data successfully processed by the DLP proxy")
    } else {
        (400, "Error reading request body")
    }
}

} // verus!
