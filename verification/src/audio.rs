//! The headers of a spoken reply.
use vstd::prelude::*;

use crate::text::push_str;

verus! {

/// The media type of a spoken reply.
pub const AUDIO_CONTENT_TYPE: &'static str = "audio/mpeg";

/// How a spoken reply is offered for download.
pub const AUDIO_DISPOSITION: &'static str = "attachment; filename=response.mp3";

/// A character that may stand in a header name (an HTTP token character).
pub open spec fn token_char(c: char) -> bool {
    ||| ('0' <= c && c <= '9')
    ||| ('a' <= c && c <= 'z')
    ||| ('A' <= c && c <= 'Z')
    ||| c == '!' || c == '#' || c == '$' || c == '%' || c == '&' || c == '\''
    ||| c == '*' || c == '+' || c == '-' || c == '.' || c == '^' || c == '_'
    ||| c == '`' || c == '|' || c == '~'
}

/// Whether `s` is a valid header name: 1 to 65535 token characters.
pub open spec fn valid_header_name(s: Seq<char>) -> bool {
    &&& 0 < s.len() <= 65535
    &&& forall|i: int| 0 <= i < s.len() ==> token_char(#[trigger] s[i])
}

/// Whether `s` is a valid header value: no control character but tab.
pub open spec fn valid_header_value(s: Seq<char>) -> bool {
    forall|i: int| 0 <= i < s.len() ==> (#[trigger] s[i] == '\t' || (' ' <= s[i] && s[i] != '\u{7f}'))
}

/// Whether `s` makes a header name (`http::HeaderName::from_bytes` succeeds on
/// its bytes).
#[verifier::external_body]
fn header_name_ok(s: &str) -> (r: bool)
    ensures
        r == valid_header_name(s@),
{
    axum::http::HeaderName::from_bytes(s.as_bytes()).is_ok()
}

/// Whether `s` makes a header value (`http::HeaderValue::from_str` succeeds).
#[verifier::external_body]
fn header_value_ok(s: &str) -> (r: bool)
    ensures
        r == valid_header_value(s@),
{
    axum::http::HeaderValue::from_str(s).is_ok()
}

/// The (name, value) pairs of headers.
pub open spec fn pair_views(v: Seq<(&str, String)>) -> Seq<(Seq<char>, Seq<char>)> {
    v.map_values(|p: (&str, String)| (p.0@, p.1@))
}

/// The (name, value) pairs of headers.
pub open spec fn owned_pair_views(v: Seq<(String, String)>) -> Seq<(Seq<char>, Seq<char>)> {
    v.map_values(|p: (String, String)| (p.0@, p.1@))
}

/// Whether an extra header is sent: both its name and its value are valid.
pub open spec fn header_sent(h: (Seq<char>, Seq<char>)) -> bool {
    valid_header_name(h.0) && valid_header_value(h.1)
}

/// The extra headers that are sent, in order.
pub open spec fn sent_headers(hs: Seq<(Seq<char>, Seq<char>)>) -> Seq<(Seq<char>, Seq<char>)>
    decreases hs.len(),
{
    if hs.len() == 0 {
        seq![]
    } else if header_sent(hs.last()) {
        sent_headers(hs.drop_last()).push(hs.last())
    } else {
        sent_headers(hs.drop_last())
    }
}

/// `Content-Disposition`, then `,` and the name of each header sent.
pub open spec fn exposed_list(sent: Seq<(Seq<char>, Seq<char>)>) -> Seq<char>
    decreases sent.len(),
{
    if sent.len() == 0 {
        "Content-Disposition"@
    } else {
        exposed_list(sent.drop_last()) + ","@ + sent.last().0
    }
}

/// The headers of a spoken reply beyond its type and disposition.
#[derive(Debug, Clone)]
pub struct AudioHeaders {
    /// The extra headers that are sent, in order.
    pub extra: Vec<(String, String)>,
    /// The headers a browser may read, when that list is a valid value.
    pub expose: Option<String>,
}

/// The extra headers a spoken reply carries: those whose name and value are
/// valid, in order, and the list of the headers a browser may read.
pub fn audio_headers(extra: &Vec<(&str, String)>) -> (r: AudioHeaders)
    ensures
        owned_pair_views(r.extra@) == sent_headers(pair_views(extra@)),
        ({
            let list = exposed_list(sent_headers(pair_views(extra@)));
            &&& valid_header_value(list) ==> (r.expose matches Some(e) && e@ == list)
            &&& !valid_header_value(list) ==> r.expose is None
        }),
{
    let ghost hs = pair_views(extra@);
    let mut sent: Vec<(String, String)> = Vec::new();
    let mut expose = String::new();
    push_str(&mut expose, "Content-Disposition");
    let mut i: usize = 0;
    while i < extra.len()
        invariant
            i <= extra@.len(),
            hs == pair_views(extra@),
            owned_pair_views(sent@) == sent_headers(hs.take(i as int)),
            expose@ == exposed_list(sent_headers(hs.take(i as int))),
        decreases extra@.len() - i,
    {
        let (name, value) = (extra[i].0, &extra[i].1);
        proof {
            assert(hs.take(i + 1).drop_last() =~= hs.take(i as int));
            assert(hs.take(i + 1).last() == (name@, value@));
        }
        if header_name_ok(name) && header_value_ok(value.as_str()) {
            let ghost before = sent@;
            let mut n = String::new();
            push_str(&mut n, name);
            let mut v = String::new();
            push_str(&mut v, value.as_str());
            sent.push((n, v));
            push_str(&mut expose, ",");
            push_str(&mut expose, name);
            assert(owned_pair_views(sent@) =~= owned_pair_views(before).push((name@, value@)));
            assert(sent_headers(hs.take(i as int)).push((name@, value@)).drop_last() =~= sent_headers(
                hs.take(i as int),
            ));
        }
        i = i + 1;
    }
    assert(hs.take(i as int) =~= hs);
    let expose = if header_value_ok(expose.as_str()) {
        Some(expose)
    } else {
        None
    };
    AudioHeaders { extra: sent, expose }
}

} // verus!
