//! Speech synthesis: which voice speaks, and where it is asked for.
use vstd::prelude::*;

use crate::text::push_str;

verus! {

/// The lower-case form of `s` under Unicode's full case mapping (`str::to_lowercase`).
pub uninterp spec fn unicode_lowercase(s: Seq<char>) -> Seq<char>;

/// `str::to_lowercase`: the Unicode lower-case form of `s`.
#[verifier::external_body]
fn to_lowercase(s: &str) -> (r: String)
    ensures
        r@ == unicode_lowercase(s@),
{
    s.to_lowercase()
}

/// The voice for a lower-cased voice name: Shaun, Antoni, or else Rachel.
pub open spec fn voice_for(lower: Seq<char>) -> Seq<char> {
    if lower == "shaun"@ {
        "mTSvIrm2hmcnOvb21nW2"@
    } else if lower == "antoni"@ {
        "ErXwobaYiN019PkySvjV"@
    } else {
        "21m00Tcm4TlvDq8ikWAM"@
    }
}

/// The voice id for a voice name already in lower case.
pub fn voice_for_lowercase(lower: &str) -> (id: &'static str)
    ensures
        id@ == voice_for(lower@),
{
    if crate::text::str_eq(lower, "shaun") {
        "mTSvIrm2hmcnOvb21nW2"
    } else if crate::text::str_eq(lower, "antoni") {
        "ErXwobaYiN019PkySvjV"
    } else {
        "21m00Tcm4TlvDq8ikWAM"
    }
}

/// The voice id for a voice name, in any letter case.
pub fn voice_id(name: &str) -> (id: &'static str)
    ensures
        id@ == voice_for(unicode_lowercase(name@)),
{
    let lower = to_lowercase(name);
    voice_for_lowercase(lower.as_str())
}

/// The speech endpoint of a voice.
pub fn tts_endpoint(voice: &str) -> (r: String)
    ensures
        r@ == "https://api.elevenlabs.io/v1/text-to-speech/"@ + voice@,
{
    let mut r = String::new();
    push_str(&mut r, "https://api.elevenlabs.io/v1/text-to-speech/");
    push_str(&mut r, voice);
    r
}

} // verus!
