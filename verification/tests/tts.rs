use azurejay::tts::{tts_endpoint, voice_for_lowercase, voice_id};

#[test]
fn voices() {
    assert_eq!(voice_id("rachel"), "21m00Tcm4TlvDq8ikWAM");
    assert_eq!(voice_id("SHAUN"), "mTSvIrm2hmcnOvb21nW2");
    assert_eq!(voice_id("Antoni"), "ErXwobaYiN019PkySvjV");
    assert_eq!(voice_id("nobody"), "21m00Tcm4TlvDq8ikWAM");
    assert_eq!(voice_for_lowercase("Shaun"), "21m00Tcm4TlvDq8ikWAM");
    assert_eq!(voice_for_lowercase("shaun"), "mTSvIrm2hmcnOvb21nW2");
}

#[test]
fn endpoint() {
    assert_eq!(
        tts_endpoint("21m00Tcm4TlvDq8ikWAM"),
        "https://api.elevenlabs.io/v1/text-to-speech/21m00Tcm4TlvDq8ikWAM"
    );
}
