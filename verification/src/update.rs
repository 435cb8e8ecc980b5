//! The update of the native apps: whether a published version is newer, and whether the
//! installer is the one our key signed. Opening the installer is each system's.

use vstd::prelude::*;

verus! {

/// The updater's public key, the one the desktop app already trusts.
pub const PUBLIC_KEY: &'static str = "dW50cnVzdGVkIGNvbW1lbnQ6IG1pbmlzaWduIHB1YmxpYyBrZXk6IDg5QkY1M0UyNEM5MTg5QQpSV1NhR01ra1B2V2JDSzhaSUJRR3Ezak1nYlNBWEh0NWZkWXRBTlJqdUQyaVNoVXh0b2RBeTVwOAo=";

/// A version newer than this one, published for this platform.
#[derive(Debug, Clone, PartialEq, Eq)]
pub struct Release {
    pub version: String,
    pub url: String,
    pub signature: String,
}

/// The key of the manifest that serves this platform. On Windows it is the installer's.
pub fn platform(macos: bool, windows: bool) -> (key: &'static str)
    ensures
        key@ == (if macos {
            "darwin-aarch64"@
        } else if windows {
            "windows-x86_64-nsis"@
        } else {
            "linux-x86_64-deb"@
        }),
{
    if macos {
        "darwin-aarch64"
    } else if windows {
        "windows-x86_64-nsis"
    } else {
        "linux-x86_64-deb"
    }
}

/// Whether a text is a semantic version by the rules of `semver::Version::parse`.
pub uninterp spec fn semver_parses(text: Seq<char>) -> bool;

/// Whether the version one text spells comes after the one the other spells, in the order
/// of `semver::Version`.
pub uninterp spec fn semver_after(candidate: Seq<char>, current: Seq<char>) -> bool;

/// The bytes `base64`'s standard engine decodes a text into, when it is valid.
pub uninterp spec fn base64_decoded(text: Seq<char>) -> Option<Seq<u8>>;

/// Whether `minisign_verify::PublicKey::decode` accepts a text.
pub uninterp spec fn key_decodes(text: Seq<char>) -> bool;

/// Whether `minisign_verify::Signature::decode` accepts a text.
pub uninterp spec fn signature_decodes(text: Seq<char>) -> bool;

/// Whether the key a text holds verifies the bytes against the signature another text
/// holds, as `minisign_verify::PublicKey::verify` decides with or without legacy
/// signatures.
pub uninterp spec fn minisign_accepts(key: Seq<char>, bytes: Seq<u8>, signature: Seq<char>, allow_legacy: bool) -> bool;

/// Whether a text is a version. Wraps `semver::Version::parse`; what it accepts is named.
#[verifier::external_body]
fn is_version(text: &str) -> (parses: bool)
    ensures
        parses == semver_parses(text@),
{
    semver::Version::parse(text).is_ok()
}

/// Whether the first version comes after the second. Wraps `semver::Version::parse` on
/// both texts and the `>` of `semver::Version`; the order is named. A version never comes
/// after itself: the order is total.
#[verifier::external_body]
fn comes_after(candidate: &str, current: &str) -> (after: bool)
    requires
        semver_parses(candidate@),
        semver_parses(current@),
    ensures
        after == semver_after(candidate@, current@),
        candidate@ == current@ ==> !after,
{
    match (semver::Version::parse(candidate), semver::Version::parse(current)) {
        (Ok(candidate), Ok(current)) => candidate > current,
        _ => false,
    }
}

/// The bytes of a text in standard base64. Wraps `base64::Engine::decode` on
/// `base64::engine::general_purpose::STANDARD`; the decoding is named.
#[verifier::external_body]
fn decode_base64(text: &str) -> (bytes: Option<Vec<u8>>)
    ensures
        match bytes {
            Some(bytes) => base64_decoded(text@) == Some(bytes@),
            None => base64_decoded(text@) is None,
        },
{
    base64::Engine::decode(&base64::engine::general_purpose::STANDARD, text).ok()
}

/// The text some bytes encode, when they are valid UTF-8. Wraps `String::from_utf8`.
#[verifier::external_body]
fn utf8_text(bytes: Vec<u8>) -> (text: Option<String>)
    ensures
        text is Some == vstd::utf8::valid_utf8(bytes@),
        text matches Some(t) ==> t@ == vstd::utf8::decode_utf8(bytes@),
{
    String::from_utf8(bytes).ok()
}

/// Whether a text is a minisign public key. Wraps `minisign_verify::PublicKey::decode`.
#[verifier::external_body]
fn is_key(text: &str) -> (decodes: bool)
    ensures
        decodes == key_decodes(text@),
{
    minisign_verify::PublicKey::decode(text).is_ok()
}

/// Whether a text is a minisign signature. Wraps `minisign_verify::Signature::decode`.
#[verifier::external_body]
fn is_signature(text: &str) -> (decodes: bool)
    ensures
        decodes == signature_decodes(text@),
{
    minisign_verify::Signature::decode(text).is_ok()
}

/// Whether the key in `key` signed `bytes`, by the signature in `signature`. Wraps
/// `minisign_verify::PublicKey::decode`, `minisign_verify::Signature::decode` and
/// `minisign_verify::PublicKey::verify`; the cryptography is named, not stated.
#[verifier::external_body]
fn verify(key: &str, bytes: &[u8], signature: &str, allow_legacy: bool) -> (accepted: bool)
    requires
        key_decodes(key@),
        signature_decodes(signature@),
    ensures
        accepted == minisign_accepts(key@, bytes@, signature@, allow_legacy),
{
    match (minisign_verify::PublicKey::decode(key), minisign_verify::Signature::decode(signature)) {
        (Ok(key), Ok(signature)) => key.verify(bytes, &signature, allow_legacy).is_ok(),
        _ => false,
    }
}

/// `0.1.0` comes after `0.1.0-beta`, and `1.10.0` after `1.9.3`: the order of semantic
/// versions. What is no version is never newer: better not to update than to update to
/// garbage.
pub fn is_newer(candidate: &str, current: &str) -> (newer: bool)
    ensures
        newer == (semver_parses(candidate@) && semver_parses(current@) && semver_after(candidate@, current@)),
        candidate@ == current@ ==> !newer,
{
    if !is_version(candidate) || !is_version(current) {
        return false;
    }
    comes_after(candidate, current)
}

/// A text that standard base64 decodes into valid UTF-8, and that text.
pub open spec fn decoded_text(encoded: Seq<char>) -> Option<Seq<char>> {
    match base64_decoded(encoded) {
        Some(bytes) => if vstd::utf8::valid_utf8(bytes) { Some(vstd::utf8::decode_utf8(bytes)) } else { None },
        None => None,
    }
}

fn text_in_base64(encoded: &str) -> (text: Option<String>)
    ensures
        match decoded_text(encoded@) {
            Some(found) => text matches Some(t) && t@ == found,
            None => text is None,
        },
{
    match decode_base64(encoded) {
        Some(bytes) => utf8_text(bytes),
        None => None,
    }
}

/// Legacy signatures, those of the bytes themselves rather than of their hash, are taken
/// too: older signers still write them.
pub const ALLOW_LEGACY: bool = true;

/// Whether the bytes are the ones our key signed, the manifest's signature being the whole
/// minisign file in base64, as the key is: every text must decode, and then the
/// signature must verify.
pub open spec fn spec_signed(installer: Seq<u8>, signature: Seq<char>) -> bool {
    &&& decoded_text(PUBLIC_KEY@) matches Some(key)
    &&& key_decodes(key)
    &&& decoded_text(signature) matches Some(text)
    &&& signature_decodes(text)
    &&& minisign_accepts(key, installer, text, ALLOW_LEGACY)
}

/// Whether the bytes are the ones our key signed. The manifest's signature is the whole
/// minisign file in base64; so is the key. Nothing that fails to decode is accepted.
pub fn signed(installer: &[u8], signature: &str) -> (accepted: bool)
    ensures
        accepted == spec_signed(installer@, signature@),
{
    let key_text = match text_in_base64(PUBLIC_KEY) {
        Some(text) => text,
        None => return false,
    };
    let signature_text = match text_in_base64(signature) {
        Some(text) => text,
        None => return false,
    };
    if !is_key(key_text.as_str()) || !is_signature(signature_text.as_str()) {
        return false;
    }
    verify(key_text.as_str(), installer, signature_text.as_str(), ALLOW_LEGACY)
}

} // verus!
