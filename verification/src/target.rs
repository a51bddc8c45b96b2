//! What a run searches for: a digest in hex, or the MIC of a handshake.

use vstd::prelude::*;
use vstd::slice::slice_to_vec;
use vstd::utf8::encode_utf8;
use crate::algo::algo_for_len;
use crate::algo::detect_algo;
use crate::algo::Algo;
use crate::algo::ConfigError;
use crate::handshake::parse_wpa;
use crate::handshake::parse_wpa_spec;

verus! {

/// `s` without its leading and trailing white space, as `str::trim` returns it.
pub uninterp spec fn trimmed(s: Seq<char>) -> Seq<char>;

/// `s` in lower case, as `str::to_lowercase` returns it.
pub uninterp spec fn lowercased(s: Seq<char>) -> Seq<char>;

/// Calls `str::trim`. Trusted: the result is `s` without its leading and
/// trailing white space, which depends on `s` alone.
#[verifier::external_body]
fn trim_of(s: &str) -> (r: &str)
    ensures
        r@ == trimmed(s@),
{
    s.trim()
}

/// Calls `str::to_lowercase`. Trusted: the result is the lower-case form of
/// `s`, which depends on `s` alone.
#[verifier::external_body]
fn lowercase_of(s: &str) -> (r: String)
    ensures
        r@ == lowercased(s@),
{
    s.to_lowercase()
}

/// The target of a run.
#[derive(Debug, Clone, PartialEq, Eq)]
pub enum Target {
    /// A digest of `algo`, written as hex text.
    Digest { algo: Algo, hash: String },
    /// The MIC of a handshake with the network `ssid`.
    HandshakeMic { ssid: Vec<u8>, mic: Vec<u8> },
}

/// A target as a mathematical value.
pub enum TargetModel {
    Digest { algo: Algo, hash: Seq<char> },
    HandshakeMic { ssid: Seq<u8>, mic: Seq<u8> },
}

/// Where the target of a run comes from.
#[derive(Debug, Clone, Copy, PartialEq, Eq, Structural)]
pub enum TargetSource {
    /// A hex digest given directly.
    Hash,
    /// A handshake capture that has to be read and parsed.
    Handshake,
}

/// Length in bytes of the text `s`.
pub open spec fn text_len(s: Seq<char>) -> usize {
    encode_utf8(s).len() as usize
}

/// The digest target that the hex text `hash` stands for, if its length is
/// that of a supported digest.
pub open spec fn digest_target(hash: Seq<char>) -> Result<TargetModel, ConfigError> {
    match algo_for_len(text_len(hash) as nat) {
        Some(algo) => Ok(TargetModel::Digest { algo, hash }),
        None => Err(ConfigError::UnsupportedHashLength(text_len(hash))),
    }
}

/// The handshake target that the capture `content` stands for, if it parses.
pub open spec fn handshake_target(content: Seq<u8>) -> Result<TargetModel, ConfigError> {
    match parse_wpa_spec(content) {
        Ok((mic, ssid)) => Ok(TargetModel::HandshakeMic { ssid, mic }),
        Err(e) => Err(e),
    }
}

/// The bytes that the kernel compares its results with.
pub open spec fn target_bytes_spec(t: TargetModel) -> Seq<u8> {
    match t {
        TargetModel::Digest { algo, hash } => encode_utf8(hash),
        TargetModel::HandshakeMic { ssid, mic } => mic,
    }
}

impl View for Target {
    type V = TargetModel;

    open spec fn view(&self) -> TargetModel {
        match *self {
            Target::Digest { algo, hash } => TargetModel::Digest { algo, hash: hash@ },
            Target::HandshakeMic { ssid, mic } => TargetModel::HandshakeMic {
                ssid: ssid@,
                mic: mic@,
            },
        }
    }
}

/// Brings a hash as the user typed it into the form that digests are compared
/// in: white space at both ends removed, letters in lower case.
pub fn normalize_hash(raw: &str) -> (hash: String)
    ensures
        hash@ == lowercased(trimmed(raw@)),
{
    lowercase_of(trim_of(raw))
}

/// Decides where the target comes from. A hash wins over a handshake capture;
/// with neither, the run cannot start.
pub fn select_source(has_hash: bool, has_handshake: bool) -> (r: Result<TargetSource, ConfigError>)
    ensures
        r == (if has_hash {
            Ok::<TargetSource, ConfigError>(TargetSource::Hash)
        } else if has_handshake {
            Ok(TargetSource::Handshake)
        } else {
            Err(ConfigError::MissingTarget)
        }),
{
    if has_hash {
        Ok(TargetSource::Hash)
    } else if has_handshake {
        Ok(TargetSource::Handshake)
    } else {
        Err(ConfigError::MissingTarget)
    }
}

impl Target {
    /// The digest target for a hash that is already normalized. The algorithm
    /// follows from the length of the text; a length that belongs to no
    /// supported digest is rejected.
    pub fn from_hash(hash: &str) -> (r: Result<Target, ConfigError>)
        ensures
            match r {
                Ok(t) => digest_target(hash@) == Ok::<TargetModel, ConfigError>(t@),
                Err(e) => digest_target(hash@) == Err::<TargetModel, ConfigError>(e),
            },
    {
        match detect_algo(hash) {
            Ok(algo) => Ok(Target::Digest { algo, hash: hash.to_owned() }),
            Err(e) => Err(e),
        }
    }

    /// The digest target for a hash as the user typed it: normalized first,
    /// then as `from_hash`.
    pub fn from_raw_hash(raw: &str) -> (r: Result<Target, ConfigError>)
        ensures
            match r {
                Ok(t) => digest_target(lowercased(trimmed(raw@))) == Ok::<TargetModel, ConfigError>(
                    t@,
                ),
                Err(e) => digest_target(lowercased(trimmed(raw@))) == Err::<
                    TargetModel,
                    ConfigError,
                >(e),
            },
    {
        let hash: String = normalize_hash(raw);
        Target::from_hash(hash.as_str())
    }

    /// The handshake target for the text of a capture.
    pub fn from_handshake(content: &[u8]) -> (r: Result<Target, ConfigError>)
        ensures
            match r {
                Ok(t) => handshake_target(content@) == Ok::<TargetModel, ConfigError>(t@),
                Err(e) => handshake_target(content@) == Err::<TargetModel, ConfigError>(e),
            },
    {
        match parse_wpa(content) {
            Ok(data) => Ok(Target::HandshakeMic { ssid: data.ssid, mic: data.mic }),
            Err(e) => Err(e),
        }
    }

    /// The bytes handed to the kernel as its target: the hex text of a digest,
    /// or the MIC of a handshake.
    pub fn target_bytes(&self) -> (bytes: Vec<u8>)
        ensures
            bytes@ == target_bytes_spec(self@),
    {
        match self {
            Target::Digest { algo, hash } => slice_to_vec(hash.as_str().as_bytes()),
            Target::HandshakeMic { ssid, mic } => slice_to_vec(mic.as_slice()),
        }
    }
}

} // verus!
