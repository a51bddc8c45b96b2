//! Digest algorithms and how a target hash selects one of them.

use vstd::prelude::*;

verus! {

/// The digest algorithms the engine can match against.
#[derive(Debug, Clone, Copy, PartialEq, Eq, Structural)]
pub enum Algo {
    MD5,
    SHA1,
    SHA256,
}

/// A fatal configuration error: the run cannot start.
#[derive(Debug, Clone, Copy, PartialEq, Eq, Structural)]
pub enum ConfigError {
    /// The target hash has a byte length that no supported digest produces.
    UnsupportedHashLength(usize),
    /// The handshake capture holds no line at all.
    EmptyHandshake,
    /// The first line of the handshake capture has fewer than four fields.
    InvalidHandshakeFormat,
    /// Neither a hash nor a handshake capture was given.
    MissingTarget,
}

/// The algorithm whose hex digest is `n` bytes long, if there is one.
pub open spec fn algo_for_len(n: nat) -> Option<Algo> {
    if n == 32 {
        Some(Algo::MD5)
    } else if n == 40 {
        Some(Algo::SHA1)
    } else if n == 64 {
        Some(Algo::SHA256)
    } else {
        None
    }
}

/// Infers the algorithm from the byte length of a hex digest: 32 is MD5,
/// 40 is SHA-1, 64 is SHA-256. Every other length is rejected, and the error
/// carries the length that was seen.
pub fn detect_algo(hash: &str) -> (r: Result<Algo, ConfigError>)
    ensures
        r == match algo_for_len(hash.len() as nat) {
            Some(a) => Ok::<Algo, ConfigError>(a),
            None => Err(ConfigError::UnsupportedHashLength(hash.len())),
        },
{
    let n: usize = hash.len();
    if n == 32 {
        Ok(Algo::MD5)
    } else if n == 40 {
        Ok(Algo::SHA1)
    } else if n == 64 {
        Ok(Algo::SHA256)
    } else {
        Err(ConfigError::UnsupportedHashLength(n))
    }
}

} // verus!
