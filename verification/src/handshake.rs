//! Reading the MIC and the network identifier out of a handshake capture.
//!
//! The capture is text. Its first line is a list of fields separated by
//! colons: field 0 is the MIC, field 3 the network identifier.

use vstd::prelude::*;
use vstd::slice::slice_to_vec;
use crate::algo::ConfigError;

verus! {

/// The byte that ends a line.
pub const NEWLINE: u8 = 10;

/// The byte that may stand before `NEWLINE` and then belongs to the line ending.
pub const CARRIAGE_RETURN: u8 = 13;

/// The byte that separates two fields.
pub const COLON: u8 = 58;

/// What the engine needs of a handshake capture.
#[derive(Debug, Clone, PartialEq, Eq)]
pub struct WpaData {
    /// The network identifier.
    pub ssid: Vec<u8>,
    /// The message integrity check, as hex text.
    pub mic: Vec<u8>,
}

/// The first place at or after `from` where `s` holds `b`, or the length of
/// `s` when there is none.
pub open spec fn find_from(s: Seq<u8>, b: u8, from: int) -> int
    decreases s.len() - from,
{
    if from >= s.len() {
        s.len() as int
    } else if s[from] == b {
        from
    } else {
        find_from(s, b, from + 1)
    }
}

/// The first line of `content`, without its line ending: all of `content`
/// where it holds no newline, else what stands before the first newline, less
/// one carriage return directly before it.
pub open spec fn first_line(content: Seq<u8>) -> Seq<u8> {
    let nl = find_from(content, NEWLINE, 0);
    if nl >= content.len() {
        content
    } else if nl > 0 && content[nl - 1] == CARRIAGE_RETURN {
        content.subrange(0, nl - 1)
    } else {
        content.subrange(0, nl)
    }
}

/// Where field `k` of `line` starts: field 0 at the front, every later one
/// after the colon that ends the field before it. A value beyond the length of
/// `line` says that `line` has no field `k`.
pub open spec fn field_start(line: Seq<u8>, k: nat) -> int
    decreases k,
{
    if k == 0 {
        0
    } else {
        find_from(line, COLON, field_start(line, (k - 1) as nat)) + 1
    }
}

/// `line` has a field `k`.
pub open spec fn has_field(line: Seq<u8>, k: nat) -> bool {
    field_start(line, k) <= line.len()
}

/// Field `k` of `line`: from its start to the next colon, or to the end.
pub open spec fn field(line: Seq<u8>, k: nat) -> Seq<u8> {
    line.subrange(field_start(line, k), find_from(line, COLON, field_start(line, k)))
}

/// What parsing `content` gives: the MIC and the network identifier, or the
/// reason why there is none.
pub open spec fn parse_wpa_spec(content: Seq<u8>) -> Result<(Seq<u8>, Seq<u8>), ConfigError> {
    let line = first_line(content);
    if content.len() == 0 {
        Err(ConfigError::EmptyHandshake)
    } else if !has_field(line, 3) {
        Err(ConfigError::InvalidHandshakeFormat)
    } else {
        Ok((field(line, 0), field(line, 3)))
    }
}

proof fn lemma_find_from_bounds(s: Seq<u8>, b: u8, from: int)
    requires
        0 <= from <= s.len(),
    ensures
        from <= find_from(s, b, from) <= s.len(),
        find_from(s, b, from) < s.len() ==> s[find_from(s, b, from)] == b,
        forall|i: int| from <= i < find_from(s, b, from) ==> s[i] != b,
    decreases s.len() - from,
{
    if from < s.len() && s[from] != b {
        lemma_find_from_bounds(s, b, from + 1);
        let r = find_from(s, b, from);
        assert(r == find_from(s, b, from + 1));
        assert forall|i: int| from <= i < r implies s[i] != b by {
            if i > from {
                assert(from + 1 <= i < r);
            }
        }
    }
}

proof fn lemma_find_from_is(s: Seq<u8>, b: u8, from: int, r: int)
    requires
        0 <= from <= r <= s.len(),
        forall|i: int| from <= i < r ==> s[i] != b,
        r < s.len() ==> s[r] == b,
    ensures
        find_from(s, b, from) == r,
    decreases r - from,
{
    if from < r {
        lemma_find_from_is(s, b, from + 1, r);
    }
}

/// Finds `b` in `s` at or after `from`.
pub fn find_byte(s: &[u8], b: u8, from: usize) -> (at: usize)
    requires
        from <= s@.len(),
    ensures
        at == find_from(s@, b, from as int),
        from <= at <= s@.len(),
{
    let mut i: usize = from;
    while i < s.len() && s[i] != b
        invariant
            from <= i <= s@.len(),
            forall|t: int| from <= t < i ==> s@[t] != b,
        decreases s@.len() - i,
    {
        i += 1;
    }
    proof {
        lemma_find_from_is(s@, b, from as int, i as int);
    }
    i
}

/// Cuts the first line out of `content`.
pub fn first_line_of(content: &[u8]) -> (line: &[u8])
    ensures
        line@ == first_line(content@),
{
    let nl: usize = find_byte(content, NEWLINE, 0);
    if nl >= content.len() {
        assert(content@.subrange(0, content@.len() as int) =~= content@);
        &content[0..content.len()]
    } else if nl > 0 && content[nl - 1] == CARRIAGE_RETURN {
        &content[0..nl - 1]
    } else {
        &content[0..nl]
    }
}

/// Parses the text of a handshake capture. The MIC is field 0 of the first
/// line and the network identifier is field 3. An empty capture is rejected as
/// empty, and a first line of fewer than four fields as malformed.
pub fn parse_wpa(content: &[u8]) -> (r: Result<WpaData, ConfigError>)
    ensures
        match r {
            Ok(d) => parse_wpa_spec(content@) == Ok::<(Seq<u8>, Seq<u8>), ConfigError>(
                (d.mic@, d.ssid@),
            ),
            Err(e) => parse_wpa_spec(content@) == Err::<(Seq<u8>, Seq<u8>), ConfigError>(e),
        },
{
    if content.len() == 0 {
        return Err(ConfigError::EmptyHandshake);
    }
    let line: &[u8] = first_line_of(content);
    let n: usize = line.len();
    proof {
        reveal_with_fuel(field_start, 4);
    }
    let end0: usize = find_byte(line, COLON, 0);
    if end0 >= n {
        return Err(ConfigError::InvalidHandshakeFormat);
    }
    let end1: usize = find_byte(line, COLON, end0 + 1);
    if end1 >= n {
        return Err(ConfigError::InvalidHandshakeFormat);
    }
    let end2: usize = find_byte(line, COLON, end1 + 1);
    if end2 >= n {
        return Err(ConfigError::InvalidHandshakeFormat);
    }
    let end3: usize = find_byte(line, COLON, end2 + 1);
    let mic: Vec<u8> = slice_to_vec(&line[0..end0]);
    let ssid: Vec<u8> = slice_to_vec(&line[end2 + 1..end3]);
    Ok(WpaData { ssid, mic })
}

/// `s` holds no colon and no byte of a line ending.
pub open spec fn plain(s: Seq<u8>) -> bool {
    forall|i: int|
        0 <= i < s.len() ==> s[i] != COLON && s[i] != NEWLINE && s[i] != CARRIAGE_RETURN
}

/// The line `<mic>:<x>:<y>:<ssid>`.
pub open spec fn four_fields(mic: Seq<u8>, x: Seq<u8>, y: Seq<u8>, ssid: Seq<u8>) -> Seq<u8> {
    mic + seq![COLON] + x + seq![COLON] + y + seq![COLON] + ssid
}

proof fn lemma_four_fields(mic: Seq<u8>, x: Seq<u8>, y: Seq<u8>, ssid: Seq<u8>)
    requires
        plain(mic),
        plain(x),
        plain(y),
        plain(ssid),
    ensures
        has_field(four_fields(mic, x, y, ssid), 3),
        field(four_fields(mic, x, y, ssid), 0) == mic,
        field(four_fields(mic, x, y, ssid), 3) == ssid,
        forall|i: int|
            0 <= i < four_fields(mic, x, y, ssid).len() ==> four_fields(mic, x, y, ssid)[i]
                != NEWLINE && four_fields(mic, x, y, ssid)[i] != CARRIAGE_RETURN,
{
    let line = four_fields(mic, x, y, ssid);
    let colon_a = mic.len() as int;
    let colon_b = colon_a + 1 + x.len();
    let colon_c = colon_b + 1 + y.len();
    let n = colon_c + 1 + ssid.len();
    assert(line.len() == n);
    assert forall|i: int| 0 <= i < n implies line[i] == (if i < colon_a {
        mic[i]
    } else if i == colon_a {
        COLON
    } else if i < colon_b {
        x[i - colon_a - 1]
    } else if i == colon_b {
        COLON
    } else if i < colon_c {
        y[i - colon_b - 1]
    } else if i == colon_c {
        COLON
    } else {
        ssid[i - colon_c - 1]
    }) by {}
    lemma_find_from_is(line, COLON, 0, colon_a);
    lemma_find_from_is(line, COLON, colon_a + 1, colon_b);
    lemma_find_from_is(line, COLON, colon_b + 1, colon_c);
    lemma_find_from_is(line, COLON, colon_c + 1, n);
    reveal_with_fuel(field_start, 4);
    assert(field_start(line, 1) == colon_a + 1);
    assert(field_start(line, 2) == colon_b + 1);
    assert(field_start(line, 3) == colon_c + 1);
    assert(field(line, 0) =~= mic);
    assert(field(line, 3) =~= ssid);
}

/// A capture whose first line is `<mic>:<x>:<y>:<ssid>` gives that MIC and
/// that network identifier, whether the line ends the capture, or a newline
/// follows it, or a carriage return and a newline.
pub proof fn law_four_fields_parse(
    mic: Seq<u8>,
    x: Seq<u8>,
    y: Seq<u8>,
    ssid: Seq<u8>,
    rest: Seq<u8>,
)
    requires
        plain(mic),
        plain(x),
        plain(y),
        plain(ssid),
    ensures
        ({
            let line = four_fields(mic, x, y, ssid);
            let found = Ok::<(Seq<u8>, Seq<u8>), ConfigError>((mic, ssid));
            &&& parse_wpa_spec(line) == found
            &&& parse_wpa_spec(line + seq![NEWLINE] + rest) == found
            &&& parse_wpa_spec(line + seq![CARRIAGE_RETURN, NEWLINE] + rest) == found
        }),
{
    let line = four_fields(mic, x, y, ssid);
    let n = line.len() as int;
    lemma_four_fields(mic, x, y, ssid);
    lemma_find_from_is(line, NEWLINE, 0, n);
    let unix = line + seq![NEWLINE] + rest;
    lemma_find_from_is(unix, NEWLINE, 0, n);
    assert(unix.subrange(0, n) =~= line);
    assert(first_line(unix) == line);
    let dos = line + seq![CARRIAGE_RETURN, NEWLINE] + rest;
    lemma_find_from_is(dos, NEWLINE, 0, n + 1);
    assert(dos[n] == CARRIAGE_RETURN);
    assert(dos.subrange(0, n) =~= line);
    assert(first_line(dos) == line);
}

/// Number of colons in `line`.
pub open spec fn colon_count(line: Seq<u8>) -> nat
    decreases line.len(),
{
    if line.len() == 0 {
        0
    } else if line.last() == COLON {
        colon_count(line.drop_last()) + 1
    } else {
        colon_count(line.drop_last())
    }
}

/// Number of colons in `line` before `upto`.
proof fn lemma_colon_count_split(line: Seq<u8>, upto: int)
    requires
        0 <= upto <= line.len(),
    ensures
        colon_count(line) == colon_count(line.subrange(0, upto)) + colon_count(
            line.subrange(upto, line.len() as int),
        ),
    decreases line.len() - upto,
{
    let n = line.len() as int;
    if upto == n {
        assert(line.subrange(0, n) =~= line);
    } else {
        lemma_colon_count_split(line.drop_last(), upto);
        assert(line.drop_last().subrange(0, upto) =~= line.subrange(0, upto));
        assert(line.drop_last().subrange(upto, n - 1) =~= line.subrange(upto, n).drop_last());
    }
}

proof fn lemma_colon_free(s: Seq<u8>)
    requires
        forall|i: int| 0 <= i < s.len() ==> s[i] != COLON,
    ensures
        colon_count(s) == 0,
    decreases s.len(),
{
    if s.len() > 0 {
        lemma_colon_free(s.drop_last());
    }
}

/// `line` has a field `k` exactly when it holds at least `k` colons after the
/// start of the fields before it.
proof fn lemma_fields_are_colons(line: Seq<u8>, k: nat)
    ensures
        has_field(line, k) ==> 0 <= field_start(line, k) <= line.len() && colon_count(
            line.subrange(0, field_start(line, k)),
        ) == k,
        !has_field(line, k) ==> colon_count(line) < k,
    decreases k,
{
    let n = line.len() as int;
    if k == 0 {
        assert(line.subrange(0, 0) =~= Seq::<u8>::empty());
    } else {
        let prev = (k - 1) as nat;
        lemma_fields_are_colons(line, prev);
        if has_field(line, prev) {
            let from = field_start(line, prev);
            let at = find_from(line, COLON, from);
            lemma_find_from_bounds(line, COLON, from);
            lemma_colon_free(line.subrange(from, at));
            lemma_colon_count_split(line.subrange(0, at), from);
            assert(line.subrange(0, at).subrange(0, from) =~= line.subrange(0, from));
            assert(line.subrange(0, at).subrange(from, at) =~= line.subrange(from, at));
            if at < n {
                assert(line.subrange(0, at + 1).drop_last() =~= line.subrange(0, at));
            } else {
                assert(line.subrange(0, n) =~= line);
            }
        } else {
            assert(field_start(line, prev) > n);
            assert(find_from(line, COLON, field_start(line, prev)) == n);
        }
    }
}

/// A capture that is not empty is accepted exactly when its first line holds
/// at least three colons, which is to say at least four fields.
pub proof fn law_fewer_than_four_fields_rejected(content: Seq<u8>)
    requires
        content.len() > 0,
    ensures
        colon_count(first_line(content)) < 3 <==> parse_wpa_spec(content) == Err::<
            (Seq<u8>, Seq<u8>),
            ConfigError,
        >(ConfigError::InvalidHandshakeFormat),
        colon_count(first_line(content)) >= 3 <==> parse_wpa_spec(content) is Ok,
{
    let line = first_line(content);
    lemma_fields_are_colons(line, 3);
    if has_field(line, 3) {
        let upto = field_start(line, 3);
        lemma_colon_count_split(line, upto);
    }
}

} // verus!
