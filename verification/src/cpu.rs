//! The CPU fallback matcher: the same search in software, spread over the
//! processor's cores, for a run that cannot use an accelerator.

use vstd::prelude::*;
use vstd::string::StringSliceAdditionalSpecFns;
use vstd::utf8::encode_utf8;
use rayon::iter::IntoParallelRefIterator;
use rayon::iter::ParallelIterator;
use crate::algo::Algo;
use crate::digest::candidate_matches;
use crate::digest::word_matches;
use crate::dispatch::batch_count;
use crate::dispatch::first_hit;
use crate::dispatch::kernel_honest;
use crate::dispatch::law_first_hit_is_first;
use crate::dispatch::law_first_match_in_wordlist_order;
use crate::dispatch::run;
use crate::dispatch::Dispatcher;
use crate::encoder::word_bytes;
use crate::outcome::MatchOutcome;
use crate::outcome::OutcomeModel;
use crate::target::Target;
use crate::target::TargetModel;

verus! {

/// For each candidate, whether it matches `target` under `algo`.
pub open spec fn match_flags(algo: Algo, words: Seq<String>, target: Seq<u8>) -> Seq<bool> {
    Seq::new(words.len(), |i: int| candidate_matches(algo, word_bytes(words)[i], target))
}

/// What a parallel search may answer: a candidate of the wordlist that
/// matches, whichever worker found it first, or nothing when none matches.
pub open spec fn search_allows(
    algo: Algo,
    words: Seq<String>,
    target: Seq<u8>,
    found: Option<Seq<char>>,
) -> bool {
    match found {
        Some(word) => exists|i: int|
            0 <= i < words.len() && words[i]@ == word && #[trigger] match_flags(
                algo,
                words,
                target,
            )[i],
        None => forall|i: int| 0 <= i < words.len() ==> !#[trigger] match_flags(algo, words, target)[i],
    }
}

/// What the fallback may answer for `target`: for a digest, what the search
/// allows; for a handshake, only that it is not implemented.
pub open spec fn fallback_allows(target: TargetModel, words: Seq<String>, outcome: OutcomeModel) -> bool {
    match target {
        TargetModel::Digest { algo, hash } => match outcome {
            OutcomeModel::Found(word) => search_allows(algo, words, encode_utf8(hash), Some(word)),
            OutcomeModel::NotFound => search_allows(algo, words, encode_utf8(hash), None),
            OutcomeModel::NotImplemented => false,
        },
        TargetModel::HandshakeMic { ssid, mic } => outcome is NotImplemented,
    }
}

/// Hands the wordlist to rayon's `find_any` with `word_matches` as the test.
/// Trusted: `find_any` returns an item of the wordlist for which the test
/// holds, not necessarily the first, and returns nothing only when the test
/// holds for no item.
#[verifier::external_body]
fn find_any_match<'a>(words: &'a [String], algo: Algo, target: &str) -> (found: Option<&'a String>)
    ensures
        search_allows(
            algo,
            words@,
            target.spec_bytes(),
            match found {
                Some(word) => Some(word@),
                None => None,
            },
        ),
{
    words.par_iter().find_any(|word| word_matches(algo, word.as_str(), target))
}

/// Turns the answer of a search into the outcome of the run.
pub fn outcome_of_search(found: Option<&String>) -> (outcome: MatchOutcome)
    ensures
        outcome@ == (match found {
            Some(word) => OutcomeModel::Found(word@),
            None => OutcomeModel::NotFound,
        }),
{
    match found {
        Some(word) => MatchOutcome::Found(word.clone()),
        None => MatchOutcome::NotFound,
    }
}

/// Searches the whole wordlist on the CPU. For a digest the answer is a
/// candidate whose digest is the target, found by whichever worker came first,
/// and `NotFound` exactly when no candidate matches. A handshake target is not
/// searched: the answer is `NotImplemented`.
pub fn cpu_fallback(target: &Target, words: &[String]) -> (outcome: MatchOutcome)
    ensures
        fallback_allows(target@, words@, outcome@),
{
    match target {
        Target::Digest { algo, hash } => {
            let found: Option<&String> = find_any_match(words, *algo, hash.as_str());
            outcome_of_search(found)
        },
        Target::HandshakeMic { ssid, mic } => MatchOutcome::NotImplemented,
    }
}

/// Where some candidate's digest is the target, the fallback finds one: every
/// answer it may give is `Found` with a candidate of the wordlist that matches.
pub proof fn law_match_is_found(
    algo: Algo,
    hash: Seq<char>,
    words: Seq<String>,
    outcome: OutcomeModel,
    c: int,
)
    requires
        0 <= c < words.len(),
        candidate_matches(algo, encode_utf8(words[c]@), encode_utf8(hash)),
        fallback_allows(TargetModel::Digest { algo, hash }, words, outcome),
    ensures
        outcome matches OutcomeModel::Found(word) && exists|i: int|
            0 <= i < words.len() && words[i]@ == word && candidate_matches(
                algo,
                encode_utf8(#[trigger] words[i]@),
                encode_utf8(hash),
            ),
{
    let flags = match_flags(algo, words, encode_utf8(hash));
    assert(flags[c]);
    match outcome {
        OutcomeModel::Found(word) => {
            let i = choose|i: int| 0 <= i < words.len() && words[i]@ == word && #[trigger] flags[i];
            assert(candidate_matches(algo, encode_utf8(words[i]@), encode_utf8(hash)));
        },
        _ => {},
    }
}

/// Where no candidate's digest is the target, the fallback says so: the only
/// answer it may give is `NotFound`.
pub proof fn law_no_match_is_not_found(
    algo: Algo,
    hash: Seq<char>,
    words: Seq<String>,
    outcome: OutcomeModel,
)
    requires
        forall|i: int|
            0 <= i < words.len() ==> !candidate_matches(
                algo,
                encode_utf8(#[trigger] words[i]@),
                encode_utf8(hash),
            ),
        fallback_allows(TargetModel::Digest { algo, hash }, words, outcome),
    ensures
        outcome is NotFound,
{
    let flags = match_flags(algo, words, encode_utf8(hash));
    match outcome {
        OutcomeModel::Found(word) => {
            let i = choose|i: int| 0 <= i < words.len() && words[i]@ == word && #[trigger] flags[i];
            assert(candidate_matches(algo, encode_utf8(words[i]@), encode_utf8(hash)));
        },
        _ => {},
    }
}

/// The two paths agree on success and failure. On the same wordlist and digest
/// target, with a kernel that honors the slot contract and judges each record
/// as the software digest judges the whole candidate, the dispatcher ends in a
/// match exactly when the fallback finds one, and is done without a match
/// exactly when the fallback finds none. Which candidate is reported may
/// differ: the dispatcher reports the first in wordlist order. A kernel sees a
/// candidate longer than the record only up to the record's width, so for such
/// a candidate it cannot judge as the software does, and nothing is claimed.
pub proof fn law_paths_agree(
    algo: Algo,
    hash: Seq<char>,
    words: Seq<String>,
    outcome: OutcomeModel,
    d: Dispatcher,
    slots: Seq<i32>,
)
    requires
        fallback_allows(TargetModel::Digest { algo, hash }, words, outcome),
        d.wf(),
        d.state is Init,
        d.total == words.len(),
        kernel_honest(d, match_flags(algo, words, encode_utf8(hash)), slots),
        slots.len() >= batch_count(d.total as int, d.batch_size as int),
    ensures
        outcome is Found <==> run(d, slots).state is Matched,
        outcome is NotFound <==> run(d, slots).state is Done,
        run(d, slots).state is Matched ==> match_flags(algo, words, encode_utf8(hash))[run(
            d,
            slots,
        ).state->index as int],
{
    let flags = match_flags(algo, words, encode_utf8(hash));
    law_first_match_in_wordlist_order(d, flags, slots);
    let first = first_hit(flags, 0, d.total as int);
    match outcome {
        OutcomeModel::Found(word) => {
            let i = choose|i: int| 0 <= i < words.len() && words[i]@ == word && #[trigger] flags[i];
            assert(flags[i]);
        },
        _ => {},
    }
    if first >= 0 {
        law_first_hit_is_first(flags, d.total as int);
    }
}

} // verus!
