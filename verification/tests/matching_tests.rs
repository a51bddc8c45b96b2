use hash_cracker::algo::Algo;
use hash_cracker::cpu::cpu_fallback;
use hash_cracker::cpu::outcome_of_search;
use hash_cracker::digest::bytes_equal;
use hash_cracker::digest::hex_digest;
use hash_cracker::dispatch::DispatchAction;
use hash_cracker::dispatch::DispatchEvent;
use hash_cracker::dispatch::Dispatcher;
use hash_cracker::dispatch::NO_MATCH;
use hash_cracker::encoder::encode_batch;
use hash_cracker::outcome::report;
use hash_cracker::outcome::MatchOutcome;
use hash_cracker::target::Target;

const MD5_SECRET: &str = "5d7845ac6ee7cfffafc5fe5f35cf666d";
const MD5_NOMATCH: &str = "4e2dcf9208454aebce7ed56e93c67d78";

fn wordlist(list: &[&str]) -> Vec<String> {
    list.iter().map(|w| w.to_string()).collect()
}

fn md5_target(hash: &str) -> Target {
    Target::Digest { algo: Algo::MD5, hash: hash.to_string() }
}

/// A kernel in software that keeps the slot contract: it reads the records of
/// the buffer by stride, strips the padding, and answers with the first record
/// whose digest is the target.
fn software_kernel(algo: Algo, buffer: &[u8], width: usize, count: usize, target: &[u8]) -> i32 {
    for k in 0..count {
        let record = &buffer[k * width..(k + 1) * width];
        let len = record.iter().position(|b| *b == 0).unwrap_or(width);
        if bytes_equal(&hex_digest(algo, &record[..len]), target) {
            return k as i32;
        }
    }
    NO_MATCH
}

fn accelerate(words: &[String], target: &Target, batch_size: usize, width: usize) -> (MatchOutcome, usize) {
    let algo = match target {
        Target::Digest { algo, .. } => *algo,
        Target::HandshakeMic { .. } => panic!("digest targets only"),
    };
    let wanted = target.target_bytes();
    let mut launches = 0;
    let (mut d, mut action) = Dispatcher::new(words.len(), batch_size).step(DispatchEvent::Start);
    loop {
        if let Some(outcome) = report(words, action) {
            return (outcome, launches);
        }
        match action {
            DispatchAction::Launch { start, count } => {
                launches += 1;
                let buffer = encode_batch(words, start, count, width).data;
                assert_eq!(buffer.len(), count * width);
                let slot = software_kernel(algo, &buffer, width, count, &wanted);
                let next = d.step(DispatchEvent::SlotRead(slot));
                d = next.0;
                action = next.1;
            }
            other => panic!("unexpected action {:?}", other),
        }
    }
}

#[test]
fn cpu_finds_secret123() {
    let words = wordlist(&["alice", "bob", "secret123"]);
    assert_eq!(
        cpu_fallback(&md5_target(MD5_SECRET), &words),
        MatchOutcome::Found("secret123".to_string())
    );
}

#[test]
fn cpu_reports_not_found_for_nomatch() {
    let words = wordlist(&["alice", "bob", "secret123"]);
    assert_eq!(cpu_fallback(&md5_target(MD5_NOMATCH), &words), MatchOutcome::NotFound);
}

#[test]
fn accelerator_path_finds_secret123() {
    let words = wordlist(&["alice", "bob", "secret123"]);
    let (outcome, _) = accelerate(&words, &md5_target(MD5_SECRET), 1_048_576, 64);
    assert_eq!(outcome, MatchOutcome::Found("secret123".to_string()));
}

#[test]
fn accelerator_path_reports_not_found_for_nomatch() {
    let words = wordlist(&["alice", "bob", "secret123"]);
    let (outcome, launches) = accelerate(&words, &md5_target(MD5_NOMATCH), 2, 64);
    assert_eq!(outcome, MatchOutcome::NotFound);
    assert_eq!(launches, 2);
}

#[test]
fn match_in_the_undersized_final_batch_is_found() {
    let words = wordlist(&["alice", "bob", "secret123"]);
    let (outcome, launches) = accelerate(&words, &md5_target(MD5_SECRET), 2, 64);
    assert_eq!(outcome, MatchOutcome::Found("secret123".to_string()));
    assert_eq!(launches, 2);
}

#[test]
fn dispatch_stops_at_the_first_match() {
    let words = wordlist(&["alice", "secret123", "bob", "carol", "dave"]);
    let (outcome, launches) = accelerate(&words, &md5_target(MD5_SECRET), 2, 64);
    assert_eq!(outcome, MatchOutcome::Found("secret123".to_string()));
    assert_eq!(launches, 1);
}

#[test]
fn both_paths_agree_on_success_and_failure() {
    let words = wordlist(&["alice", "bob", "carol", "secret123", "dave", "erin", "frank"]);
    for hash in [MD5_SECRET, MD5_NOMATCH, "6384e2b2184bcbf58eccf10ca7a6563c"] {
        let target = md5_target(hash);
        let cpu = cpu_fallback(&target, &words);
        for batch_size in 1..9 {
            let (device, _) = accelerate(&words, &target, batch_size, 64);
            assert_eq!(matches!(cpu, MatchOutcome::Found(_)), matches!(device, MatchOutcome::Found(_)));
            assert_eq!(cpu, device);
        }
    }
}

#[test]
fn every_position_of_the_wordlist_is_reachable() {
    let words: Vec<String> = (0..23).map(|i| format!("candidate-{}", i)).collect();
    for (i, word) in words.iter().enumerate() {
        let hash = String::from_utf8(hex_digest(Algo::SHA256, word.as_bytes())).unwrap();
        let target = Target::Digest { algo: Algo::SHA256, hash };
        assert_eq!(cpu_fallback(&target, &words), MatchOutcome::Found(word.clone()));
        let (device, launches) = accelerate(&words, &target, 5, 64);
        assert_eq!(device, MatchOutcome::Found(word.clone()));
        assert_eq!(launches, i / 5 + 1);
    }
}

#[test]
fn accelerator_reports_the_first_of_two_equal_candidates() {
    let words = wordlist(&["alice", "secret123", "bob", "secret123"]);
    let target = md5_target(MD5_SECRET);
    let (mut d, mut action) = Dispatcher::new(words.len(), 3).step(DispatchEvent::Start);
    let wanted = target.target_bytes();
    while let DispatchAction::Launch { start, count } = action {
        let buffer = encode_batch(&words, start, count, 64).data;
        let next = d.step(DispatchEvent::SlotRead(software_kernel(Algo::MD5, &buffer, 64, count, &wanted)));
        d = next.0;
        action = next.1;
    }
    assert_eq!(action, DispatchAction::ReportFound { index: 1 });
    assert_eq!(cpu_fallback(&target, &words), MatchOutcome::Found("secret123".to_string()));
}

#[test]
fn candidate_longer_than_the_record_is_cut_on_the_accelerator_only() {
    let long = "a".repeat(70);
    let words = wordlist(&["alice", &long]);
    let whole = md5_target("0f5c6c4e740bfcc08c3c26ccb2673d46");
    assert_eq!(cpu_fallback(&whole, &words), MatchOutcome::Found(long.clone()));
    assert_eq!(accelerate(&words, &whole, 4, 64).0, MatchOutcome::NotFound);
    let cut = md5_target("014842d480b571495a4a0363793f7367");
    assert_eq!(cpu_fallback(&cut, &words), MatchOutcome::NotFound);
    assert_eq!(accelerate(&words, &cut, 4, 64).0, MatchOutcome::Found(long));
}

#[test]
fn empty_line_is_a_candidate() {
    let words = wordlist(&["alice", "", "bob"]);
    let target = md5_target("d41d8cd98f00b204e9800998ecf8427e");
    assert_eq!(cpu_fallback(&target, &words), MatchOutcome::Found(String::new()));
    assert_eq!(accelerate(&words, &target, 2, 64).0, MatchOutcome::Found(String::new()));
}

#[test]
fn empty_wordlist_is_not_found_on_both_paths() {
    let words: Vec<String> = Vec::new();
    let target = md5_target(MD5_SECRET);
    assert_eq!(cpu_fallback(&target, &words), MatchOutcome::NotFound);
    assert_eq!(accelerate(&words, &target, 4, 64), (MatchOutcome::NotFound, 0));
}

#[test]
fn cpu_searches_sha1_and_sha256() {
    let words = wordlist(&["alice", "bob", "secret123"]);
    let sha1 = Target::Digest {
        algo: Algo::SHA1,
        hash: "48181acd22b3edaebc8a447868a7df7ce629920a".to_string(),
    };
    assert_eq!(cpu_fallback(&sha1, &words), MatchOutcome::Found("bob".to_string()));
    let sha256 = Target::Digest {
        algo: Algo::SHA256,
        hash: "fcf730b6d95236ecd3c9fc2d92d7b6b2bb061514961aec041d6c7a7192f592e4".to_string(),
    };
    assert_eq!(cpu_fallback(&sha256, &words), MatchOutcome::Found("secret123".to_string()));
}

#[test]
fn cpu_does_not_search_handshakes() {
    let words = wordlist(&["alice", "bob"]);
    let target = Target::HandshakeMic { ssid: b"HomeNet".to_vec(), mic: b"a1b2".to_vec() };
    assert_eq!(cpu_fallback(&target, &words), MatchOutcome::NotImplemented);
}

#[test]
fn large_wordlist_on_the_cpu() {
    let words: Vec<String> = (0..20_000).map(|i| format!("w{}", i)).collect();
    let hash = String::from_utf8(hex_digest(Algo::MD5, b"w19999")).unwrap();
    let target = Target::Digest { algo: Algo::MD5, hash };
    assert_eq!(cpu_fallback(&target, &words), MatchOutcome::Found("w19999".to_string()));
    assert_eq!(cpu_fallback(&md5_target(MD5_NOMATCH), &words), MatchOutcome::NotFound);
}

#[test]
fn raw_hash_from_the_command_line_is_found() {
    let words = wordlist(&["alice", "bob", "secret123"]);
    let target = Target::from_raw_hash(" 5D7845AC6EE7CFFFAFC5FE5F35CF666D\n").unwrap();
    assert_eq!(cpu_fallback(&target, &words), MatchOutcome::Found("secret123".to_string()));
}

#[test]
fn search_answer_becomes_the_outcome() {
    let word = "secret123".to_string();
    assert_eq!(outcome_of_search(Some(&word)), MatchOutcome::Found(word.clone()));
    assert_eq!(outcome_of_search(None), MatchOutcome::NotFound);
}
