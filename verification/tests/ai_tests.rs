use idm_rs::ai::{bucket_counts, fxhash, needle_hits, rule_hits, token_buckets};

#[test]
fn fxhash_known_values() {
    assert_eq!(fxhash(""), 0xcbf29ce484222325);
    assert_eq!(fxhash("a"), 0xaf63dc4c8601ec8c);
    assert_eq!(fxhash("foobar"), 0x85944171f73967e8);
    assert_eq!(fxhash("Grüße"), 0x20e72e11e324b0b8);
}

#[test]
fn token_buckets_count_tokens() {
    let counts = token_buckets("hello, world!! hello");
    assert_eq!(counts.len(), 64);
    assert_eq!(counts[11], 2); // "hello"
    assert_eq!(counts[51], 1); // "world"
    assert_eq!(counts.iter().sum::<u64>(), 3);
}

#[test]
fn token_buckets_of_separators_only_is_zero() {
    let counts = token_buckets(" ,.;-- ");
    assert_eq!(counts, vec![0u64; 64]);
    assert_eq!(token_buckets(""), vec![0u64; 64]);
}

#[test]
fn token_buckets_unicode_tokens() {
    let counts = token_buckets("Grüße x1");
    assert_eq!(counts[56], 1);
    assert_eq!(counts[2], 1);
    assert_eq!(counts.iter().sum::<u64>(), 2);
}

#[test]
fn rule_hits_lowercase_join() {
    let needles = vec!["critical".to_string(), "backup".to_string(), "patch".to_string(), "update system".to_string()];
    let hits = rule_hits("https://EXAMPLE.com/CRITICAL-update", "system.img", &needles);
    assert_eq!(hits, vec![true, false, false, true]);
    let hits = rule_hits("https://example.com/x", "Nightly-Backup.tar", &needles);
    assert_eq!(hits, vec![false, true, false, false]);
}

#[test]
fn rule_hits_no_rules() {
    assert_eq!(rule_hits("a", "b", &Vec::new()), Vec::<bool>::new());
}

#[test]
fn bucket_counts_follow_given_flags() {
    let chars: Vec<char> = "ab-cd".chars().collect();
    // '-' flagged as part of a token: one token "ab-cd"
    let all = vec![true; 5];
    let counts = bucket_counts(&chars, &all);
    assert_eq!(counts.iter().sum::<u64>(), 1);
    assert_eq!(counts[(fxhash("ab-cd") % 64) as usize], 1);
    // nothing flagged: no tokens
    assert_eq!(bucket_counts(&chars, &vec![false; 5]), vec![0u64; 64]);
    // "ab" and "cd"
    let counts = bucket_counts(&chars, &vec![true, true, false, true, true]);
    assert_eq!(counts.iter().sum::<u64>(), 2);
    assert!(counts[(fxhash("ab") % 64) as usize] >= 1);
    assert!(counts[(fxhash("cd") % 64) as usize] >= 1);
}

#[test]
fn needle_hits_are_case_sensitive() {
    let needles = vec!["Patch".to_string(), "patch".to_string(), String::new()];
    assert_eq!(needle_hits("hotfix-patch.zip", &needles), vec![false, true, true]);
}

#[test]
fn token_order_does_not_change_buckets() {
    assert_eq!(token_buckets("b, a!"), token_buckets("a b"));
    assert_eq!(token_buckets("x1 hello x1 world"), token_buckets("world--x1..hello x1"));
}
