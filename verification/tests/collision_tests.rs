use shake_lab::candidate::candidate;
use shake_lab::collision::find_collision;
use shake_lab::collision::run_challenge_a;
use shake_lab::collision::Collision;
use shake_lab::collision::SeenSet;
use shake_lab::collision::MESSAGE_SCHEME;
use shake_lab::xof::shake128_4bytes;

#[test]
fn message_scheme_spells_message() {
    assert_eq!(&MESSAGE_SCHEME[..], b"message_");
}

#[test]
fn seen_set_returns_what_was_stored() {
    let mut seen = SeenSet::new();
    assert!(seen.get(&[1, 2, 3, 4]).is_none());
    seen.insert([1, 2, 3, 4], b"message_0".to_vec());
    seen.insert([4, 3, 2, 1], b"message_1".to_vec());
    assert_eq!(seen.get(&[1, 2, 3, 4]), Some(&b"message_0".to_vec()));
    assert_eq!(seen.get(&[4, 3, 2, 1]), Some(&b"message_1".to_vec()));
    assert!(seen.get(&[1, 2, 3, 5]).is_none());
    assert!(seen.get(&[0, 0, 0, 0]).is_none());
}

#[test]
fn seen_set_tells_digests_apart_in_every_byte() {
    let mut seen = SeenSet::new();
    seen.insert([0, 0, 1, 0], b"a".to_vec());
    seen.insert([0, 0, 0, 255], b"b".to_vec());
    seen.insert([255, 0, 0, 0], b"c".to_vec());
    seen.insert([0, 1, 0, 0], b"d".to_vec());
    assert_eq!(seen.get(&[0, 0, 1, 0]), Some(&b"a".to_vec()));
    assert_eq!(seen.get(&[0, 0, 0, 255]), Some(&b"b".to_vec()));
    assert_eq!(seen.get(&[255, 0, 0, 0]), Some(&b"c".to_vec()));
    assert_eq!(seen.get(&[0, 1, 0, 0]), Some(&b"d".to_vec()));
    assert!(seen.get(&[0, 0, 0, 1]).is_none());
}

#[test]
fn seen_set_reports_a_digest_seen_twice() {
    let mut seen = SeenSet::new();
    assert_eq!(seen.observe(1, b"message_0".to_vec(), [1, 2, 3, 4]), None);
    assert_eq!(seen.observe(2, b"message_1".to_vec(), [1, 2, 3, 5]), None);
    assert_eq!(seen.observe(3, b"message_2".to_vec(), [4, 3, 2, 1]), None);
    let clash = seen.observe(4, b"message_3".to_vec(), [1, 2, 3, 4]);
    assert_eq!(
        clash,
        Some(Collision {
            first: b"message_0".to_vec(),
            second: b"message_3".to_vec(),
            digest: [1, 2, 3, 4],
            attempts: 4,
        })
    );
}

#[test]
fn seen_set_keeps_the_first_candidate_of_a_digest() {
    let mut seen = SeenSet::new();
    assert_eq!(seen.observe(1, b"message_0".to_vec(), [9, 9, 9, 9]), None);
    assert!(seen.observe(2, b"message_1".to_vec(), [9, 9, 9, 9]).is_some());
    assert_eq!(seen.get(&[9, 9, 9, 9]), Some(&b"message_0".to_vec()));
    let again = seen.observe(3, b"message_2".to_vec(), [9, 9, 9, 9]).expect("the digest is stored");
    assert_eq!(again.first, b"message_0".to_vec());
    assert_eq!(again.second, b"message_2".to_vec());
    assert_eq!(again.attempts, 3);
}

#[test]
fn a_collision_at_the_second_candidate_takes_two_attempts() {
    let mut seen = SeenSet::new();
    assert_eq!(seen.observe(1, b"message_0".to_vec(), [0, 0, 0, 0]), None);
    let clash = seen.observe(2, b"message_1".to_vec(), [0, 0, 0, 0]).expect("the digest repeats");
    assert_eq!(clash.attempts, 2);
    assert_eq!(clash.first, b"message_0".to_vec());
    assert_eq!(clash.second, b"message_1".to_vec());
}

#[test]
fn seen_set_insert_replaces_what_was_stored() {
    let mut seen = SeenSet::new();
    seen.insert([5, 6, 7, 8], b"message_1".to_vec());
    seen.insert([5, 6, 7, 8], b"message_2".to_vec());
    assert_eq!(seen.get(&[5, 6, 7, 8]), Some(&b"message_2".to_vec()));
}

#[test]
fn no_collision_without_candidates() {
    assert!(find_collision(b"message_", 0).is_none());
    assert!(find_collision(b"message_", 1).is_none());
    assert!(run_challenge_a(0).is_none());
}

#[test]
fn no_collision_among_the_first_few_candidates() {
    let limit = 300u64;
    assert!(run_challenge_a(limit).is_none());
    let mut digests: Vec<[u8; 4]> = (0..limit).map(|n| shake128_4bytes(&candidate(b"message_", n))).collect();
    digests.sort();
    digests.dedup();
    assert_eq!(digests.len() as u64, limit);
}

#[test]
fn collision_search_finds_two_messages_with_one_digest() {
    let collision = run_challenge_a(u64::MAX).expect("a collision among 32-bit digests");
    assert_ne!(collision.first, collision.second);
    assert_eq!(shake128_4bytes(&collision.first), collision.digest);
    assert_eq!(shake128_4bytes(&collision.second), collision.digest);
    assert!(collision.attempts >= 2);
    let ordinal = collision.attempts - 1;
    assert_eq!(collision.second, candidate(b"message_", ordinal));
    let earlier = (0..ordinal).find(|&n| candidate(b"message_", n) == collision.first);
    assert!(earlier.is_some());
}

#[test]
fn collision_search_finds_nothing_below_the_first_repeated_digest() {
    assert!(run_challenge_a(62017).is_none());
}

#[test]
fn collision_search_stops_at_the_first_repeated_digest() {
    let collision = run_challenge_a(62018).expect("message_62017 repeats a digest");
    assert_eq!(collision.attempts, 62018);
    assert_eq!(collision.first, b"message_38464".to_vec());
    assert_eq!(collision.second, b"message_62017".to_vec());
    assert_eq!(collision.digest, shake128_4bytes(b"message_38464"));
    assert_eq!(collision.digest, shake128_4bytes(b"message_62017"));
}

#[test]
fn collision_search_works_under_other_naming_schemes() {
    let collision = find_collision(b"candidate_", 98252).expect("candidate_98251 repeats a digest");
    assert_eq!(collision.attempts, 98252);
    assert_eq!(collision.first, b"candidate_8031".to_vec());
    assert_eq!(collision.second, b"candidate_98251".to_vec());
    assert_eq!(shake128_4bytes(&collision.first), collision.digest);
    assert_eq!(shake128_4bytes(&collision.second), collision.digest);
}
