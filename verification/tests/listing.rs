use gpg_bridge::listing::{
    any_block_matches, block_matches, block_of_match, check_key_can_encrypt, listing_matches,
    text_matches,
};
use gpg_bridge::process::{ProcessOutput, Run};

fn chars(s: &str) -> Vec<char> {
    s.chars().collect()
}

fn listed(text: &str) -> Run {
    Run::Exited(ProcessOutput {
        success: true,
        stdout: text.as_bytes().to_vec(),
        stderr: Vec::new(),
    })
}

const SUBKEY: &str = "sub:...:...:...:...:...:...:...:...:...:...:e:\nfpr:::::::::ABCDEF1234567890:\n";

#[test]
fn subkey_with_encryption_marker_matches_ignoring_case() {
    assert!(check_key_can_encrypt(&listed(SUBKEY), "abcdef1234567890"));
    assert!(check_key_can_encrypt(&listed(SUBKEY), "ABCDEF1234567890"));
    assert!(check_key_can_encrypt(&listed(SUBKEY), "AbCdEf1234567890"));
}

#[test]
fn subkey_with_other_capability_does_not_match() {
    let text = "sub:...:...:...:...:...:...:...:...:...:...:a:\nfpr:::::::::ABCDEF1234567890:\n";
    assert!(!check_key_can_encrypt(&listed(text), "abcdef1234567890"));
}

#[test]
fn subkey_without_fingerprint_record_is_skipped() {
    let text = "sub:...:...:...:...:...:...:...:...:...:...:e:\n";
    assert!(!check_key_can_encrypt(&listed(text), "abcdef1234567890"));
}

#[test]
fn listing_without_blocks_matches_nothing() {
    assert!(!check_key_can_encrypt(&listed(""), "abcdef1234567890"));
    let text = "pub:u:255:22:0123456789ABCDEF:1700000000:::u:::scESC:\nfpr:::::::::ABCDEF1234567890:\n";
    assert!(!check_key_can_encrypt(&listed(text), "abcdef1234567890"));
}

#[test]
fn other_fingerprint_does_not_match() {
    assert!(!check_key_can_encrypt(&listed(SUBKEY), "abcdef1234567891"));
    assert!(!check_key_can_encrypt(&listed(SUBKEY), "abcdef123456789"));
    assert!(!check_key_can_encrypt(&listed(SUBKEY), ""));
}

#[test]
fn marker_among_other_capabilities_matches() {
    let text = "sub:u:255:18:AAAA:1700000000::::::esa:\nfpr:::::::::0011:\n";
    assert!(check_key_can_encrypt(&listed(text), "0011"));
}

#[test]
fn later_block_can_match() {
    let text = "pub:u:255:22:K:1::::::scESC:\nfpr:::::::::AAAA:\n\
sub:u:255:22:S1:1::::::s:\nfpr:::::::::BBBB:\n\
sub:u:255:18:S2:1::::::e:\nfpr:::::::::CCCC:\n";
    assert!(check_key_can_encrypt(&listed(text), "cccc"));
    assert!(!check_key_can_encrypt(&listed(text), "bbbb"));
    assert!(!check_key_can_encrypt(&listed(text), "aaaa"));
}

#[test]
fn fingerprint_record_must_follow_directly() {
    let text = "sub:u:255:18:S2:1::::::e:\nuid:u::::1::H::someone:\nfpr:::::::::CCCC:\n";
    assert!(!check_key_can_encrypt(&listed(text), "cccc"));
}

#[test]
fn carriage_returns_before_line_feeds_are_dropped() {
    let text = "sub:u:255:18:S2:1::::::e:\r\nfpr:::::::::CCCC\r\n";
    assert!(check_key_can_encrypt(&listed(text), "cccc"));
}

#[test]
fn short_records_degrade_to_empty_fields() {
    let text = "sub:u:255\nfpr:::::::::CCCC:\n";
    assert!(!check_key_can_encrypt(&listed(text), "cccc"));
    let text = "sub:u:255:18:S2:1::::::e:\nfpr::\n";
    assert!(!check_key_can_encrypt(&listed(text), "cccc"));
    assert!(check_key_can_encrypt(&listed(text), ""));
}

#[test]
fn unterminated_last_record_is_not_part_of_a_block() {
    let text = "sub:u:255:18:S2:1::::::e:\nfpr:::::::::CCCC:";
    assert!(!check_key_can_encrypt(&listed(text), "cccc"));
}

#[test]
fn failed_runs_give_false() {
    let failed = Run::Exited(ProcessOutput {
        success: false,
        stdout: SUBKEY.as_bytes().to_vec(),
        stderr: Vec::new(),
    });
    assert!(!check_key_can_encrypt(&failed, "abcdef1234567890"));
    let missing = Run::SpawnFailed(String::from("No such file or directory (os error 2)"));
    assert!(!check_key_can_encrypt(&missing, "abcdef1234567890"));
    let broken = Run::WaitFailed(String::from("interrupted"));
    assert!(!check_key_can_encrypt(&broken, "abcdef1234567890"));
    let unwritten = Run::WriteFailed(String::from("broken pipe"));
    assert!(!check_key_can_encrypt(&unwritten, "abcdef1234567890"));
}

#[test]
fn invalid_bytes_are_decoded_leniently() {
    let mut bytes = b"uid:u::::1::H::caf\xe9:\n".to_vec();
    bytes.extend_from_slice(SUBKEY.as_bytes());
    assert!(listing_matches(&bytes, "abcdef1234567890"));
    let bytes = b"sub:u:255:18:S2:1::::::e:\nfpr:::::::::\xff:\n".to_vec();
    assert!(listing_matches(&bytes, "\u{fffd}"));
    assert!(!listing_matches(&bytes, "\u{ff}"));
}

#[test]
fn non_ascii_letters_keep_their_case() {
    let text = "sub:u:255:18:S2:1::::::e:\nfpr:::::::::\u{c9}:\n";
    assert!(check_key_can_encrypt(&listed(text), "\u{c9}"));
    assert!(!check_key_can_encrypt(&listed(text), "\u{e9}"));
}

#[test]
fn block_needs_both_records() {
    let fp = chars("ab");
    assert!(block_matches(&chars("sub:::::::::::e:\nfpr:::::::::AB:\n"), &fp));
    assert!(!block_matches(&chars("sub:::::::::::e:\n"), &fp));
    assert!(!block_matches(&chars("fpr:::::::::AB:\n"), &fp));
    assert!(!block_matches(&chars(""), &fp));
    assert!(!block_matches(&chars("sub:::::::::::s:\nfpr:::::::::AB:\n"), &fp));
    assert!(!block_matches(&chars("sub:::::::::::e:\nfpr::::::::AB::\n"), &fp));
}

#[test]
fn block_uses_first_record_of_each_kind() {
    let fp = chars("ab");
    let block = chars("sub:::::::::::e:\nsub:::::::::::s:\nfpr:::::::::AB:\nfpr:::::::::CD:\n");
    assert!(block_matches(&block, &fp));
    let block = chars("sub:::::::::::s:\nsub:::::::::::e:\nfpr:::::::::AB:\n");
    assert!(!block_matches(&block, &fp));
    let block = chars("sub:::::::::::e:\nfpr:::::::::CD:\nfpr:::::::::AB:\n");
    assert!(!block_matches(&block, &fp));
}

#[test]
fn any_block_is_enough() {
    let fp = chars("ab");
    let text = chars("sub:::::::::::e:\nsub:::::::::::s:\nfpr:::::::::AB:\nsub:::::::::::e:\nfpr:::::::::ab:\n");
    let none: Vec<(usize, usize)> = Vec::new();
    assert!(!any_block_matches(&text, &none, &fp));
    let ranges = vec![(0, 17), (17, 50), (50, 83)];
    assert!(any_block_matches(&text, &ranges, &fp));
    assert!(!any_block_matches(&text, &ranges[..2].to_vec(), &fp));
}

#[test]
fn match_must_start_a_line() {
    let fp = chars("ab");
    let text = chars("xsub:::::::::::e:\nfpr:::::::::AB:\n");
    assert_eq!(block_of_match(&text, (1, 34)), None);
    assert!(!any_block_matches(&text, &vec![(1, 34)], &fp));
    let text = chars("x\nsub:::::::::::e:\nfpr:::::::::AB:\n");
    assert_eq!(block_of_match(&text, (2, 35)), Some(chars("sub:::::::::::e:\nfpr:::::::::AB:\n")));
    assert!(any_block_matches(&text, &vec![(2, 35)], &fp));
}

#[test]
fn match_offsets_count_bytes() {
    let text = chars("\u{e9}\u{20ac}\nsub:\n");
    assert_eq!(block_of_match(&text, (6, 11)), Some(chars("sub:\n")));
    assert_eq!(block_of_match(&text, (3, 11)), None);
    assert_eq!(block_of_match(&text, (6, 12)), None);
    assert_eq!(block_of_match(&text, (1, 6)), None);
    assert_eq!(block_of_match(&text, (6, 6)), Some(Vec::new()));
    assert_eq!(block_of_match(&text, (11, 6)), None);
    assert_eq!(block_of_match(&text, (0, 11)), Some(text.clone()));
}

#[test]
fn subkey_tag_inside_a_line_starts_no_block() {
    let text = "xsub:2:3:4:5:6:7:8:9:10:11:e:\nfpr:2:3:4:5:6:7:8:9:ABCD:\n";
    assert!(!check_key_can_encrypt(&listed(text), "ABCD"));
    let text = "uid:u::::1::H::some sub:::e:::::::e:\nfpr:::::::::ABCD:\n";
    assert!(!check_key_can_encrypt(&listed(text), "ABCD"));
    let text = "pub:sub:u:255:18:S:1::::::e:\nfpr:::::::::ABCD:\n";
    assert!(!check_key_can_encrypt(&listed(text), "ABCD"));
    let text = " sub:u:255:18:S:1::::::e:\nfpr:::::::::ABCD:\n";
    assert!(!check_key_can_encrypt(&listed(text), "ABCD"));
}

#[test]
fn fingerprint_tag_inside_a_line_is_no_fingerprint_record() {
    let text = "sub:u:255:18:S:1::::::e:\nxfpr:::::::::ABCD:\n";
    assert!(!check_key_can_encrypt(&listed(text), "ABCD"));
}

#[test]
fn blocks_after_wide_characters_are_found() {
    let text = "uid:u::::1::H::Zo\u{eb} \u{20ac} \u{1f511}:\nsub:u:255:18:S:1::::::e:\nfpr:::::::::ABCD:\n";
    assert!(check_key_can_encrypt(&listed(text), "abcd"));
    let text = "sub:u:255:18:\u{1f511}:1::::::e:\nfpr:::::::::\u{e9}ABCD:\nsub:u:255:18:S:1::::::e:\nfpr:::::::::EF:\n";
    assert!(check_key_can_encrypt(&listed(text), "\u{e9}abcd"));
    assert!(check_key_can_encrypt(&listed(text), "ef"));
}

#[test]
fn block_after_a_carriage_return_pair_starts_a_line() {
    let text = "pub:u\r\nsub:u:255:18:S:1::::::e:\r\nfpr:::::::::ABCD:\r\n";
    assert!(check_key_can_encrypt(&listed(text), "abcd"));
    let text = "pub:u\rsub:u:255:18:S:1::::::e:\nfpr:::::::::ABCD:\n";
    assert!(!check_key_can_encrypt(&listed(text), "abcd"));
}

#[test]
fn text_is_searched_block_by_block() {
    assert!(text_matches(SUBKEY, "abcdef1234567890"));
    assert!(text_matches("sub:::::::::::e:\r\nfpr:::::::::AB:\r\n", "ab"));
    assert!(!text_matches("sub:::::::::::e:\rfpr:::::::::AB:\n", "ab"));
    assert!(!text_matches("", ""));
}

#[test]
fn crate_root_offers_the_four_operations() {
    let run = listed(SUBKEY);
    assert!(gpg_bridge::check_key_can_encrypt(&run, "abcdef1234567890"));
    assert!(gpg_bridge::check_gpg_installed(&run));
    assert_eq!(gpg_bridge::gpg_encrypt_buffer(run.clone()), Ok(SUBKEY.as_bytes().to_vec()));
    assert_eq!(gpg_bridge::gpg_decrypt_buffer(run), Ok(SUBKEY.as_bytes().to_vec()));
}
