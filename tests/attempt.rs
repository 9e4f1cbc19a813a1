use pam_ssh_agent::attempt::{Attempt, Event, IdentityOutcome, Step};
use pam_ssh_agent::keys::{parse_key_file, parse_key_line};
use pam_ssh_agent::nonce::{generate_nonce, NONCE_LEN};
use pam_ssh_agent::AuthError;

use data_encoding::BASE64;

fn ed25519_blob(seed: u8) -> Vec<u8> {
    let mut blob = vec![0u8, 0, 0, 11];
    blob.extend_from_slice(b"ssh-ed25519");
    blob.extend_from_slice(&[0u8, 0, 0, 32]);
    for i in 0..32u8 {
        blob.push(seed.wrapping_add(i));
    }
    blob
}

fn key_line(blob: &[u8], comment: &str) -> Vec<u8> {
    format!("ssh-ed25519 {} {}", BASE64.encode(blob), comment).into_bytes()
}

/// Drives an attempt up to the listing of identities.
fn listed(lines: Vec<Vec<u8>>, ids: Vec<Vec<u8>>) -> (Attempt, Step) {
    let mut a = Attempt::new(vec!["authorized_keys".to_string()]);
    assert_eq!(a.step(), Step::ReadKeyFile);
    let n = lines.iter().filter(|l| !l.iter().all(|b| b.is_ascii_whitespace())).count();
    assert_eq!(a.handle(Event::KeyFileRead(Some(lines))), Step::CheckKeys);
    assert_eq!(a.handle(Event::KeysChecked(vec![true; n])), Step::Connect);
    assert_eq!(a.nonce.len(), NONCE_LEN);
    assert_eq!(a.handle(Event::AgentConnected(true)), Step::ListIdentities);
    let s = a.handle(Event::IdentitiesListed(Some(ids)));
    (a, s)
}

#[test]
fn empty_key_file_denies() {
    let (a, s) = listed(vec![], vec![ed25519_blob(1), ed25519_blob(2)]);
    assert_eq!(s, Step::Done(Ok(false)));
    assert_eq!(a.outcomes, vec![IdentityOutcome::Skipped, IdentityOutcome::Skipped]);
}

#[test]
fn matching_key_that_signs_is_accepted() {
    let k = ed25519_blob(7);
    let (mut a, s) = listed(vec![key_line(&k, "me@host")], vec![k]);
    assert_eq!(s, Step::RequestSignature(0));
    assert_eq!(a.handle(Event::SignatureReceived(Some(vec![1, 2, 3]))), Step::CheckSignature(0));
    assert_eq!(a.signature, vec![1, 2, 3]);
    assert_eq!(a.handle(Event::SignatureChecked(true)), Step::Done(Ok(true)));
    assert_eq!(a.outcomes, vec![IdentityOutcome::Verified]);
}

#[test]
fn bad_signature_denies_after_all_identities() {
    let k = ed25519_blob(7);
    let (mut a, s) = listed(vec![key_line(&k, "")], vec![k.clone(), ed25519_blob(9)]);
    assert_eq!(s, Step::RequestSignature(0));
    a.handle(Event::SignatureReceived(Some(vec![0; 64])));
    assert_eq!(a.handle(Event::SignatureChecked(false)), Step::Done(Ok(false)));
    assert_eq!(a.outcomes, vec![IdentityOutcome::VerifyFailed, IdentityOutcome::Skipped]);
}

#[test]
fn wrong_argument_count_is_a_config_error() {
    let a = Attempt::new(vec![]);
    assert_eq!(a.step(), Step::Done(Err(AuthError::Config)));
    let a = Attempt::new(vec!["a".to_string(), "b".to_string()]);
    assert_eq!(a.step(), Step::Done(Err(AuthError::Config)));
    let a = Attempt::new(vec!["a".to_string()]);
    assert_eq!(a.path, "a");
}

#[test]
fn unreadable_key_file_is_a_key_file_error() {
    let mut a = Attempt::new(vec!["/nonexistent/authorized_keys".to_string()]);
    assert_eq!(a.handle(Event::KeyFileRead(None)), Step::Done(Err(AuthError::KeyFile)));
}

#[test]
fn unreachable_agent_is_a_connection_error() {
    let mut a = Attempt::new(vec!["k".to_string()]);
    a.handle(Event::KeyFileRead(Some(vec![])));
    a.handle(Event::KeysChecked(vec![]));
    assert_eq!(a.handle(Event::AgentConnected(false)), Step::Done(Err(AuthError::AgentConnection)));
}

#[test]
fn failed_listing_is_a_connection_error() {
    let mut a = Attempt::new(vec!["k".to_string()]);
    a.handle(Event::KeyFileRead(Some(vec![])));
    a.handle(Event::KeysChecked(vec![]));
    a.handle(Event::AgentConnected(true));
    assert_eq!(a.handle(Event::IdentitiesListed(None)), Step::Done(Err(AuthError::AgentConnection)));
}

#[test]
fn rejected_key_material_is_a_key_file_error() {
    let mut a = Attempt::new(vec!["k".to_string()]);
    a.handle(Event::KeyFileRead(Some(vec![key_line(&ed25519_blob(1), "")])));
    assert_eq!(a.handle(Event::KeysChecked(vec![false])), Step::Done(Err(AuthError::KeyFile)));
    let mut a = Attempt::new(vec!["k".to_string()]);
    a.handle(Event::KeyFileRead(Some(vec![key_line(&ed25519_blob(1), "")])));
    assert_eq!(a.handle(Event::KeysChecked(vec![])), Step::Done(Err(AuthError::KeyFile)));
}

#[test]
fn malformed_line_fails_the_whole_file() {
    let mut a = Attempt::new(vec!["k".to_string()]);
    let lines = vec![key_line(&ed25519_blob(1), ""), b"ssh-ed25519".to_vec()];
    assert_eq!(a.handle(Event::KeyFileRead(Some(lines))), Step::Done(Err(AuthError::KeyFile)));
    assert!(a.allowed.is_empty());
}

#[test]
fn unlisted_identity_is_never_asked_to_sign() {
    let k = ed25519_blob(3);
    let (a, s) = listed(vec![key_line(&k, "")], vec![ed25519_blob(4), ed25519_blob(5), k]);
    assert_eq!(s, Step::RequestSignature(2));
    assert_eq!(a.outcomes, vec![IdentityOutcome::Skipped, IdentityOutcome::Skipped]);
}

#[test]
fn refused_signature_moves_to_next_identity() {
    let k1 = ed25519_blob(3);
    let k2 = ed25519_blob(40);
    let (mut a, s) = listed(vec![key_line(&k1, ""), key_line(&k2, "")], vec![k1, k2]);
    assert_eq!(s, Step::RequestSignature(0));
    assert_eq!(a.handle(Event::SignatureReceived(None)), Step::RequestSignature(1));
    assert_eq!(a.outcomes, vec![IdentityOutcome::SignFailed]);
}

#[test]
fn no_identity_is_asked_after_success() {
    let k1 = ed25519_blob(3);
    let k2 = ed25519_blob(40);
    let (mut a, _) = listed(vec![key_line(&k1, ""), key_line(&k2, "")], vec![k1, k2]);
    a.handle(Event::SignatureReceived(Some(vec![5])));
    assert_eq!(a.handle(Event::SignatureChecked(true)), Step::Done(Ok(true)));
    assert_eq!(a.handle(Event::SignatureReceived(None)), Step::Done(Ok(true)));
    assert_eq!(a.handle(Event::SignatureChecked(false)), Step::Done(Ok(true)));
    assert_eq!(a.outcomes, vec![IdentityOutcome::Verified]);
}

#[test]
fn out_of_turn_event_changes_nothing() {
    let mut a = Attempt::new(vec!["k".to_string()]);
    assert_eq!(a.handle(Event::AgentConnected(true)), Step::ReadKeyFile);
    assert_eq!(a.handle(Event::SignatureChecked(true)), Step::ReadKeyFile);
}

#[test]
fn duplicate_entries_are_harmless() {
    let k = ed25519_blob(3);
    let (a, s) = listed(vec![key_line(&k, "a"), key_line(&k, "b")], vec![k]);
    assert_eq!(s, Step::RequestSignature(0));
    assert_eq!(a.allowed.len(), 2);
}

#[test]
fn key_file_keeps_order_and_skips_blank_lines() {
    let k1 = ed25519_blob(1);
    let k2 = ed25519_blob(2);
    let lines = vec![
        key_line(&k1, "first"),
        b"   \t ".to_vec(),
        Vec::new(),
        format!("\tssh-ed25519\t {}", BASE64.encode(&k2)).into_bytes(),
    ];
    let entries = parse_key_file(&lines).unwrap();
    assert_eq!(entries.len(), 2);
    assert_eq!(entries[0].blob, k1);
    assert_eq!(entries[0].algorithm, b"ssh-ed25519".to_vec());
    assert_eq!(entries[1].blob, k2);
}

#[test]
fn blank_only_file_gives_no_keys() {
    let lines = vec![b"".to_vec(), b"  ".to_vec(), b"\r".to_vec()];
    assert!(parse_key_file(&lines).unwrap().is_empty());
    assert!(parse_key_file(&vec![]).unwrap().is_empty());
}

#[test]
fn line_errors() {
    assert!(matches!(parse_key_line(&b"ssh-ed25519".to_vec()), Err(AuthError::KeyFile)));
    assert!(matches!(parse_key_line(&b"ssh-ed25519 !!notbase64!!".to_vec()), Err(AuthError::KeyFile)));
    assert!(matches!(parse_key_line(&b"# a comment line".to_vec()), Err(AuthError::KeyFile)));
    assert!(matches!(parse_key_line(&b" \t".to_vec()), Ok(None)));
}

#[test]
fn decoded_key_reencodes_to_payload() {
    let k = ed25519_blob(11);
    let payload = BASE64.encode(&k);
    let line = format!("ssh-ed25519 {} user@host", payload).into_bytes();
    let entry = parse_key_line(&line).unwrap().unwrap();
    assert_eq!(entry.blob, k);
    assert_eq!(BASE64.encode(&entry.blob), payload);
    assert_ne!(entry.blob, payload.into_bytes());
}

#[test]
fn nonces_are_long_and_distinct() {
    let mut seen = std::collections::HashSet::new();
    for _ in 0..1000 {
        let n = generate_nonce();
        assert_eq!(n.len(), 1024);
        assert!(seen.insert(n));
    }
}
