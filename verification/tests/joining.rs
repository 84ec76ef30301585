use rescue_shell::access::{is_authorized, merge_allowed};
use rescue_shell::io::{gen_public_key, parse_public_keys};
use rescue_shell::link::{
    dial_target, helper_keeps_writing, helper_reads, victim_reads, victim_writes, Incoming,
    Outgoing, ReadStep, WriteStep,
};
use rescue_shell::pairing::{Pairing, PairingAction};
use rescue_shell::protocol::HandshakePayload;

const SECRET: &str = "9d61b19deffd5a60ba844af492ec2cc44449c5697b326919703bac031cae7f60";
const PUBLIC: &str = "d75a980182b10ab7d54bfed3c964073a0ee172f3daa62325af021a68f707511a";

fn key() -> [u8; 32] {
    parse_public_keys(PUBLIC).unwrap()[0]
}

fn todo(actions: &[PairingAction]) -> Vec<String> {
    actions
        .iter()
        .map(|a| match a {
            PairingAction::JoinMailbox(code) => format!("join {code}"),
            PairingAction::CreateMailbox(words) => format!("create {words}"),
            PairingAction::ShowCode(code) => format!("show {code}"),
            PairingAction::HideCode => "hide".to_string(),
            PairingAction::Exchange => "exchange".to_string(),
            PairingAction::AwaitConnected(secs) => format!("await {secs}"),
            PairingAction::AwaitDisconnected => "await end".to_string(),
            PairingAction::Rest(secs) => format!("rest {secs}"),
        })
        .collect()
}

#[test]
fn list_decides_who_may_join() {
    let allowed = Some(vec![[1u8; 32], [2u8; 32]]);
    assert!(is_authorized(&allowed, &None, &[2u8; 32]));
    assert!(!is_authorized(&allowed, &Some([3u8; 32]), &[3u8; 32]));
    assert!(!is_authorized(&Some(vec![]), &Some([3u8; 32]), &[3u8; 32]));
}

#[test]
fn without_a_list_the_code_decides() {
    assert!(is_authorized(&None, &Some([3u8; 32]), &[3u8; 32]));
    assert!(!is_authorized(&None, &Some([3u8; 32]), &[4u8; 32]));
    assert!(!is_authorized(&None, &None, &[3u8; 32]));
}

#[test]
fn keys_of_a_file_come_after_those_given() {
    let a = [1u8; 32];
    let b = [2u8; 32];
    assert_eq!(merge_allowed(Some(vec![a]), Some(vec![b])), Some(vec![a, b]));
    assert_eq!(merge_allowed(None, Some(vec![b])), Some(vec![b]));
    assert_eq!(merge_allowed(None, Some(vec![])), Some(vec![]));
    assert_eq!(merge_allowed(Some(vec![a]), None), Some(vec![a]));
    assert_eq!(merge_allowed(None, None), None);
}

#[test]
fn pairing_with_one_helper() {
    let (mut p, first) = Pairing::new(None, None, false);
    assert_eq!(todo(&first), vec!["create 2"]);
    assert_eq!(todo(&p.on_opened("7-a-b".to_string())), vec!["show 7-a-b", "exchange"]);
    assert_eq!(p.authenticated_peer(), None);
    assert_eq!(todo(&p.on_received(&key())), vec!["await 60"]);
    assert_eq!(p.authenticated_peer(), Some(key()));
    assert_eq!(todo(&p.on_connected()), vec!["hide", "await end"]);
    assert_eq!(p.authenticated_peer(), Some(key()));
    assert_eq!(todo(&p.on_disconnected()), vec!["create 2"]);
    assert_eq!(p.authenticated_peer(), None);
}

#[test]
fn pairing_with_several_helpers() {
    let (mut p, first) = Pairing::new(Some("1-x-y".to_string()), Some(4), true);
    assert_eq!(todo(&first), vec!["join 1-x-y"]);
    p.on_opened("1-x-y".to_string());
    assert_eq!(todo(&p.on_key(Some([9u8; 32]))), vec!["join 1-x-y"]);
    assert_eq!(p.authenticated_peer(), Some([9u8; 32]));
}

#[test]
fn pairing_fails_and_goes_on() {
    let (mut p, first) = Pairing::new(None, Some(3), false);
    assert_eq!(todo(&first), vec!["create 3"]);
    assert_eq!(todo(&p.on_failed()), vec!["hide", "rest 1"]);
    assert!(p.on_failed().is_empty());
    assert_eq!(todo(&p.on_rested()), vec!["create 3"]);
    p.on_opened("c".to_string());
    assert_eq!(todo(&p.on_received(b"no key")), vec!["hide", "rest 1"]);
    p.on_rested();
    p.on_opened("c".to_string());
    p.on_key(Some([9u8; 32]));
    assert_eq!(todo(&p.on_failed()), vec!["hide", "rest 1"]);
    assert_eq!(p.authenticated_peer(), None);
}

#[test]
fn failure_while_serving_means_that_the_helper_has_left() {
    let (mut p, _) = Pairing::new(None, None, false);
    p.on_opened("c".to_string());
    p.on_key(Some([9u8; 32]));
    p.on_connected();
    assert_eq!(todo(&p.on_failed()), vec!["create 2"]);
    assert_eq!(p.authenticated_peer(), None);
}

#[test]
fn pairing_ignores_what_it_does_not_await() {
    let (mut p, _) = Pairing::new(None, None, false);
    assert!(p.on_connected().is_empty());
    assert!(p.on_disconnected().is_empty());
    assert!(p.on_rested().is_empty());
    assert!(p.on_key(Some([9u8; 32])).is_empty());
    assert_eq!(p.authenticated_peer(), None);
    p.on_opened("c".to_string());
    assert!(p.on_opened("d".to_string()).is_empty());
}

#[test]
fn only_keys_can_be_dialled() {
    assert_eq!(gen_public_key(SECRET).unwrap(), PUBLIC);
    let payload = HandshakePayload {
        public_key: key(),
        relay_url: Some("https://r".to_string()),
        direct_addresses: vec!["1.2.3.4:5".to_string()],
    };
    let target = dial_target(payload).unwrap();
    assert_eq!(target.key, key());
    assert_eq!(target.relay_url, Some("https://r".to_string()));
    assert_eq!(target.direct_addresses, vec!["1.2.3.4:5".to_string()]);
    let mut no_point = [0u8; 32];
    no_point[0] = 2;
    let payload = HandshakePayload {
        public_key: no_point,
        relay_url: None,
        direct_addresses: vec![],
    };
    assert!(dial_target(payload).is_none());
}

#[test]
fn pumps_decide() {
    assert_eq!(helper_reads(Incoming::Message), ReadStep::Deliver);
    assert_eq!(helper_reads(Incoming::Garbled), ReadStep::Skip);
    assert_eq!(helper_reads(Incoming::Broken), ReadStep::Stop);
    assert_eq!(helper_reads(Incoming::Ended), ReadStep::Stop);
    assert_eq!(victim_reads(Incoming::Message), ReadStep::Deliver);
    assert_eq!(victim_reads(Incoming::Garbled), ReadStep::Stop);
    assert_eq!(victim_writes(Outgoing::Message), WriteStep::Send);
    assert_eq!(victim_writes(Outgoing::Lagged(7)), WriteStep::Fail(7));
    assert_eq!(victim_writes(Outgoing::Closed), WriteStep::Finish);
    assert!(helper_keeps_writing(false, false, false));
    assert!(helper_keeps_writing(true, true, false));
    assert!(helper_keeps_writing(true, false, true));
    assert!(!helper_keeps_writing(true, false, false));
}
