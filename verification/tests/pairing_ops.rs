use pairings::handler::{Event, HandlerType, Pairings};
use pairings::permission::Permission;
use pairings::store::{PairingRecord, PairingStore};
use pairings::tlv::{encode, TlvError, Value};
use uuid::Uuid;

// The Ed25519 base point in compressed form: a well-formed public key.
fn base_point_key() -> Vec<u8> {
    let mut k = vec![0x66u8; 32];
    k[0] = 0x58;
    k
}

// The zero point: also a well-formed compressed point, distinct from the
// base point.
fn zero_key() -> Vec<u8> {
    vec![0u8; 32]
}

const ADMIN_TEXT: &str = "11111111-2222-3333-4444-555555555555";
const UUID_A_TEXT: &str = "93c14e32-04a4-4b17-9a72-a7a73826f1f4";

fn admin_id() -> u128 {
    Uuid::parse_str(ADMIN_TEXT).unwrap().as_u128()
}

fn uuid_a() -> u128 {
    Uuid::parse_str(UUID_A_TEXT).unwrap().as_u128()
}

// A store holding only the admin's own pairing.
fn admin_store() -> PairingStore {
    let mut store = PairingStore::new();
    store.save(PairingRecord {
        id: admin_id(),
        public_key: base_point_key(),
        permissions: Permission::Admin,
    });
    store
}

fn add_request(id_text: &str, key: &[u8], permission_byte: u8) -> Vec<u8> {
    encode(&vec![
        Value::State(1),
        Value::Method(3),
        Value::Identifier(id_text.as_bytes().to_vec()),
        Value::PublicKey(key.to_vec()),
        Value::Permissions(if permission_byte == 1 {
            Permission::Admin
        } else {
            Permission::User
        }),
    ])
}

fn remove_request(id_text: &str) -> Vec<u8> {
    encode(&vec![
        Value::State(1),
        Value::Method(4),
        Value::Identifier(id_text.as_bytes().to_vec()),
    ])
}

fn list_request() -> Vec<u8> {
    encode(&vec![Value::State(1), Value::Method(5)])
}

fn run(
    body: &[u8],
    controller: Option<u128>,
    max_peers: Option<usize>,
    store: &mut PairingStore,
) -> (Result<Vec<Value>, (u8, TlvError)>, Option<Event>) {
    let mut pairings = Pairings::new();
    let op = match pairings.parse(&body.to_vec()) {
        Ok(op) => op,
        Err(ec) => return (Err((ec.step, ec.error)), None),
    };
    let (r, event) = pairings.handle(op, controller, max_peers, store);
    (r.map_err(|ec| (ec.step, ec.error)), event)
}

fn is_state_marker_only(container: &[Value]) -> bool {
    container.len() == 1 && matches!(container[0], Value::State(2))
}

#[test]
fn parse_add_request() {
    let pairings = Pairings::new();
    let body = add_request(UUID_A_TEXT, &base_point_key(), 0);
    match pairings.parse(&body).unwrap() {
        HandlerType::Add {
            pairing_id,
            ltpk,
            permissions,
        } => {
            assert_eq!(pairing_id, UUID_A_TEXT.as_bytes().to_vec());
            assert_eq!(ltpk, base_point_key());
            assert_eq!(permissions, Permission::User);
        }
        _ => panic!("expected an Add operation"),
    }
}

#[test]
fn parse_remove_and_list_requests() {
    let pairings = Pairings::new();
    match pairings.parse(&remove_request(UUID_A_TEXT)).unwrap() {
        HandlerType::Remove { pairing_id } => {
            assert_eq!(pairing_id, UUID_A_TEXT.as_bytes().to_vec());
        }
        _ => panic!("expected a Remove operation"),
    }
    assert!(matches!(
        pairings.parse(&list_request()).unwrap(),
        HandlerType::List
    ));
}

#[test]
fn parse_rejects_wrong_state() {
    let pairings = Pairings::new();
    let body = encode(&vec![Value::State(2), Value::Method(5)]);
    let ec = pairings.parse(&body).unwrap_err();
    assert_eq!((ec.step, ec.error), (0, TlvError::Unknown));
}

#[test]
fn parse_rejects_missing_method() {
    let pairings = Pairings::new();
    let body = encode(&vec![Value::State(1)]);
    let ec = pairings.parse(&body).unwrap_err();
    assert_eq!((ec.step, ec.error), (0, TlvError::Unknown));
}

#[test]
fn parse_rejects_unknown_method() {
    let pairings = Pairings::new();
    let body = encode(&vec![Value::State(1), Value::Method(9)]);
    let ec = pairings.parse(&body).unwrap_err();
    assert_eq!((ec.step, ec.error), (0, TlvError::Unknown));
}

#[test]
fn parse_reports_missing_add_field_at_response_step() {
    let pairings = Pairings::new();
    let body = encode(&vec![
        Value::State(1),
        Value::Method(3),
        Value::Identifier(UUID_A_TEXT.as_bytes().to_vec()),
    ]);
    let ec = pairings.parse(&body).unwrap_err();
    assert_eq!((ec.step, ec.error), (2, TlvError::Unknown));
}

#[test]
fn parse_rejects_unknown_permission_byte() {
    let pairings = Pairings::new();
    let mut body = encode(&vec![
        Value::State(1),
        Value::Method(3),
        Value::Identifier(UUID_A_TEXT.as_bytes().to_vec()),
        Value::PublicKey(zero_key()),
    ]);
    body.extend_from_slice(&[11, 1, 7]);
    let ec = pairings.parse(&body).unwrap_err();
    assert_eq!((ec.step, ec.error), (2, TlvError::Unknown));
}

#[test]
fn parse_rejects_malformed_body() {
    let pairings = Pairings::new();
    let ec = pairings.parse(&vec![6, 9, 1]).unwrap_err();
    assert_eq!((ec.step, ec.error), (0, TlvError::Unknown));
}

#[test]
fn add_new_pairing_from_admin() {
    let mut store = admin_store();
    let body = add_request(UUID_A_TEXT, &zero_key(), 0);
    let (r, event) = run(&body, Some(admin_id()), None, &mut store);
    assert!(is_state_marker_only(&r.unwrap()));
    assert_eq!(event, Some(Event::ControllerPaired { id: uuid_a() }));
    let records = store.list();
    assert_eq!(records.len(), 2);
    assert_eq!(records[1].id, uuid_a());
    assert_eq!(records[1].public_key, zero_key());
    assert_eq!(records[1].permissions, Permission::User);
}

#[test]
fn add_again_updates_permission_and_keeps_key() {
    let mut store = admin_store();
    let first = add_request(UUID_A_TEXT, &zero_key(), 0);
    run(&first, Some(admin_id()), None, &mut store).0.unwrap();
    let again = add_request(UUID_A_TEXT, &zero_key(), 1);
    let (r, event) = run(&again, Some(admin_id()), None, &mut store);
    assert!(is_state_marker_only(&r.unwrap()));
    assert_eq!(event, Some(Event::ControllerPaired { id: uuid_a() }));
    let records = store.list();
    assert_eq!(records.len(), 2);
    assert_eq!(records[1].id, uuid_a());
    assert_eq!(records[1].public_key, zero_key());
    assert_eq!(records[1].permissions, Permission::Admin);
}

#[test]
fn add_with_different_key_is_rejected_without_mutation() {
    let mut store = admin_store();
    let first = add_request(UUID_A_TEXT, &zero_key(), 0);
    run(&first, Some(admin_id()), None, &mut store).0.unwrap();
    let hostile = add_request(UUID_A_TEXT, &base_point_key(), 1);
    let (r, event) = run(&hostile, Some(admin_id()), None, &mut store);
    assert_eq!(r.unwrap_err(), (2, TlvError::Unknown));
    assert_eq!(event, None);
    let records = store.list();
    assert_eq!(records.len(), 2);
    assert_eq!(records[1].public_key, zero_key());
    assert_eq!(records[1].permissions, Permission::User);
}

#[test]
fn add_past_max_peers_fails_with_capacity_error() {
    let mut store = admin_store();
    let body = add_request(UUID_A_TEXT, &zero_key(), 0);
    let (r, event) = run(&body, Some(admin_id()), Some(1), &mut store);
    assert_eq!(r.unwrap_err(), (2, TlvError::MaxPeers));
    assert_eq!(event, None);
    assert_eq!(store.list().len(), 1);
}

#[test]
fn add_with_malformed_identifier_fails() {
    let mut store = admin_store();
    let body = add_request("not-a-uuid", &zero_key(), 0);
    let (r, event) = run(&body, Some(admin_id()), None, &mut store);
    assert_eq!(r.unwrap_err(), (2, TlvError::Unknown));
    assert_eq!(event, None);
    assert_eq!(store.list().len(), 1);
}

#[test]
fn add_with_short_key_fails() {
    let mut store = admin_store();
    let body = add_request(UUID_A_TEXT, &[1u8; 31], 0);
    let (r, event) = run(&body, Some(admin_id()), None, &mut store);
    assert_eq!(r.unwrap_err(), (2, TlvError::Unknown));
    assert_eq!(event, None);
    assert_eq!(store.list().len(), 1);
}

#[test]
fn resubmission_with_short_key_fails_key_validation() {
    let mut store = admin_store();
    let first = add_request(UUID_A_TEXT, &zero_key(), 0);
    run(&first, Some(admin_id()), None, &mut store).0.unwrap();
    let body = add_request(UUID_A_TEXT, &[0u8; 31], 1);
    let (r, event) = run(&body, Some(admin_id()), None, &mut store);
    assert_eq!(r.unwrap_err(), (2, TlvError::Unknown));
    assert_eq!(event, None);
    assert_eq!(store.list()[1].permissions, Permission::User);
}

#[test]
fn remove_pairing_from_admin() {
    let mut store = admin_store();
    let add = add_request(UUID_A_TEXT, &zero_key(), 0);
    run(&add, Some(admin_id()), None, &mut store).0.unwrap();
    let (r, event) = run(&remove_request(UUID_A_TEXT), Some(admin_id()), None, &mut store);
    assert!(is_state_marker_only(&r.unwrap()));
    assert_eq!(event, Some(Event::ControllerUnpaired { id: uuid_a() }));
    let records = store.list();
    assert_eq!(records.len(), 1);
    assert!(records.iter().all(|rec| rec.id != uuid_a()));
}

#[test]
fn remove_absent_pairing_succeeds_and_still_notifies() {
    let mut store = admin_store();
    let (r, event) = run(&remove_request(UUID_A_TEXT), Some(admin_id()), None, &mut store);
    assert!(is_state_marker_only(&r.unwrap()));
    assert_eq!(event, Some(Event::ControllerUnpaired { id: uuid_a() }));
    assert_eq!(store.list().len(), 1);
}

#[test]
fn list_on_admin_only_store() {
    let mut store = admin_store();
    let (r, event) = run(&list_request(), Some(admin_id()), None, &mut store);
    let container = r.unwrap();
    assert_eq!(event, None);
    // The state marker, then one record of three items and its separator.
    assert_eq!(container.len(), 5);
    assert!(matches!(container[0], Value::State(2)));
    let expected_text = Uuid::from_u128(admin_id()).hyphenated().to_string();
    match &container[1] {
        Value::Identifier(text) => assert_eq!(text, expected_text.as_bytes()),
        _ => panic!("expected the identifier text"),
    }
    match &container[2] {
        Value::PublicKey(k) => assert_eq!(k, &base_point_key()),
        _ => panic!("expected the key bytes"),
    }
    assert!(matches!(
        container[3],
        Value::Permissions(Permission::Admin)
    ));
    assert!(matches!(container[4], Value::Separator));
}

#[test]
fn list_has_one_separator_after_every_record() {
    let mut store = admin_store();
    let add = add_request(UUID_A_TEXT, &zero_key(), 0);
    run(&add, Some(admin_id()), None, &mut store).0.unwrap();
    let (r, _) = run(&list_request(), Some(admin_id()), None, &mut store);
    let container = r.unwrap();
    assert_eq!(container.len(), 9);
    let separators = container
        .iter()
        .filter(|v| matches!(v, Value::Separator))
        .count();
    assert_eq!(separators, 2);
    assert!(matches!(container[4], Value::Separator));
    assert!(matches!(container[8], Value::Separator));
}

#[test]
fn unauthenticated_caller_is_rejected_everywhere() {
    let mut store = admin_store();
    for body in [
        add_request(UUID_A_TEXT, &zero_key(), 0),
        remove_request(UUID_A_TEXT),
        list_request(),
    ] {
        let (r, event) = run(&body, None, None, &mut store);
        assert_eq!(r.unwrap_err(), (2, TlvError::Authentication));
        assert_eq!(event, None);
        assert_eq!(store.list().len(), 1);
    }
}

#[test]
fn non_admin_caller_is_rejected_everywhere() {
    let mut store = admin_store();
    let add = add_request(UUID_A_TEXT, &zero_key(), 0);
    run(&add, Some(admin_id()), None, &mut store).0.unwrap();
    for body in [
        add_request(UUID_A_TEXT, &zero_key(), 1),
        remove_request(UUID_A_TEXT),
        list_request(),
    ] {
        let (r, event) = run(&body, Some(uuid_a()), None, &mut store);
        assert_eq!(r.unwrap_err(), (2, TlvError::Authentication));
        assert_eq!(event, None);
        assert_eq!(store.list().len(), 2);
        assert_eq!(store.list()[1].permissions, Permission::User);
    }
}

#[test]
fn unknown_caller_identity_is_rejected() {
    let mut store = admin_store();
    let (r, event) = run(&list_request(), Some(uuid_a()), None, &mut store);
    assert_eq!(r.unwrap_err(), (2, TlvError::Authentication));
    assert_eq!(event, None);
}
