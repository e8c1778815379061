//! The pairing-management state machine: one request, one response. A
//! request body is decoded into a typed operation, the operation is
//! authorized against the credential store, executed, and a response
//! container (or a structured error) is built. Events to publish are
//! returned to the caller, to be emitted only after store access has been
//! given up.

use vstd::prelude::*;

use crate::bytes::{bytes_eq, copy_bytes};
use crate::ids::{
    ed25519_valid, hyphenated_of, parse_uuid, uuid_of_bytes, uuid_to_hyphenated, validate_ltpk,
};
use crate::permission::Permission;
use crate::store::{duplicate_record, PairingRecord, PairingStore};
use crate::tlv::{
    container_view, decode, spec_decode, SpecValue, TlvError, Value, TYPE_IDENTIFIER, TYPE_METHOD,
    TYPE_PERMISSIONS, TYPE_PUBLIC_KEY, TYPE_STATE,
};

verus! {

/// Step tag of an error that arose before a method was identified.
pub const STEP_UNKNOWN: u8 = 0;

/// Step tag of the single response of this exchange.
pub const STEP_RES: u8 = 2;

/// Wire value of the request state field.
pub const STATE_REQUEST: u8 = 1;

pub const METHOD_ADD: u8 = 3;

pub const METHOD_REMOVE: u8 = 4;

pub const METHOD_LIST: u8 = 5;

/// A structured protocol error: the step it is reported at and its kind.
#[derive(Clone, Copy, PartialEq, Eq, Structural, Debug)]
pub struct ErrorContainer {
    pub step: u8,
    pub error: TlvError,
}

impl ErrorContainer {
    pub fn new(step: u8, error: TlvError) -> (r: ErrorContainer)
        ensures
            r == (ErrorContainer { step, error }),
    {
        ErrorContainer { step, error }
    }

    /// The TLV container this error is sent as.
    pub fn container(&self) -> (r: Vec<Value>)
        ensures
            container_view(r@) == seq![
                SpecValue::State(self.step),
                SpecValue::Error(self.error),
            ],
    {
        let r = vec![Value::State(self.step), Value::Error(self.error)];
        proof {
            assert(container_view(r@) =~= seq![
                SpecValue::State(self.step),
                SpecValue::Error(self.error),
            ]);
        }
        r
    }
}

/// The typed operation a request decodes to; it lives for one exchange.
#[derive(Debug)]
pub enum HandlerType {
    Add { pairing_id: Vec<u8>, ltpk: Vec<u8>, permissions: Permission },
    Remove { pairing_id: Vec<u8> },
    List,
}

/// Mathematical model of a decoded operation.
pub enum SpecOp {
    Add { pairing_id: Seq<u8>, ltpk: Seq<u8>, permissions: Permission },
    Remove { pairing_id: Seq<u8> },
    List,
}

impl View for HandlerType {
    type V = SpecOp;

    open spec fn view(&self) -> SpecOp {
        match self {
            HandlerType::Add { pairing_id, ltpk, permissions } => SpecOp::Add {
                pairing_id: pairing_id@,
                ltpk: ltpk@,
                permissions: *permissions,
            },
            HandlerType::Remove { pairing_id } => SpecOp::Remove { pairing_id: pairing_id@ },
            HandlerType::List => SpecOp::List,
        }
    }
}

/// A pairing-lifecycle notification, published after an operation.
#[derive(Clone, Copy, PartialEq, Eq, Structural, Debug)]
pub enum Event {
    ControllerPaired { id: u128 },
    ControllerUnpaired { id: u128 },
}

/// What a well-formed request decodes to: the typed operation, or the step
/// and kind of the error to report.
pub open spec fn spec_parse_map(m: Map<u8, Seq<u8>>) -> Result<SpecOp, (u8, TlvError)> {
    if !(m.dom().contains(TYPE_STATE) && m[TYPE_STATE] == seq![STATE_REQUEST]) {
        Err((STEP_UNKNOWN, TlvError::Unknown))
    } else if !m.dom().contains(TYPE_METHOD) || m[TYPE_METHOD].len() == 0 {
        Err((STEP_UNKNOWN, TlvError::Unknown))
    } else {
        let meth = m[TYPE_METHOD][0];
        if meth == METHOD_ADD {
            if !m.dom().contains(TYPE_IDENTIFIER) || !m.dom().contains(TYPE_PUBLIC_KEY)
                || !m.dom().contains(TYPE_PERMISSIONS) {
                Err((STEP_RES, TlvError::Unknown))
            } else if m[TYPE_PERMISSIONS].len() == 0 {
                Err((STEP_RES, TlvError::Unknown))
            } else {
                match Permission::spec_from_byte(m[TYPE_PERMISSIONS][0]) {
                    None => Err((STEP_RES, TlvError::Unknown)),
                    Some(p) => Ok(
                        SpecOp::Add {
                            pairing_id: m[TYPE_IDENTIFIER],
                            ltpk: m[TYPE_PUBLIC_KEY],
                            permissions: p,
                        },
                    ),
                }
            }
        } else if meth == METHOD_REMOVE {
            if !m.dom().contains(TYPE_IDENTIFIER) {
                Err((STEP_RES, TlvError::Unknown))
            } else {
                Ok(SpecOp::Remove { pairing_id: m[TYPE_IDENTIFIER] })
            }
        } else if meth == METHOD_LIST {
            Ok(SpecOp::List)
        } else {
            Err((STEP_UNKNOWN, TlvError::Unknown))
        }
    }
}

/// What a request body decodes to: a decode failure is a pre-parse error.
pub open spec fn spec_parse(body: Seq<u8>) -> Result<SpecOp, (u8, TlvError)> {
    match spec_decode(body) {
        None => Err((STEP_UNKNOWN, TlvError::Unknown)),
        Some(m) => spec_parse_map(m),
    }
}

/// Whether the caller is an authenticated admin: it has an identity, the
/// identity resolves in the store, and the record's access level is Admin.
pub open spec fn spec_is_admin(store: PairingStore, controller_id: Option<u128>) -> bool {
    match controller_id {
        Some(c) => store.spec_contains(c) && store.spec_record(c).permissions
            == Permission::Admin,
        None => false,
    }
}

/// The container of a successful Add or Remove: the response state marker
/// alone.
pub open spec fn spec_ok_container() -> Seq<SpecValue> {
    seq![SpecValue::State(STEP_RES)]
}

/// Everything an Add operation guarantees, relating the store before and
/// after to the result and the event.
pub open spec fn spec_add_post(
    s0: PairingStore,
    s1: PairingStore,
    controller_id: Option<u128>,
    max_peers: Option<usize>,
    pairing_id: Seq<u8>,
    ltpk: Seq<u8>,
    permissions: Permission,
    r: Result<(Seq<SpecValue>, Event), TlvError>,
) -> bool {
    if !spec_is_admin(s0, controller_id) {
        r == Err::<(Seq<SpecValue>, Event), TlvError>(TlvError::Authentication) && s1@ == s0@
    } else {
        match uuid_of_bytes(pairing_id) {
            None => r == Err::<(Seq<SpecValue>, Event), TlvError>(TlvError::Unknown) && s1@
                == s0@,
            Some(u) => {
                if s0.spec_contains(u) {
                    let idx = s0.spec_index_of(u);
                    let stored = s0.spec_record(u);
                    if ed25519_valid(stored.public_key@) && ed25519_valid(ltpk)
                        && stored.public_key@ == ltpk {
                        &&& r matches Ok(ok)
                        &&& ok.0 == spec_ok_container()
                        &&& ok.1 == Event::ControllerPaired { id: u }
                        &&& s1@ == s0@.update(idx, s1@[idx])
                        &&& s1@[idx].id == u
                        &&& s1@[idx].public_key@ == stored.public_key@
                        &&& s1@[idx].permissions == permissions
                    } else {
                        r == Err::<(Seq<SpecValue>, Event), TlvError>(TlvError::Unknown) && s1@
                            == s0@
                    }
                } else {
                    if (match max_peers {
                        Some(m) => s0@.len() + 1 > m,
                        None => false,
                    }) {
                        r == Err::<(Seq<SpecValue>, Event), TlvError>(TlvError::MaxPeers) && s1@
                            == s0@
                    } else if ltpk.len() != 32 {
                        r == Err::<(Seq<SpecValue>, Event), TlvError>(TlvError::Unknown) && s1@
                            == s0@
                    } else {
                        &&& r matches Ok(ok)
                        &&& ok.0 == spec_ok_container()
                        &&& ok.1 == Event::ControllerPaired { id: u }
                        &&& s1@.len() == s0@.len() + 1
                        &&& s1@ == s0@.push(s1@.last())
                        &&& s1@.last().id == u
                        &&& s1@.last().public_key@ == ltpk
                        &&& s1@.last().permissions == permissions
                    }
                }
            },
        }
    }
}

/// Everything a Remove operation guarantees: removal is idempotent, and
/// the unpaired event is carried even for an absent identifier.
pub open spec fn spec_remove_post(
    s0: PairingStore,
    s1: PairingStore,
    controller_id: Option<u128>,
    pairing_id: Seq<u8>,
    r: Result<(Seq<SpecValue>, Event), TlvError>,
) -> bool {
    if !spec_is_admin(s0, controller_id) {
        r == Err::<(Seq<SpecValue>, Event), TlvError>(TlvError::Authentication) && s1@ == s0@
    } else {
        match uuid_of_bytes(pairing_id) {
            None => r == Err::<(Seq<SpecValue>, Event), TlvError>(TlvError::Unknown) && s1@
                == s0@,
            Some(u) => {
                &&& r matches Ok(ok)
                &&& ok.0 == spec_ok_container()
                &&& ok.1 == Event::ControllerUnpaired { id: u }
                &&& if s0.spec_contains(u) {
                    s1@ == s0@.remove(s0.spec_index_of(u))
                } else {
                    s1@ == s0@
                }
            },
        }
    }
}

/// The item views of one listed record: its hyphenated identifier text,
/// its raw key bytes, its permission, then a separator.
pub open spec fn spec_record_values(rec: PairingRecord) -> Seq<SpecValue> {
    seq![
        SpecValue::Identifier(hyphenated_of(rec.id)),
        SpecValue::PublicKey(rec.public_key@),
        SpecValue::Permissions(rec.permissions),
        SpecValue::Separator,
    ]
}

/// The listed records, in store order, a separator following each one.
pub open spec fn spec_list_body(records: Seq<PairingRecord>) -> Seq<SpecValue>
    decreases records.len(),
{
    if records.len() == 0 {
        Seq::empty()
    } else {
        spec_list_body(records.drop_last()) + spec_record_values(records.last())
    }
}

/// The full List response: the state marker, then every record.
pub open spec fn spec_list_container(records: Seq<PairingRecord>) -> Seq<SpecValue> {
    seq![SpecValue::State(STEP_RES)] + spec_list_body(records)
}

/// Everything a List operation guarantees.
pub open spec fn spec_list_post(
    s0: PairingStore,
    controller_id: Option<u128>,
    r: Result<Seq<SpecValue>, TlvError>,
) -> bool {
    if !spec_is_admin(s0, controller_id) {
        r == Err::<Seq<SpecValue>, TlvError>(TlvError::Authentication)
    } else {
        r == Ok::<Seq<SpecValue>, TlvError>(spec_list_container(s0@))
    }
}

/// The view of an Add or Remove result.
pub open spec fn spec_result_view(r: Result<(Vec<Value>, Event), TlvError>) -> Result<
    (Seq<SpecValue>, Event),
    TlvError,
> {
    match r {
        Ok((c, e)) => Ok((container_view(c@), e)),
        Err(e) => Err(e),
    }
}

/// Rejects every caller that is not an authenticated admin.
pub fn check_admin(controller_id: Option<u128>, store: &PairingStore) -> (r: Result<
    (),
    TlvError,
>)
    requires
        store.wf(),
    ensures
        r == if spec_is_admin(*store, controller_id) {
            Ok::<(), TlvError>(())
        } else {
            Err::<(), TlvError>(TlvError::Authentication)
        },
{
    let c = match controller_id {
        Some(c) => c,
        None => {
            return Err(TlvError::Authentication);
        },
    };
    match store.load(c) {
        None => Err(TlvError::Authentication),
        Some(rec) => match rec.permissions {
            Permission::Admin => Ok(()),
            Permission::User => Err(TlvError::Authentication),
        },
    }
}

/// Adds a pairing, or updates the access level of one whose resubmitted
/// key matches the stored key byte for byte; a mismatching key, a
/// malformed key or identifier, and a full store all fail without any
/// mutation. Success carries the paired event for the caller to emit once
/// store access is given up.
pub fn handle_add(
    controller_id: Option<u128>,
    max_peers: Option<usize>,
    store: &mut PairingStore,
    pairing_id: &Vec<u8>,
    ltpk: &Vec<u8>,
    permissions: Permission,
) -> (r: Result<(Vec<Value>, Event), TlvError>)
    requires
        old(store).wf(),
    ensures
        final(store).wf(),
        spec_add_post(
            *old(store),
            *final(store),
            controller_id,
            max_peers,
            pairing_id@,
            ltpk@,
            permissions,
            spec_result_view(r),
        ),
{
    if let Err(e) = check_admin(controller_id, store) {
        return Err(e);
    }
    let u = match parse_uuid(pairing_id.as_slice()) {
        Some(u) => u,
        None => {
            return Err(TlvError::Unknown);
        },
    };
    let loaded = store.load(u);
    match loaded {
        Some(rec) => {
            if !validate_ltpk(rec.public_key.as_slice()) {
                return Err(TlvError::Unknown);
            }
            if !validate_ltpk(ltpk.as_slice()) {
                return Err(TlvError::Unknown);
            }
            if !bytes_eq(rec.public_key.as_slice(), ltpk.as_slice()) {
                return Err(TlvError::Unknown);
            }
            let mut updated = duplicate_record(rec);
            updated.permissions = permissions;
            proof {
                assert(old(store).spec_record(u).id == u);
            }
            store.save(updated);
            let container = vec![Value::State(STEP_RES)];
            proof {
                assert(container_view(container@) =~= spec_ok_container());
            }
            Ok((container, Event::ControllerPaired { id: u }))
        },
        None => {
            if let Some(m) = max_peers {
                if store.count() >= m {
                    return Err(TlvError::MaxPeers);
                }
            }
            if ltpk.len() != 32 {
                return Err(TlvError::Unknown);
            }
            let fresh = PairingRecord {
                id: u,
                public_key: copy_bytes(ltpk.as_slice()),
                permissions,
            };
            store.save(fresh);
            proof {
                assert(store@ =~= old(store)@.push(store@.last()));
            }
            let container = vec![Value::State(STEP_RES)];
            proof {
                assert(container_view(container@) =~= spec_ok_container());
            }
            Ok((container, Event::ControllerPaired { id: u }))
        },
    }
}

/// Removes a pairing by identifier; removal of an absent identifier still
/// succeeds and still carries the unpaired event.
pub fn handle_remove(
    controller_id: Option<u128>,
    store: &mut PairingStore,
    pairing_id: &Vec<u8>,
) -> (r: Result<(Vec<Value>, Event), TlvError>)
    requires
        old(store).wf(),
    ensures
        final(store).wf(),
        spec_remove_post(
            *old(store),
            *final(store),
            controller_id,
            pairing_id@,
            spec_result_view(r),
        ),
{
    if let Err(e) = check_admin(controller_id, store) {
        return Err(e);
    }
    let u = match parse_uuid(pairing_id.as_slice()) {
        Some(u) => u,
        None => {
            return Err(TlvError::Unknown);
        },
    };
    store.delete(u);
    let container = vec![Value::State(STEP_RES)];
    proof {
        assert(container_view(container@) =~= spec_ok_container());
    }
    Ok((container, Event::ControllerUnpaired { id: u }))
}

/// Lists every stored pairing: the response carries, per record and in
/// store order, its hyphenated identifier text, its key bytes and its
/// access level, a separator following each record.
pub fn handle_list(controller_id: Option<u128>, store: &PairingStore) -> (r: Result<
    Vec<Value>,
    TlvError,
>)
    requires
        store.wf(),
    ensures
        spec_list_post(*store, controller_id, (match r {
            Ok(c) => Ok::<Seq<SpecValue>, TlvError>(container_view(c@)),
            Err(e) => Err::<Seq<SpecValue>, TlvError>(e),
        })),
{
    if let Err(e) = check_admin(controller_id, store) {
        return Err(e);
    }
    let records = store.list();
    let mut list: Vec<Value> = vec![Value::State(STEP_RES)];
    proof {
        assert(spec_list_body(store@.take(0)) =~= Seq::<SpecValue>::empty());
        assert(container_view(list@) =~= spec_list_container(store@.take(0)));
    }
    let mut i: usize = 0;
    while i < records.len()
        invariant
            store.wf(),
            records@ == store@,
            i <= store@.len(),
            container_view(list@) == spec_list_container(store@.take(i as int)),
        decreases store@.len() - i,
    {
        let rec = &records[i];
        let ghost pre_list = list@;
        list.push(Value::Identifier(uuid_to_hyphenated(rec.id)));
        list.push(Value::PublicKey(copy_bytes(rec.public_key.as_slice())));
        list.push(Value::Permissions(rec.permissions));
        list.push(Value::Separator);
        proof {
            assert(list@ =~= pre_list + seq![
                list@[pre_list.len() as int],
                list@[pre_list.len() as int + 1],
                list@[pre_list.len() as int + 2],
                list@[pre_list.len() as int + 3],
            ]);
            assert(list@[pre_list.len() as int]@ == SpecValue::Identifier(
                hyphenated_of(store@[i as int].id),
            ));
            assert(list@[pre_list.len() as int + 1]@ == SpecValue::PublicKey(
                store@[i as int].public_key@,
            ));
            assert(list@[pre_list.len() as int + 2]@ == SpecValue::Permissions(
                store@[i as int].permissions,
            ));
            assert(list@[pre_list.len() as int + 3]@ == SpecValue::Separator);
            assert(container_view(list@) =~= container_view(pre_list) + spec_record_values(
                store@[i as int],
            ));
            assert(store@.take(i as int + 1).drop_last() =~= store@.take(i as int));
            assert(store@.take(i as int + 1).last() == store@[i as int]);
            assert(spec_list_body(store@.take(i as int + 1)) == spec_list_body(
                store@.take(i as int),
            ) + spec_record_values(store@[i as int]));
            assert(container_view(list@) =~= spec_list_container(store@.take(i as int + 1)));
        }
        i = i + 1;
    }
    proof {
        assert(store@.take(store@.len() as int) =~= store@);
    }
    Ok(list)
}

/// The protocol handler for one pairing-management exchange.
pub struct Pairings {}

impl Pairings {
    pub fn new() -> (r: Pairings)
        ensures
            r == (Pairings {  }),
    {
        Pairings {  }
    }

    /// Decodes a request body into a typed operation. Pure: no side
    /// effects and no authorization. The body must be complete; a decode
    /// failure, a state field other than the request marker, and a missing
    /// or unknown method are pre-parse errors, while a missing field of an
    /// identified method is reported at the response step.
    pub fn parse(&self, body: &Vec<u8>) -> (r: Result<HandlerType, ErrorContainer>)
        ensures
            match r {
                Ok(h) => spec_parse(body@) == Ok::<SpecOp, (u8, TlvError)>(h@),
                Err(ec) => spec_parse(body@) == Err::<SpecOp, (u8, TlvError)>(
                    (ec.step, ec.error),
                ),
            },
    {
        let decoded = match decode(body.as_slice()) {
            Ok(m) => m,
            Err(_) => {
                return Err(ErrorContainer::new(STEP_UNKNOWN, TlvError::Unknown));
            },
        };
        let state_ok = match decoded.get(TYPE_STATE) {
            Some(v) => {
                let ok = v.len() == 1 && v[0] == STATE_REQUEST;
                proof {
                    if ok {
                        assert(v@ =~= seq![STATE_REQUEST]);
                    }
                }
                ok
            },
            None => false,
        };
        if !state_ok {
            return Err(ErrorContainer::new(STEP_UNKNOWN, TlvError::Unknown));
        }
        let meth = match decoded.get(TYPE_METHOD) {
            Some(v) => {
                if v.len() == 0 {
                    return Err(ErrorContainer::new(STEP_UNKNOWN, TlvError::Unknown));
                }
                v[0]
            },
            None => {
                return Err(ErrorContainer::new(STEP_UNKNOWN, TlvError::Unknown));
            },
        };
        if meth == METHOD_ADD {
            let pairing_id = match decoded.get(TYPE_IDENTIFIER) {
                Some(v) => copy_bytes(v.as_slice()),
                None => {
                    return Err(ErrorContainer::new(STEP_RES, TlvError::Unknown));
                },
            };
            let ltpk = match decoded.get(TYPE_PUBLIC_KEY) {
                Some(v) => copy_bytes(v.as_slice()),
                None => {
                    return Err(ErrorContainer::new(STEP_RES, TlvError::Unknown));
                },
            };
            let perm_byte = match decoded.get(TYPE_PERMISSIONS) {
                Some(v) => {
                    if v.len() == 0 {
                        return Err(ErrorContainer::new(STEP_RES, TlvError::Unknown));
                    }
                    v[0]
                },
                None => {
                    return Err(ErrorContainer::new(STEP_RES, TlvError::Unknown));
                },
            };
            let permissions = match Permission::from_byte(perm_byte) {
                Ok(p) => p,
                Err(_) => {
                    return Err(ErrorContainer::new(STEP_RES, TlvError::Unknown));
                },
            };
            Ok(HandlerType::Add { pairing_id, ltpk, permissions })
        } else if meth == METHOD_REMOVE {
            let pairing_id = match decoded.get(TYPE_IDENTIFIER) {
                Some(v) => copy_bytes(v.as_slice()),
                None => {
                    return Err(ErrorContainer::new(STEP_RES, TlvError::Unknown));
                },
            };
            Ok(HandlerType::Remove { pairing_id })
        } else if meth == METHOD_LIST {
            Ok(HandlerType::List)
        } else {
            Err(ErrorContainer::new(STEP_UNKNOWN, TlvError::Unknown))
        }
    }

    /// Executes one decoded operation against the store: authorizes it,
    /// mutates or reads the credential set, and returns the response
    /// container together with the event to emit after store access is
    /// given up, or a structured error at the response step. A failed
    /// operation leaves the store unchanged and emits nothing.
    pub fn handle(
        &mut self,
        handler: HandlerType,
        controller_id: Option<u128>,
        max_peers: Option<usize>,
        store: &mut PairingStore,
    ) -> (r: (Result<Vec<Value>, ErrorContainer>, Option<Event>))
        requires
            old(store).wf(),
        ensures
            final(store).wf(),
            match handler@ {
                SpecOp::Add { pairing_id, ltpk, permissions } => match r {
                    (Ok(c), Some(e)) => spec_add_post(
                        *old(store),
                        *final(store),
                        controller_id,
                        max_peers,
                        pairing_id,
                        ltpk,
                        permissions,
                        Ok((container_view(c@), e)),
                    ),
                    (Err(ec), None) => ec.step == STEP_RES && spec_add_post(
                        *old(store),
                        *final(store),
                        controller_id,
                        max_peers,
                        pairing_id,
                        ltpk,
                        permissions,
                        Err(ec.error),
                    ),
                    _ => false,
                },
                SpecOp::Remove { pairing_id } => match r {
                    (Ok(c), Some(e)) => spec_remove_post(
                        *old(store),
                        *final(store),
                        controller_id,
                        pairing_id,
                        Ok((container_view(c@), e)),
                    ),
                    (Err(ec), None) => ec.step == STEP_RES && spec_remove_post(
                        *old(store),
                        *final(store),
                        controller_id,
                        pairing_id,
                        Err(ec.error),
                    ),
                    _ => false,
                },
                SpecOp::List => {
                    &&& r.1 is None
                    &&& final(store)@ == old(store)@
                    &&& match r.0 {
                        Ok(c) => spec_list_post(
                            *old(store),
                            controller_id,
                            Ok(container_view(c@)),
                        ),
                        Err(ec) => ec.step == STEP_RES && spec_list_post(
                            *old(store),
                            controller_id,
                            Err(ec.error),
                        ),
                    }
                },
            },
    {
        match handler {
            HandlerType::Add { pairing_id, ltpk, permissions } => {
                match handle_add(
                    controller_id,
                    max_peers,
                    store,
                    &pairing_id,
                    &ltpk,
                    permissions,
                ) {
                    Ok((c, e)) => (Ok(c), Some(e)),
                    Err(err) => (Err(ErrorContainer::new(STEP_RES, err)), None),
                }
            },
            HandlerType::Remove { pairing_id } => {
                match handle_remove(controller_id, store, &pairing_id) {
                    Ok((c, e)) => (Ok(c), Some(e)),
                    Err(err) => (Err(ErrorContainer::new(STEP_RES, err)), None),
                }
            },
            HandlerType::List => {
                match handle_list(controller_id, store) {
                    Ok(c) => (Ok(c), None),
                    Err(err) => (Err(ErrorContainer::new(STEP_RES, err)), None),
                }
            },
        }
    }
}

/// How many separators a value sequence holds.
pub open spec fn spec_separator_count(vs: Seq<SpecValue>) -> nat
    decreases vs.len(),
{
    if vs.len() == 0 {
        0
    } else {
        spec_separator_count(vs.drop_last()) + (if vs.last() is Separator {
            1nat
        } else {
            0nat
        })
    }
}

proof fn lemma_separator_count_add(a: Seq<SpecValue>, b: Seq<SpecValue>)
    ensures
        spec_separator_count(a + b) == spec_separator_count(a) + spec_separator_count(b),
    decreases b.len(),
{
    if b.len() == 0 {
        assert(a + b =~= a);
    } else {
        assert((a + b).drop_last() =~= a + b.drop_last());
        assert((a + b).last() == b.last());
        lemma_separator_count_add(a, b.drop_last());
    }
}

proof fn lemma_record_values_count(rec: PairingRecord)
    ensures
        spec_separator_count(spec_record_values(rec)) == 1,
{
    let vs = spec_record_values(rec);
    let v3 = seq![
        SpecValue::Identifier(hyphenated_of(rec.id)),
        SpecValue::PublicKey(rec.public_key@),
        SpecValue::Permissions(rec.permissions),
    ];
    let v2 = seq![
        SpecValue::Identifier(hyphenated_of(rec.id)),
        SpecValue::PublicKey(rec.public_key@),
    ];
    let v1 = seq![SpecValue::Identifier(hyphenated_of(rec.id))];
    let v0 = Seq::<SpecValue>::empty();
    assert(spec_separator_count(v0) == 0);
    assert(v1.drop_last() =~= v0);
    assert(spec_separator_count(v1) == 0);
    assert(v2.drop_last() =~= v1);
    assert(spec_separator_count(v2) == 0);
    assert(v3.drop_last() =~= v2);
    assert(spec_separator_count(v3) == 0);
    assert(vs.drop_last() =~= v3);
    assert(spec_separator_count(vs) == 1);
}

/// A List response over any record sequence carries exactly one separator
/// per record, one following each record.
pub proof fn lemma_list_separators(records: Seq<PairingRecord>)
    ensures
        spec_separator_count(spec_list_container(records)) == records.len(),
    decreases records.len(),
{
    let marker = seq![SpecValue::State(STEP_RES)];
    assert(spec_separator_count(Seq::<SpecValue>::empty()) == 0);
    assert(marker.drop_last() =~= Seq::<SpecValue>::empty());
    assert(spec_separator_count(marker) == 0);
    lemma_separator_count_add(seq![SpecValue::State(STEP_RES)], spec_list_body(records));
    lemma_list_body_separators(records);
}

proof fn lemma_list_body_separators(records: Seq<PairingRecord>)
    ensures
        spec_separator_count(spec_list_body(records)) == records.len(),
    decreases records.len(),
{
    if records.len() > 0 {
        lemma_list_body_separators(records.drop_last());
        lemma_separator_count_add(
            spec_list_body(records.drop_last()),
            spec_record_values(records.last()),
        );
        lemma_record_values_count(records.last());
    }
}

/// A List response over an empty store is the state marker alone: no
/// entries and no separators.
pub proof fn lemma_list_empty(records: Seq<PairingRecord>)
    requires
        records.len() == 0,
    ensures
        spec_list_container(records) == seq![SpecValue::State(STEP_RES)],
{
    assert(spec_list_container(records) =~= seq![SpecValue::State(STEP_RES)]);
}

} // verus!
