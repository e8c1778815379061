//! The TLV8 wire codec: every request and response body is an ordered
//! container of items, each serialized as a type byte, a length byte and
//! up to 255 value bytes. A value longer than 255 bytes is split into
//! successive fragments of the same type, the final fragment being shorter
//! than 255 bytes (or empty when the length is an exact multiple of 255).
//! Decoding turns the byte stream back into a mapping from type code to
//! the concatenation, in order, of all values carried under that code.

use vstd::prelude::*;

use crate::bytes::{copy_bytes, extend_bytes};
use crate::permission::Permission;

verus! {

pub const TYPE_METHOD: u8 = 0;

pub const TYPE_IDENTIFIER: u8 = 1;

pub const TYPE_PUBLIC_KEY: u8 = 3;

pub const TYPE_STATE: u8 = 6;

pub const TYPE_ERROR: u8 = 7;

pub const TYPE_PERMISSIONS: u8 = 11;

pub const TYPE_SEPARATOR: u8 = 255;

/// Protocol-level error kinds carried inside an error container.
#[derive(Clone, Copy, PartialEq, Eq, Structural, Debug)]
pub enum TlvError {
    Unknown,
    Authentication,
    MaxPeers,
}

impl TlvError {
    /// The wire byte of this error kind.
    pub open spec fn spec_to_byte(self) -> u8 {
        match self {
            TlvError::Unknown => 1u8,
            TlvError::Authentication => 2u8,
            TlvError::MaxPeers => 4u8,
        }
    }

    /// Canonical byte encoding of the error kind.
    pub fn to_byte(self) -> (r: u8)
        ensures
            r == self.spec_to_byte(),
    {
        match self {
            TlvError::Unknown => 1,
            TlvError::Authentication => 2,
            TlvError::MaxPeers => 4,
        }
    }
}

/// One typed item of a container, before serialization.
#[derive(Debug)]
pub enum Value {
    State(u8),
    Method(u8),
    Identifier(Vec<u8>),
    PublicKey(Vec<u8>),
    Permissions(Permission),
    Error(TlvError),
    Separator,
}

/// Mathematical model of a container item: the byte vectors as sequences.
pub enum SpecValue {
    State(u8),
    Method(u8),
    Identifier(Seq<u8>),
    PublicKey(Seq<u8>),
    Permissions(Permission),
    Error(TlvError),
    Separator,
}

impl View for Value {
    type V = SpecValue;

    open spec fn view(&self) -> SpecValue {
        match self {
            Value::State(x) => SpecValue::State(*x),
            Value::Method(x) => SpecValue::Method(*x),
            Value::Identifier(v) => SpecValue::Identifier(v@),
            Value::PublicKey(v) => SpecValue::PublicKey(v@),
            Value::Permissions(p) => SpecValue::Permissions(*p),
            Value::Error(e) => SpecValue::Error(*e),
            Value::Separator => SpecValue::Separator,
        }
    }
}

/// The type code and value bytes of one item.
pub open spec fn spec_item_of(v: SpecValue) -> (u8, Seq<u8>) {
    match v {
        SpecValue::State(x) => (TYPE_STATE, seq![x]),
        SpecValue::Method(x) => (TYPE_METHOD, seq![x]),
        SpecValue::Identifier(b) => (TYPE_IDENTIFIER, b),
        SpecValue::PublicKey(b) => (TYPE_PUBLIC_KEY, b),
        SpecValue::Permissions(p) => (TYPE_PERMISSIONS, seq![p.spec_to_byte()]),
        SpecValue::Error(e) => (TYPE_ERROR, seq![e.spec_to_byte()]),
        SpecValue::Separator => (TYPE_SEPARATOR, Seq::empty()),
    }
}

/// The item views of a container.
pub open spec fn container_view(c: Seq<Value>) -> Seq<SpecValue> {
    c.map_values(|v: Value| v@)
}

/// Serialization of one item: fragments of at most 255 bytes, each under
/// the item's type code, the final fragment shorter than 255 bytes.
pub open spec fn spec_encode_item(t: u8, v: Seq<u8>) -> Seq<u8>
    decreases v.len(),
{
    if v.len() < 255 {
        seq![t, v.len() as u8] + v
    } else {
        seq![t, 255u8] + v.take(255) + spec_encode_item(t, v.skip(255))
    }
}

/// Serialization of a sequence of items, in order.
pub open spec fn spec_encode_items(items: Seq<(u8, Seq<u8>)>) -> Seq<u8>
    decreases items.len(),
{
    if items.len() == 0 {
        Seq::empty()
    } else {
        spec_encode_item(items[0].0, items[0].1) + spec_encode_items(items.drop_first())
    }
}

/// Serialization of a whole container.
pub open spec fn spec_encode_container(vs: Seq<SpecValue>) -> Seq<u8> {
    spec_encode_items(vs.map_values(|v: SpecValue| spec_item_of(v)))
}

/// Serializing a further item onto a sequence appends its fragments.
pub proof fn lemma_encode_items_push(items: Seq<(u8, Seq<u8>)>, t: u8, v: Seq<u8>)
    ensures
        spec_encode_items(items.push((t, v))) == spec_encode_items(items) + spec_encode_item(t, v),
    decreases items.len(),
{
    if items.len() == 0 {
        assert(items.push((t, v)).drop_first() =~= items);
        assert(spec_encode_items(items.push((t, v))) =~= spec_encode_items(items)
            + spec_encode_item(t, v));
    } else {
        assert(items.push((t, v)).drop_first() =~= items.drop_first().push((t, v)));
        lemma_encode_items_push(items.drop_first(), t, v);
        assert(spec_encode_items(items.push((t, v))) =~= spec_encode_items(items)
            + spec_encode_item(t, v));
    }
}

/// Appends the serialization of one item onto `out`.
fn encode_item(out: &mut Vec<u8>, t: u8, v: &[u8])
    ensures
        final(out)@ == old(out)@ + spec_encode_item(t, v@),
{
    let mut pos: usize = 0;
    proof {
        assert(v@.skip(0) =~= v@);
    }
    while v.len() - pos >= 255
        invariant
            pos <= v@.len(),
            out@ + spec_encode_item(t, v@.skip(pos as int)) == old(out)@ + spec_encode_item(
                t,
                v@,
            ),
        decreases v@.len() - pos,
    {
        proof {
            assert(v@.skip(pos as int).take(255) =~= v@.subrange(pos as int, pos as int + 255));
            assert(v@.skip(pos as int).skip(255) =~= v@.skip(pos as int + 255));
        }
        out.push(t);
        out.push(255);
        extend_bytes(out, v, pos, pos + 255);
        pos = pos + 255;
        proof {
            assert(out@ + spec_encode_item(t, v@.skip(pos as int)) =~= old(out)@
                + spec_encode_item(t, v@));
        }
    }
    let rem = v.len() - pos;
    proof {
        assert(v@.skip(pos as int).len() == rem);
    }
    out.push(t);
    out.push(rem as u8);
    extend_bytes(out, v, pos, v.len());
    proof {
        assert(v@.subrange(pos as int, v@.len() as int) =~= v@.skip(pos as int));
        assert(out@ =~= old(out)@ + spec_encode_item(t, v@));
    }
}

/// Serializes a container to its wire bytes.
pub fn encode(container: &Vec<Value>) -> (r: Vec<u8>)
    ensures
        r@ == spec_encode_container(container_view(container@)),
{
    let mut out: Vec<u8> = Vec::new();
    let mut k: usize = 0;
    while k < container.len()
        invariant
            k <= container@.len(),
            out@ == spec_encode_container(container_view(container@.take(k as int))),
        decreases container@.len() - k,
    {
        let ghost pre = container_view(container@.take(k as int)).map_values(
            |v: SpecValue| spec_item_of(v),
        );
        let (t, bv): (u8, Vec<u8>) = match &container[k] {
            Value::State(x) => (TYPE_STATE, vec![*x]),
            Value::Method(x) => (TYPE_METHOD, vec![*x]),
            Value::Identifier(v) => (TYPE_IDENTIFIER, copy_bytes(v.as_slice())),
            Value::PublicKey(v) => (TYPE_PUBLIC_KEY, copy_bytes(v.as_slice())),
            Value::Permissions(p) => (TYPE_PERMISSIONS, vec![p.to_byte()]),
            Value::Error(e) => (TYPE_ERROR, vec![e.to_byte()]),
            Value::Separator => (TYPE_SEPARATOR, Vec::new()),
        };
        proof {
            assert((t, bv@) == spec_item_of(container@[k as int]@));
        }
        encode_item(&mut out, t, bv.as_slice());
        proof {
            lemma_encode_items_push(pre, t, bv@);
            assert(container_view(container@.take(k as int + 1)).map_values(
                |v: SpecValue| spec_item_of(v),
            ) =~= pre.push((t, bv@)));
        }
        k = k + 1;
    }
    proof {
        assert(container@.take(container@.len() as int) =~= container@);
    }
    out
}

/// The raw fragments of a byte stream: each a type byte, a length byte and
/// that many value bytes. `None` when the stream is truncated.
pub open spec fn spec_parse_items(b: Seq<u8>) -> Option<Seq<(u8, Seq<u8>)>>
    decreases b.len(),
{
    if b.len() == 0 {
        Some(Seq::empty())
    } else if b.len() < 2 {
        None
    } else {
        let t = b[0];
        let l = b[1] as int;
        if b.len() < 2 + l {
            None
        } else {
            match spec_parse_items(b.skip(2 + l)) {
                Some(rest) => Some(seq![(t, b.subrange(2, 2 + l))] + rest),
                None => None,
            }
        }
    }
}

/// The mapping a fragment sequence decodes to: under each type code, the
/// concatenation of all its values in order.
pub open spec fn spec_tlv_map(items: Seq<(u8, Seq<u8>)>) -> Map<u8, Seq<u8>>
    decreases items.len(),
{
    if items.len() == 0 {
        Map::empty()
    } else {
        let t = items[0].0;
        let v = items[0].1;
        let rest = spec_tlv_map(items.drop_first());
        if rest.dom().contains(t) {
            rest.insert(t, v + rest[t])
        } else {
            rest.insert(t, v)
        }
    }
}

/// The mapping a byte stream decodes to, when it is well formed.
pub open spec fn spec_decode(b: Seq<u8>) -> Option<Map<u8, Seq<u8>>> {
    match spec_parse_items(b) {
        Some(items) => Some(spec_tlv_map(items)),
        None => None,
    }
}

/// A further fragment merges at the back of its type's entry.
pub proof fn lemma_tlv_map_push(items: Seq<(u8, Seq<u8>)>, t: u8, v: Seq<u8>)
    ensures
        spec_tlv_map(items.push((t, v))) == (if spec_tlv_map(items).dom().contains(t) {
            spec_tlv_map(items).insert(t, spec_tlv_map(items)[t] + v)
        } else {
            spec_tlv_map(items).insert(t, v)
        }),
    decreases items.len(),
{
    let pushed = items.push((t, v));
    let m = spec_tlv_map(items);
    assert(pushed.len() == items.len() + 1);
    if items.len() == 0 {
        assert(pushed[0] == (t, v));
        assert(pushed.drop_first() =~= Seq::<(u8, Seq<u8>)>::empty());
        assert(spec_tlv_map(pushed.drop_first()) == Map::<u8, Seq<u8>>::empty());
        assert(!spec_tlv_map(pushed.drop_first()).dom().contains(t));
        assert(spec_tlv_map(pushed) =~= m.insert(t, v));
    } else {
        let t0 = items[0].0;
        let v0 = items[0].1;
        assert(pushed[0] == items[0]);
        assert(pushed.drop_first() =~= items.drop_first().push((t, v)));
        lemma_tlv_map_push(items.drop_first(), t, v);
        let rest = spec_tlv_map(items.drop_first());
        let rest2 = spec_tlv_map(pushed.drop_first());
        if t0 == t {
            if rest.dom().contains(t) {
                assert(rest2 == rest.insert(t, rest[t] + v));
                assert(m == rest.insert(t, v0 + rest[t]));
                assert((v0 + rest[t]) + v =~= v0 + (rest[t] + v));
                assert(spec_tlv_map(pushed) == rest2.insert(t, v0 + rest2[t]));
                assert(spec_tlv_map(pushed) =~= m.insert(t, m[t] + v));
            } else {
                assert(rest2 == rest.insert(t, v));
                assert(m == rest.insert(t, v0));
                assert(spec_tlv_map(pushed) == rest2.insert(t, v0 + rest2[t]));
                assert(spec_tlv_map(pushed) =~= m.insert(t, m[t] + v));
            }
        } else {
            if rest.dom().contains(t) {
                assert(rest2 == rest.insert(t, rest[t] + v));
                assert(m.dom().contains(t) && m[t] == rest[t]);
                assert(spec_tlv_map(pushed) =~= m.insert(t, m[t] + v));
            } else {
                assert(rest2 == rest.insert(t, v));
                assert(!m.dom().contains(t));
                assert(spec_tlv_map(pushed) =~= m.insert(t, v));
            }
        }
    }
}

/// The decoded form of a container: entries from type code to the
/// concatenated value bytes carried under it, each type at most once.
pub struct TlvMap {
    entries: Vec<(u8, Vec<u8>)>,
}

/// The mapping an entry list stands for.
pub open spec fn spec_map_of_entries(s: Seq<(u8, Vec<u8>)>) -> Map<u8, Seq<u8>>
    decreases s.len(),
{
    if s.len() == 0 {
        Map::empty()
    } else {
        spec_map_of_entries(s.drop_last()).insert(s.last().0, s.last().1@)
    }
}

impl View for TlvMap {
    type V = Map<u8, Seq<u8>>;

    closed spec fn view(&self) -> Map<u8, Seq<u8>> {
        spec_map_of_entries(self.entries@)
    }
}

/// An entry list keeps its type codes pairwise distinct.
pub open spec fn entries_unique(s: Seq<(u8, Vec<u8>)>) -> bool {
    forall|i: int, j: int| 0 <= i < j < s.len() ==> s[i].0 != s[j].0
}

proof fn lemma_entries_index(s: Seq<(u8, Vec<u8>)>, i: int)
    requires
        entries_unique(s),
        0 <= i < s.len(),
    ensures
        spec_map_of_entries(s).dom().contains(s[i].0),
        spec_map_of_entries(s)[s[i].0] == s[i].1@,
    decreases s.len(),
{
    if i < s.len() - 1 {
        assert(entries_unique(s.drop_last()));
        lemma_entries_index(s.drop_last(), i);
        assert(s.drop_last()[i] == s[i]);
        assert(s[i].0 != s.last().0);
    }
}

proof fn lemma_entries_absent(s: Seq<(u8, Vec<u8>)>, t: u8)
    requires
        forall|i: int| 0 <= i < s.len() ==> s[i].0 != t,
    ensures
        !spec_map_of_entries(s).dom().contains(t),
    decreases s.len(),
{
    if s.len() > 0 {
        lemma_entries_absent(s.drop_last(), t);
    }
}

proof fn lemma_entries_update(s: Seq<(u8, Vec<u8>)>, i: int, e: (u8, Vec<u8>))
    requires
        entries_unique(s),
        0 <= i < s.len(),
        s[i].0 == e.0,
    ensures
        spec_map_of_entries(s.update(i, e)) == spec_map_of_entries(s).insert(e.0, e.1@),
    decreases s.len(),
{
    if i == s.len() - 1 {
        assert(s.update(i, e).drop_last() =~= s.drop_last());
        assert(spec_map_of_entries(s.update(i, e)) =~= spec_map_of_entries(s).insert(e.0, e.1@));
    } else {
        assert(s.update(i, e).drop_last() =~= s.drop_last().update(i, e));
        assert(entries_unique(s.drop_last()));
        lemma_entries_update(s.drop_last(), i, e);
        assert(s.last().0 != e.0);
        assert(spec_map_of_entries(s.update(i, e)) =~= spec_map_of_entries(s).insert(e.0, e.1@));
    }
}

impl TlvMap {
    /// The structural invariant: each type code appears at most once.
    pub closed spec fn wf(self) -> bool {
        entries_unique(self.entries@)
    }

    /// An empty mapping.
    pub fn new() -> (r: TlvMap)
        ensures
            r@ == Map::<u8, Seq<u8>>::empty(),
            r.wf(),
    {
        TlvMap { entries: Vec::new() }
    }

    /// The concatenated value bytes under a type code, if any item of that
    /// type was decoded.
    pub fn get(&self, t: u8) -> (r: Option<&Vec<u8>>)
        requires
            self.wf(),
        ensures
            match r {
                Some(v) => self@.dom().contains(t) && v@ == self@[t],
                None => !self@.dom().contains(t),
            },
    {
        let mut i: usize = 0;
        while i < self.entries.len()
            invariant
                self.wf(),
                i <= self.entries@.len(),
                forall|j: int| 0 <= j < i ==> self.entries@[j].0 != t,
            decreases self.entries@.len() - i,
        {
            if self.entries[i].0 == t {
                proof {
                    lemma_entries_index(self.entries@, i as int);
                }
                return Some(&self.entries[i].1);
            }
            i = i + 1;
        }
        proof {
            lemma_entries_absent(self.entries@, t);
        }
        None
    }

    /// Merges one decoded fragment: its value bytes go to the back of the
    /// entry under its type code.
    pub fn push_fragment(&mut self, t: u8, v: Vec<u8>)
        requires
            old(self).wf(),
        ensures
            final(self).wf(),
            final(self)@ == (if old(self)@.dom().contains(t) {
                old(self)@.insert(t, old(self)@[t] + v@)
            } else {
                old(self)@.insert(t, v@)
            }),
    {
        let mut i: usize = 0;
        while i < self.entries.len()
            invariant
                self.wf(),
                *self == *old(self),
                i <= self.entries@.len(),
                forall|j: int| 0 <= j < i ==> self.entries@[j].0 != t,
            decreases self.entries@.len() - i,
        {
            if self.entries[i].0 == t {
                proof {
                    lemma_entries_index(self.entries@, i as int);
                }
                let mut merged = copy_bytes(self.entries[i].1.as_slice());
                extend_bytes(&mut merged, v.as_slice(), 0, v.len());
                proof {
                    assert(v@.subrange(0, v@.len() as int) =~= v@);
                }
                let ghost pre = self.entries@;
                self.entries[i] = (t, merged);
                proof {
                    lemma_entries_update(pre, i as int, (t, self.entries@[i as int].1));
                    assert(self.entries@ =~= pre.update(i as int, self.entries@[i as int]));
                }
                return ;
            }
            i = i + 1;
        }
        proof {
            lemma_entries_absent(self.entries@, t);
        }
        let ghost pre = self.entries@;
        self.entries.push((t, v));
        proof {
            assert(self.entries@.drop_last() =~= pre);
            assert forall|a: int, b: int|
                0 <= a < b < self.entries@.len() implies self.entries@[a].0
                != self.entries@[b].0 by {
                if b < self.entries@.len() - 1 {
                    assert(pre[a].0 != pre[b].0);
                }
            }
        }
    }
}

/// Decodes a byte stream into its type-to-value mapping; a truncated
/// length or value fails with a decode error.
pub fn decode(bytes: &[u8]) -> (r: Result<TlvMap, TlvError>)
    ensures
        match spec_decode(bytes@) {
            Some(m) => r matches Ok(tm) && tm@ == m && tm.wf(),
            None => r == Err::<TlvMap, TlvError>(TlvError::Unknown),
        },
{
    let mut m = TlvMap::new();
    let mut i: usize = 0;
    let ghost mut done: Seq<(u8, Seq<u8>)> = Seq::empty();
    proof {
        assert(bytes@.skip(0) =~= bytes@);
        assert(done + spec_parse_items(bytes@.skip(0)).unwrap() =~= spec_parse_items(
            bytes@,
        ).unwrap());
    }
    while i < bytes.len()
        invariant
            i <= bytes@.len(),
            m.wf(),
            m@ == spec_tlv_map(done),
            spec_parse_items(bytes@.skip(i as int)) matches Some(rest) ==> spec_parse_items(bytes@)
                == Some(done + rest),
            spec_parse_items(bytes@.skip(i as int)) is None ==> spec_parse_items(bytes@) is None,
        decreases bytes@.len() - i,
    {
        let ghost s = bytes@.skip(i as int);
        let t = bytes[i];
        if bytes.len() - i < 2 {
            return Err(TlvError::Unknown);
        }
        let l = bytes[i + 1] as usize;
        if bytes.len() - i - 2 < l {
            proof {
                assert(s.len() < 2 + (s[1] as int));
            }
            return Err(TlvError::Unknown);
        }
        proof {
            assert(s[0] == t && s[1] == bytes@[i as int + 1]);
            assert(s.skip(2 + l as int) =~= bytes@.skip(i as int + 2 + l as int));
            assert(s.subrange(2, 2 + l as int) =~= bytes@.subrange(
                i as int + 2,
                i as int + 2 + l as int,
            ));
        }
        let v = copy_bytes_range(bytes, i + 2, i + 2 + l);
        proof {
            lemma_tlv_map_push(done, t, v@);
            if spec_parse_items(bytes@.skip(i as int + 2 + l as int)) is Some {
                let rest2 = spec_parse_items(bytes@.skip(i as int + 2 + l as int)).unwrap();
                assert(done + (seq![(t, v@)] + rest2) =~= done.push((t, v@)) + rest2);
            }
        }
        m.push_fragment(t, v);
        proof {
            done = done.push((t, bytes@.subrange(i as int + 2, i as int + 2 + l as int)));
        }
        i = i + 2 + l;
    }
    proof {
        assert(bytes@.skip(i as int).len() == 0);
        assert(done + Seq::<(u8, Seq<u8>)>::empty() =~= done);
    }
    Ok(m)
}

/// The fragments that serializing one item produces.
pub open spec fn spec_fragments(t: u8, v: Seq<u8>) -> Seq<(u8, Seq<u8>)>
    decreases v.len(),
{
    if v.len() < 255 {
        seq![(t, v)]
    } else {
        seq![(t, v.take(255))] + spec_fragments(t, v.skip(255))
    }
}

/// The fragments that serializing an item sequence produces.
pub open spec fn spec_all_fragments(items: Seq<(u8, Seq<u8>)>) -> Seq<(u8, Seq<u8>)>
    decreases items.len(),
{
    if items.len() == 0 {
        Seq::empty()
    } else {
        spec_fragments(items[0].0, items[0].1) + spec_all_fragments(items.drop_first())
    }
}

/// Parsing the serialization of one item, followed by any tail, yields the
/// item's fragments followed by whatever the tail parses to.
proof fn lemma_parse_encode_item(t: u8, v: Seq<u8>, tail: Seq<u8>)
    ensures
        spec_parse_items(spec_encode_item(t, v) + tail) == (
        match spec_parse_items(tail) {
            Some(r) => Some(spec_fragments(t, v) + r),
            None => None::<Seq<(u8, Seq<u8>)>>,
        }),
    decreases v.len(),
{
    let b = spec_encode_item(t, v) + tail;
    if v.len() < 255 {
        let l = v.len() as int;
        assert(b.len() == 2 + l + tail.len());
        assert(b[0] == t);
        assert(b[1] == v.len() as u8);
        assert(b[1] as int == l);
        assert(b.subrange(2, 2 + l) =~= v);
        assert(b.skip(2 + l) =~= tail);
        match spec_parse_items(tail) {
            Some(r) => {
                assert(spec_parse_items(b) == Some(seq![(t, v)] + r));
                assert(spec_fragments(t, v) + r =~= seq![(t, v)] + r);
            },
            None => {
                assert(spec_parse_items(b) is None);
            },
        }
    } else {
        assert(spec_encode_item(t, v) == seq![t, 255u8] + v.take(255) + spec_encode_item(
            t,
            v.skip(255),
        ));
        assert(b.len() >= 257);
        assert(b[0] == t);
        assert(b[1] == 255u8);
        assert(b.subrange(2, 257) =~= v.take(255));
        assert(b.skip(257) =~= spec_encode_item(t, v.skip(255)) + tail);
        lemma_parse_encode_item(t, v.skip(255), tail);
        match spec_parse_items(tail) {
            Some(r) => {
                assert(spec_parse_items(b) == Some(
                    seq![(t, v.take(255))] + (spec_fragments(t, v.skip(255)) + r),
                ));
                assert(seq![(t, v.take(255))] + (spec_fragments(t, v.skip(255)) + r)
                    =~= spec_fragments(t, v) + r);
            },
            None => {
                assert(spec_parse_items(b) is None);
            },
        }
    }
}

/// Parsing a serialized item sequence never fails and yields exactly the
/// items' fragments.
proof fn lemma_parse_encode_items(items: Seq<(u8, Seq<u8>)>)
    ensures
        spec_parse_items(spec_encode_items(items)) == Some(spec_all_fragments(items)),
    decreases items.len(),
{
    if items.len() == 0 {
        assert(spec_encode_items(items).len() == 0);
        assert(spec_all_fragments(items) =~= Seq::<(u8, Seq<u8>)>::empty());
    } else {
        lemma_parse_encode_items(items.drop_first());
        lemma_parse_encode_item(items[0].0, items[0].1, spec_encode_items(items.drop_first()));
    }
}

/// Splitting a value into fragments does not change the decoded mapping.
proof fn lemma_map_fragments(t: u8, v: Seq<u8>, rest: Seq<(u8, Seq<u8>)>)
    ensures
        spec_tlv_map(spec_fragments(t, v) + rest) == spec_tlv_map(seq![(t, v)] + rest),
    decreases v.len(),
{
    if v.len() < 255 {
        assert(spec_fragments(t, v) + rest =~= seq![(t, v)] + rest);
    } else {
        let f = spec_fragments(t, v.skip(255));
        let m = spec_tlv_map(rest);
        assert(spec_fragments(t, v) + rest =~= seq![(t, v.take(255))] + (f + rest));
        assert((seq![(t, v.take(255))] + (f + rest)).drop_first() =~= f + rest);
        assert((seq![(t, v.take(255))] + (f + rest))[0] == (t, v.take(255)));
        lemma_map_fragments(t, v.skip(255), rest);
        assert((seq![(t, v.skip(255))] + rest).drop_first() =~= rest);
        assert((seq![(t, v.skip(255))] + rest)[0] == (t, v.skip(255)));
        assert((seq![(t, v)] + rest).drop_first() =~= rest);
        assert((seq![(t, v)] + rest)[0] == (t, v));
        let inner = spec_tlv_map(seq![(t, v.skip(255))] + rest);
        assert(inner.dom().contains(t));
        if m.dom().contains(t) {
            assert(inner == m.insert(t, v.skip(255) + m[t]));
            assert(v.take(255) + (v.skip(255) + m[t]) =~= v + m[t]);
            assert(spec_tlv_map(spec_fragments(t, v) + rest) =~= spec_tlv_map(
                seq![(t, v)] + rest,
            ));
        } else {
            assert(inner == m.insert(t, v.skip(255)));
            assert(v.take(255) + v.skip(255) =~= v);
            assert(spec_tlv_map(spec_fragments(t, v) + rest) =~= spec_tlv_map(
                seq![(t, v)] + rest,
            ));
        }
    }
}

/// Fragmenting every item of a sequence does not change the decoded
/// mapping.
proof fn lemma_map_all_fragments(items: Seq<(u8, Seq<u8>)>)
    ensures
        spec_tlv_map(spec_all_fragments(items)) == spec_tlv_map(items),
    decreases items.len(),
{
    if items.len() == 0 {
        assert(spec_all_fragments(items) =~= items);
    } else {
        let t = items[0].0;
        let v = items[0].1;
        let frest = spec_all_fragments(items.drop_first());
        lemma_map_all_fragments(items.drop_first());
        lemma_map_fragments(t, v, frest);
        assert((seq![(t, v)] + frest).drop_first() =~= frest);
        assert((seq![(t, v)] + frest)[0] == (t, v));
        assert(spec_tlv_map(seq![(t, v)] + frest) == spec_tlv_map(items));
    }
}

/// Round trip of the codec: serializing any item sequence and decoding the
/// bytes reproduces the items' type-to-value mapping, fragmentation of
/// long values notwithstanding.
pub proof fn lemma_tlv_round_trip(items: Seq<(u8, Seq<u8>)>)
    ensures
        spec_decode(spec_encode_items(items)) == Some(spec_tlv_map(items)),
{
    lemma_parse_encode_items(items);
    lemma_map_all_fragments(items);
}

/// The mapping a container stands for once decoded.
pub open spec fn spec_container_map(vs: Seq<SpecValue>) -> Map<u8, Seq<u8>> {
    spec_tlv_map(vs.map_values(|v: SpecValue| spec_item_of(v)))
}

/// Round trip at the container level: the wire bytes of a container decode
/// back to exactly its type-to-value mapping.
pub proof fn lemma_container_round_trip(vs: Seq<SpecValue>)
    ensures
        spec_decode(spec_encode_container(vs)) == Some(spec_container_map(vs)),
{
    lemma_tlv_round_trip(vs.map_values(|v: SpecValue| spec_item_of(v)));
}

/// Copy of the bytes of `src` between `from` and `to`.
fn copy_bytes_range(src: &[u8], from: usize, to: usize) -> (r: Vec<u8>)
    requires
        from <= to <= src@.len(),
    ensures
        r@ == src@.subrange(from as int, to as int),
{
    let mut r: Vec<u8> = Vec::new();
    extend_bytes(&mut r, src, from, to);
    proof {
        assert(r@ =~= src@.subrange(from as int, to as int));
    }
    r
}

} // verus!
