//! The frame parser: carves a byte buffer into named, rendered fields
//! according to a protocol descriptor, and the registry of protocols
//! with the one that is currently active.

use vstd::prelude::*;
use vstd::slice::{slice_subrange, slice_to_vec};
use crate::protocol::{
    ByteOrder,
    FieldType,
    Protocol,
    ProtocolFieldView,
    ProtocolView,
    spec_field_len,
    spec_header_len,
    spec_type_size,
};
use crate::numeric::{
    be_value,
    le_value,
    be_bytes_value,
    le_bytes_value,
    lemma_be_value_bound,
    lemma_le_value_bound,
    lemma_pow256_7,
    pow256,
    twos_complement,
};
use crate::text::{
    dec_chars,
    signed_dec_chars,
    hex_spaced_chars,
    u64_to_decimal,
    i64_to_decimal,
    to_hex_spaced,
};
use crate::fixedpoint::{f32_fixed_chars, f64_fixed_chars, render_f32_bits, render_f64_bits};
use crate::sys::{utf8_lossy, utf8_lossy_chars};

verus! {

/// One decoded field: the exact bytes consumed and their rendered text.
#[derive(Debug, Clone)]
pub struct ParsedField {
    pub name: String,
    pub field_type: FieldType,
    pub raw_bytes: Vec<u8>,
    pub value: String,
    pub description: Option<String>,
}

/// The mathematical reading of a ParsedField.
pub ghost struct ParsedFieldView {
    pub name: Seq<char>,
    pub field_type: FieldType,
    pub raw_bytes: Seq<u8>,
    pub value: Seq<char>,
    pub description: Option<Seq<char>>,
}

impl View for ParsedField {
    type V = ParsedFieldView;

    open spec fn view(&self) -> ParsedFieldView {
        (ParsedFieldView {
            name: self.name@,
            field_type: self.field_type,
            raw_bytes: self.raw_bytes@,
            value: self.value@,
            description: match self.description {
                Some(ref d) => Some(d@),
                None => None,
            },
        })
    }
}

/// One parse result: the full input is retained, the fields are in
/// descriptor order, and validity reflects only the structural checks.
#[derive(Debug, Clone)]
pub struct ParsedFrame {
    pub protocol_name: String,
    pub raw_data: Vec<u8>,
    pub fields: Vec<ParsedField>,
    pub valid: bool,
    pub error: Option<String>,
}

/// The mathematical reading of a ParsedFrame.
pub ghost struct ParsedFrameView {
    pub protocol_name: Seq<char>,
    pub raw_data: Seq<u8>,
    pub fields: Seq<ParsedFieldView>,
    pub valid: bool,
    pub error: Option<Seq<char>>,
}

impl View for ParsedFrame {
    type V = ParsedFrameView;

    open spec fn view(&self) -> ParsedFrameView {
        (ParsedFrameView {
            protocol_name: self.protocol_name@,
            raw_data: self.raw_data@,
            fields: Seq::new(self.fields@.len(), |i: int| self.fields@[i]@),
            valid: self.valid,
            error: match self.error {
                Some(ref e) => Some(e@),
                None => None,
            },
        })
    }
}

/// The value of a byte string under a byte order.
pub open spec fn numeric_value(bytes: Seq<u8>, order: ByteOrder) -> nat {
    match order {
        ByteOrder::BigEndian => be_value(bytes),
        ByteOrder::LittleEndian => le_value(bytes),
    }
}

/// The fewest bytes a type needs for a decode: its intrinsic width, or
/// one byte for variable-width types.
pub open spec fn spec_required_len(t: FieldType) -> nat {
    match spec_type_size(t) {
        Some(s) => s,
        None => 1,
    }
}

/// The rendered text of a field's bytes: decimal for integers, fixed
/// precision for floats, lossy UTF-8 for strings, spaced hex pairs for
/// bytes and hex fields; sentinels when too few bytes are present.
pub open spec fn spec_field_value_text(bytes: Seq<u8>, t: FieldType, order: ByteOrder) -> Seq<
    char,
> {
    if bytes.len() == 0 {
        "empty"@
    } else if bytes.len() < spec_required_len(t) {
        "insufficient data (needs "@ + dec_chars(spec_required_len(t)) + " bytes)"@
    } else {
        match t {
            FieldType::Uint8 => dec_chars(bytes[0] as nat),
            FieldType::Int8 => signed_dec_chars(twos_complement(bytes[0] as nat, 1)),
            FieldType::Uint16 => dec_chars(numeric_value(bytes.take(2), order)),
            FieldType::Int16 => signed_dec_chars(
                twos_complement(numeric_value(bytes.take(2), order), 2),
            ),
            FieldType::Uint32 => dec_chars(numeric_value(bytes.take(4), order)),
            FieldType::Int32 => signed_dec_chars(
                twos_complement(numeric_value(bytes.take(4), order), 4),
            ),
            FieldType::Uint64 => dec_chars(numeric_value(bytes.take(8), order)),
            FieldType::Int64 => signed_dec_chars(
                twos_complement(numeric_value(bytes.take(8), order), 8),
            ),
            FieldType::Float32 => f32_fixed_chars(numeric_value(bytes.take(4), order) as u32),
            FieldType::Float64 => f64_fixed_chars(numeric_value(bytes.take(8), order) as u64),
            FieldType::String => utf8_lossy_chars(bytes),
            FieldType::Bytes => hex_spaced_chars(bytes),
            FieldType::Hex => hex_spaced_chars(bytes),
        }
    }
}

/// Reads a byte slice as an unsigned integer under a byte order.
fn numeric_bytes_value(bytes: &[u8], order: &ByteOrder) -> (r: u64)
    requires
        bytes@.len() <= 8,
    ensures
        r as nat == numeric_value(bytes@, *order),
{
    match order {
        ByteOrder::BigEndian => be_bytes_value(bytes),
        ByteOrder::LittleEndian => le_bytes_value(bytes),
    }
}

proof fn lemma_numeric_value_bound(bytes: Seq<u8>, order: ByteOrder)
    ensures
        numeric_value(bytes, order) < pow256(bytes.len()),
{
    match order {
        ByteOrder::BigEndian => lemma_be_value_bound(bytes),
        ByteOrder::LittleEndian => lemma_le_value_bound(bytes),
    }
}

/// Renders a field's bytes as text, as `spec_field_value_text` reads.
pub fn parse_field_value(bytes: &[u8], field_type: &FieldType, byte_order: &ByteOrder) -> (r:
    String)
    ensures
        r@ == spec_field_value_text(bytes@, *field_type, *byte_order),
{
    if bytes.len() == 0 {
        return String::from_str("empty");
    }
    let required: usize = match field_type.size() {
        Some(s) => s,
        None => 1,
    };
    if bytes.len() < required {
        let mut s = String::from_str("insufficient data (needs ");
        let d = u64_to_decimal(required as u64);
        s.append(d.as_str());
        s.append(" bytes)");
        proof {
            assert(s@ =~= "insufficient data (needs "@ + dec_chars(spec_required_len(*field_type))
                + " bytes)"@);
        }
        return s;
    }
    proof {
        lemma_pow256_7();
    }
    match field_type {
        FieldType::Uint8 => u64_to_decimal(bytes[0] as u64),
        FieldType::Int8 => {
            let b = bytes[0];
            let v: i64 = if b < 128 {
                b as i64
            } else {
                (b as i64) - 256
            };
            proof {
                assert(pow256(1) == 256);
                assert(v as int == twos_complement(bytes@[0] as nat, 1));
            }
            i64_to_decimal(v)
        },
        FieldType::Uint16 => {
            let raw = numeric_bytes_value(slice_subrange(bytes, 0, 2), byte_order);
            u64_to_decimal(raw)
        },
        FieldType::Int16 => {
            let raw = numeric_bytes_value(slice_subrange(bytes, 0, 2), byte_order);
            proof {
                lemma_numeric_value_bound(bytes@.take(2), *byte_order);
            }
            let v: i64 = if raw < 0x8000 {
                raw as i64
            } else {
                (raw as i64) - 0x10000
            };
            proof {
                assert(v as int == twos_complement(numeric_value(bytes@.take(2), *byte_order), 2));
            }
            i64_to_decimal(v)
        },
        FieldType::Uint32 => {
            let raw = numeric_bytes_value(slice_subrange(bytes, 0, 4), byte_order);
            u64_to_decimal(raw)
        },
        FieldType::Int32 => {
            let raw = numeric_bytes_value(slice_subrange(bytes, 0, 4), byte_order);
            proof {
                lemma_numeric_value_bound(bytes@.take(4), *byte_order);
            }
            let v: i64 = if raw < 0x80000000 {
                raw as i64
            } else {
                (raw as i64) - 0x100000000
            };
            proof {
                assert(v as int == twos_complement(numeric_value(bytes@.take(4), *byte_order), 4));
            }
            i64_to_decimal(v)
        },
        FieldType::Uint64 => {
            let raw = numeric_bytes_value(slice_subrange(bytes, 0, 8), byte_order);
            u64_to_decimal(raw)
        },
        FieldType::Int64 => {
            let raw = numeric_bytes_value(slice_subrange(bytes, 0, 8), byte_order);
            proof {
                lemma_numeric_value_bound(bytes@.take(8), *byte_order);
            }
            let v: i64 = if raw < 0x8000000000000000 {
                raw as i64
            } else {
                -((u64::MAX - raw) as i64) - 1
            };
            proof {
                assert(v as int == twos_complement(numeric_value(bytes@.take(8), *byte_order), 8));
            }
            i64_to_decimal(v)
        },
        FieldType::Float32 => {
            let raw = numeric_bytes_value(slice_subrange(bytes, 0, 4), byte_order);
            proof {
                lemma_numeric_value_bound(bytes@.take(4), *byte_order);
            }
            render_f32_bits(raw as u32)
        },
        FieldType::Float64 => {
            let raw = numeric_bytes_value(slice_subrange(bytes, 0, 8), byte_order);
            proof {
                lemma_numeric_value_bound(bytes@.take(8), *byte_order);
            }
            render_f64_bits(raw)
        },
        FieldType::String => utf8_lossy(bytes),
        FieldType::Bytes => to_hex_spaced(bytes),
        FieldType::Hex => to_hex_spaced(bytes),
    }
}

/// One field's parse: either the exact slice with its rendered text, or
/// empty bytes with the insufficient-data sentinel when the field does
/// not fit in the buffer.
pub open spec fn spec_parse_field(f: ProtocolFieldView, header_len: nat, data: Seq<u8>)
    -> ParsedFieldView {
    let flen = spec_field_len(f);
    let abs = header_len + f.offset;
    if abs + flen > data.len() {
        ParsedFieldView {
            name: f.name,
            field_type: f.field_type,
            raw_bytes: Seq::empty(),
            value: "insufficient data"@,
            description: f.description,
        }
    } else {
        let raw = data.subrange(abs as int, (abs + flen) as int);
        ParsedFieldView {
            name: f.name,
            field_type: f.field_type,
            raw_bytes: raw,
            value: spec_field_value_text(raw, f.field_type, f.byte_order),
            description: f.description,
        }
    }
}

/// A frame that failed a structural check: no fields, an error message.
pub open spec fn spec_invalid_frame(p: ProtocolView, data: Seq<u8>, err: Seq<char>)
    -> ParsedFrameView {
    ParsedFrameView {
        protocol_name: p.name,
        raw_data: data,
        fields: Seq::empty(),
        valid: false,
        error: Some(err),
    }
}

/// The whole parse: header and footer checks against the original
/// buffer, then one parsed field per descriptor field, in order.
pub open spec fn spec_parse_frame(p: ProtocolView, data: Seq<u8>) -> ParsedFrameView {
    if p.header is Some && data.len() < p.header->0.len() {
        spec_invalid_frame(p, data, "insufficient data"@)
    } else if p.header is Some && data.take(p.header->0.len() as int) != p.header->0 {
        spec_invalid_frame(p, data, "header mismatch"@)
    } else if p.footer is Some && data.len() < p.footer->0.len() {
        spec_invalid_frame(p, data, "insufficient data"@)
    } else if p.footer is Some && data.skip(data.len() - p.footer->0.len()) != p.footer->0 {
        spec_invalid_frame(p, data, "footer mismatch"@)
    } else {
        ParsedFrameView {
            protocol_name: p.name,
            raw_data: data,
            fields: Seq::new(
                p.fields.len(),
                |i: int| spec_parse_field(p.fields[i], spec_header_len(p), data),
            ),
            valid: true,
            error: None,
        }
    }
}

/// Whether two byte slices hold the same bytes.
fn bytes_eq(a: &[u8], b: &[u8]) -> (r: bool)
    ensures
        r == (a@ == b@),
{
    if a.len() != b.len() {
        return false;
    }
    let mut i: usize = 0;
    while i < a.len()
        invariant
            0 <= i <= a@.len(),
            a@.len() == b@.len(),
            forall|j: int| 0 <= j < i ==> a@[j] == b@[j],
        decreases a@.len() - i,
    {
        if a[i] != b[i] {
            return false;
        }
        i = i + 1;
    }
    proof {
        assert(a@ =~= b@);
    }
    true
}

/// A copy of an optional string, equal in reading.
fn clone_opt_string(o: &Option<String>) -> (r: Option<String>)
    ensures
        (match o {
            Some(s) => r is Some && r->0@ == s@,
            None => r is None,
        }),
{
    match o {
        Some(s) => Some(s.clone()),
        None => None,
    }
}

/// An invalid frame carrying the given error text.
fn make_invalid_frame(protocol: &Protocol, data: &[u8], err: &str) -> (r: ParsedFrame)
    ensures
        r@ == spec_invalid_frame(protocol@, data@, err@),
{
    let r = ParsedFrame {
        protocol_name: protocol.name.clone(),
        raw_data: slice_to_vec(data),
        fields: Vec::new(),
        valid: false,
        error: Some(String::from_str(err)),
    };
    proof {
        assert(r@.fields =~= Seq::<ParsedFieldView>::empty());
    }
    r
}

/// The registry of protocols and the id of the active one, if any.
pub struct ProtocolParser {
    protocols: Vec<Protocol>,
    active_protocol: Option<String>,
}

/// The mathematical reading of the registry.
pub ghost struct ProtocolParserView {
    pub protocols: Seq<ProtocolView>,
    pub active: Option<Seq<char>>,
}

impl View for ProtocolParser {
    type V = ProtocolParserView;

    closed spec fn view(&self) -> ProtocolParserView {
        (ProtocolParserView {
            protocols: Seq::new(self.protocols@.len(), |i: int| self.protocols@[i]@),
            active: match self.active_protocol {
                Some(ref a) => Some(a@),
                None => None,
            },
        })
    }
}

/// No two registered protocols share an id.
pub open spec fn unique_ids(ps: Seq<ProtocolView>) -> bool {
    forall|i: int, j: int| 0 <= i < j < ps.len() ==> ps[i].id != ps[j].id
}

/// The first protocol with the given id, if any (under `unique_ids`,
/// the only one).
pub open spec fn spec_lookup(ps: Seq<ProtocolView>, id: Seq<char>) -> Option<ProtocolView>
    decreases ps.len(),
{
    if ps.len() == 0 {
        None
    } else if ps[0].id == id {
        Some(ps[0])
    } else {
        spec_lookup(ps.drop_first(), id)
    }
}

proof fn lemma_lookup_at_index(ps: Seq<ProtocolView>, i: int)
    requires
        0 <= i < ps.len(),
        forall|j: int| 0 <= j < i ==> ps[j].id != ps[i].id,
    ensures
        spec_lookup(ps, ps[i].id) == Some(ps[i]),
    decreases i,
{
    if i > 0 {
        lemma_lookup_at_index(ps.drop_first(), i - 1);
    }
}

proof fn lemma_lookup_none(ps: Seq<ProtocolView>, id: Seq<char>)
    requires
        forall|j: int| 0 <= j < ps.len() ==> ps[j].id != id,
    ensures
        spec_lookup(ps, id) is None,
    decreases ps.len(),
{
    if ps.len() > 0 {
        lemma_lookup_none(ps.drop_first(), id);
    }
}

proof fn lemma_lookup_push(ps: Seq<ProtocolView>, p: ProtocolView, id: Seq<char>)
    ensures
        spec_lookup(ps.push(p), id) == (if spec_lookup(ps, id) is Some {
            spec_lookup(ps, id)
        } else if p.id == id {
            Some(p)
        } else {
            None
        }),
    decreases ps.len(),
{
    if ps.len() == 0 {
        assert(ps.push(p).drop_first() =~= Seq::<ProtocolView>::empty());
    } else {
        assert(ps.push(p).drop_first() =~= ps.drop_first().push(p));
        lemma_lookup_push(ps.drop_first(), p, id);
    }
}

proof fn lemma_lookup_update(ps: Seq<ProtocolView>, i: int, p: ProtocolView, id: Seq<char>)
    requires
        0 <= i < ps.len(),
        ps[i].id == p.id,
        forall|j: int| 0 <= j < i ==> ps[j].id != p.id,
    ensures
        spec_lookup(ps.update(i, p), id) == (if id == p.id {
            Some(p)
        } else {
            spec_lookup(ps, id)
        }),
    decreases i,
{
    if i == 0 {
        assert(ps.update(0, p)[0] == p);
        assert(ps.update(0, p).drop_first() =~= ps.drop_first());
    } else {
        assert(ps.update(i, p)[0] == ps[0]);
        assert(ps.update(i, p).drop_first() =~= ps.drop_first().update(i - 1, p));
        lemma_lookup_update(ps.drop_first(), i - 1, p, id);
    }
}

proof fn lemma_lookup_remove(ps: Seq<ProtocolView>, i: int, id: Seq<char>)
    requires
        0 <= i < ps.len(),
        forall|j: int| 0 <= j < ps.len() && j != i ==> ps[j].id != ps[i].id,
    ensures
        spec_lookup(ps.remove(i), id) == (if id == ps[i].id {
            None
        } else {
            spec_lookup(ps, id)
        }),
    decreases i,
{
    if i == 0 {
        assert(ps.remove(0) =~= ps.drop_first());
        if id == ps[0].id {
            lemma_lookup_none(ps.drop_first(), id);
        }
    } else {
        assert(ps.remove(i)[0] == ps[0]);
        assert(ps.remove(i).drop_first() =~= ps.drop_first().remove(i - 1));
        lemma_lookup_remove(ps.drop_first(), i - 1, id);
    }
}

impl ProtocolParser {
    /// Whether the registry holds no two protocols under one id.
    pub open spec fn wf(&self) -> bool {
        unique_ids(self@.protocols)
    }

    /// An empty registry with no active protocol.
    pub fn new() -> (r: Self)
        ensures
            r.wf(),
            r@.protocols == Seq::<ProtocolView>::empty(),
            r@.active is None,
    {
        let r = ProtocolParser { protocols: Vec::new(), active_protocol: None };
        proof {
            assert(r@.protocols =~= Seq::<ProtocolView>::empty());
        }
        r
    }

    /// The index of the protocol with the given id, and that no earlier
    /// one has it.
    fn find_index(&self, id: &String) -> (r: Option<usize>)
        ensures
            (match r {
                Some(i) => i < self@.protocols.len() && self@.protocols[i as int].id == id@
                    && (forall|j: int| 0 <= j < i ==> self@.protocols[j].id != id@),
                None => forall|j: int|
                    0 <= j < self@.protocols.len() ==> self@.protocols[j].id != id@,
            }),
    {
        let mut i: usize = 0;
        while i < self.protocols.len()
            invariant
                0 <= i <= self@.protocols.len(),
                self@.protocols.len() == self.protocols@.len(),
                forall|j: int| 0 <= j < i ==> self@.protocols[j].id != id@,
            decreases self.protocols@.len() - i,
        {
            if self.protocols[i].id == *id {
                return Some(i);
            }
            i = i + 1;
        }
        None
    }

    /// Inserts the protocol, replacing any registered one with the same
    /// id; every other id resolves as before, and the active id is kept.
    pub fn register_protocol(&mut self, protocol: Protocol)
        requires
            old(self).wf(),
        ensures
            final(self).wf(),
            final(self)@.active == old(self)@.active,
            spec_lookup(final(self)@.protocols, protocol@.id) == Some(protocol@),
            forall|id2: Seq<char>| id2 != protocol@.id ==> #[trigger] spec_lookup(
                final(self)@.protocols,
                id2,
            ) == spec_lookup(old(self)@.protocols, id2),
            final(self)@.protocols.len() <= old(self)@.protocols.len() + 1,
    {
        let ghost oldps = self@.protocols;
        let idx = self.find_index(&protocol.id);
        match idx {
            Some(i) => {
                self.protocols.set(i, protocol);
                proof {
                    assert(self@.protocols =~= oldps.update(i as int, protocol@));
                    assert forall|id2: Seq<char>| true implies #[trigger] spec_lookup(
                        self@.protocols,
                        id2,
                    ) == (if id2 == protocol@.id {
                        Some(protocol@)
                    } else {
                        spec_lookup(oldps, id2)
                    }) by {
                        lemma_lookup_update(oldps, i as int, protocol@, id2);
                    }
                    assert(unique_ids(self@.protocols));
                }
            },
            None => {
                self.protocols.push(protocol);
                proof {
                    assert(self@.protocols =~= oldps.push(protocol@));
                    assert forall|id2: Seq<char>| true implies #[trigger] spec_lookup(
                        self@.protocols,
                        id2,
                    ) == (if spec_lookup(oldps, id2) is Some {
                        spec_lookup(oldps, id2)
                    } else if protocol@.id == id2 {
                        Some(protocol@)
                    } else {
                        None
                    }) by {
                        lemma_lookup_push(oldps, protocol@, id2);
                    }
                    lemma_lookup_none(oldps, protocol@.id);
                    assert(unique_ids(self@.protocols));
                }
            },
        }
    }

    /// Removes the protocol with the given id, if registered; if it was
    /// the active one, the registry is left without an active protocol.
    pub fn remove_protocol(&mut self, id: &str)
        requires
            old(self).wf(),
        ensures
            final(self).wf(),
            spec_lookup(final(self)@.protocols, id@) is None,
            forall|id2: Seq<char>| id2 != id@ ==> #[trigger] spec_lookup(
                final(self)@.protocols,
                id2,
            ) == spec_lookup(old(self)@.protocols, id2),
            final(self)@.active == (if old(self)@.active == Some(id@) {
                None::<Seq<char>>
            } else {
                old(self)@.active
            }),
    {
        let ghost oldps = self@.protocols;
        let key = String::from_str(id);
        let idx = self.find_index(&key);
        match idx {
            Some(i) => {
                self.protocols.remove(i);
                proof {
                    assert(self@.protocols =~= oldps.remove(i as int));
                    assert forall|id2: Seq<char>| true implies #[trigger] spec_lookup(
                        self@.protocols,
                        id2,
                    ) == (if id2 == oldps[i as int].id {
                        None::<ProtocolView>
                    } else {
                        spec_lookup(oldps, id2)
                    }) by {
                        lemma_lookup_remove(oldps, i as int, id2);
                    }
                    assert(unique_ids(self@.protocols));
                }
            },
            None => {
                proof {
                    lemma_lookup_none(oldps, id@);
                }
            },
        }
        let is_active = match &self.active_protocol {
            Some(a) => *a == key,
            None => false,
        };
        if is_active {
            self.active_protocol = None;
        }
    }

    /// Makes the given id (or none) the active protocol; no check that
    /// it is registered.
    pub fn set_active_protocol(&mut self, id: Option<String>)
        ensures
            final(self)@.protocols == old(self)@.protocols,
            final(self).wf() == old(self).wf(),
            final(self)@.active == (match id {
                Some(s) => Some(s@),
                None => None::<Seq<char>>,
            }),
    {
        self.active_protocol = id;
    }

    /// All registered protocols, in registration order.
    pub fn get_protocols(&self) -> (r: Vec<&Protocol>)
        ensures
            r@.len() == self@.protocols.len(),
            forall|i: int| 0 <= i < r@.len() ==> r@[i]@ == self@.protocols[i],
    {
        let mut r: Vec<&Protocol> = Vec::new();
        let mut i: usize = 0;
        while i < self.protocols.len()
            invariant
                0 <= i <= self.protocols@.len(),
                r@.len() == i,
                forall|j: int| 0 <= j < i ==> r@[j]@ == self@.protocols[j],
            decreases self.protocols@.len() - i,
        {
            r.push(&self.protocols[i]);
            i = i + 1;
        }
        r
    }

    /// The registered protocol with the given id, if any.
    pub fn get_protocol(&self, id: &str) -> (r: Option<&Protocol>)
        requires
            self.wf(),
        ensures
            (match spec_lookup(self@.protocols, id@) {
                Some(p) => r is Some && r->0@ == p,
                None => r is None,
            }),
    {
        let key = String::from_str(id);
        let idx = self.find_index(&key);
        match idx {
            Some(i) => {
                proof {
                    lemma_lookup_at_index(self@.protocols, i as int);
                }
                Some(&self.protocols[i])
            },
            None => {
                proof {
                    lemma_lookup_none(self@.protocols, id@);
                }
                None
            },
        }
    }

    /// Parses with the protocol registered under the given id, and fails
    /// when that id is unknown.
    pub fn parse_data_with_protocol(&self, data: &[u8], protocol_id: &str) -> (r: Result<
        ParsedFrame,
        String,
    >)
        requires
            self.wf(),
        ensures
            (match spec_lookup(self@.protocols, protocol_id@) {
                Some(p) => r is Ok && r->Ok_0@ == spec_parse_frame(p, data@),
                None => r is Err && r->Err_0@ == "Protocol not found"@,
            }),
    {
        let key = String::from_str(protocol_id);
        let idx = self.find_index(&key);
        match idx {
            Some(i) => {
                proof {
                    lemma_lookup_at_index(self@.protocols, i as int);
                }
                Ok(self.parse_with_protocol_at(data, i))
            },
            None => {
                proof {
                    lemma_lookup_none(self@.protocols, protocol_id@);
                }
                Err(String::from_str("Protocol not found"))
            },
        }
    }

    /// Parses with the active protocol: nothing when none is active or
    /// the active id is not registered.
    pub fn parse(&self, data: &[u8]) -> (r: Option<ParsedFrame>)
        requires
            self.wf(),
        ensures
            (match self@.active {
                None => r is None,
                Some(id) => (match spec_lookup(self@.protocols, id) {
                    None => r is None,
                    Some(p) => r is Some && r->0@ == spec_parse_frame(p, data@),
                }),
            }),
    {
        let id = match &self.active_protocol {
            Some(id) => id,
            None => {
                return None;
            },
        };
        let idx = self.find_index(id);
        match idx {
            Some(i) => {
                proof {
                    lemma_lookup_at_index(self@.protocols, i as int);
                }
                Some(self.parse_with_protocol_at(data, i))
            },
            None => {
                proof {
                    lemma_lookup_none(self@.protocols, id@);
                }
                None
            },
        }
    }

    /// Parses with the protocol at a registry index (borrow helper).
    fn parse_with_protocol_at(&self, data: &[u8], i: usize) -> (r: ParsedFrame)
        requires
            i < self@.protocols.len(),
        ensures
            r@ == spec_parse_frame(self@.protocols[i as int], data@),
    {
        self.parse_with_protocol(data, &self.protocols[i])
    }

    /// Parses the buffer with the given protocol, exactly as
    /// `spec_parse_frame` reads.
    pub fn parse_with_protocol(&self, data: &[u8], protocol: &Protocol) -> (r: ParsedFrame)
        ensures
            r@ == spec_parse_frame(protocol@, data@),
    {
        // Header: length, then byte-for-byte prefix comparison.
        if let Some(header) = &protocol.header {
            if data.len() < header.len() {
                return make_invalid_frame(protocol, data, "insufficient data");
            }
            let pre = slice_subrange(data, 0, header.len());
            if !bytes_eq(pre, header.as_slice()) {
                return make_invalid_frame(protocol, data, "header mismatch");
            }
        }
        // Footer: length, then byte-for-byte suffix comparison against
        // the original buffer.
        if let Some(footer) = &protocol.footer {
            if data.len() < footer.len() {
                return make_invalid_frame(protocol, data, "insufficient data");
            }
            let start = data.len() - footer.len();
            let suf = slice_subrange(data, start, data.len());
            proof {
                assert(suf@ =~= data@.skip(data@.len() - protocol@.footer->0.len()));
            }
            if !bytes_eq(suf, footer.as_slice()) {
                return make_invalid_frame(protocol, data, "footer mismatch");
            }
        }
        let header_len: usize = match &protocol.header {
            Some(h) => h.len(),
            None => 0,
        };
        let mut fields: Vec<ParsedField> = Vec::new();
        let mut i: usize = 0;
        while i < protocol.fields.len()
            invariant
                0 <= i <= protocol.fields@.len(),
                fields@.len() == i,
                header_len as nat == spec_header_len(protocol@),
                forall|j: int| 0 <= j < i ==> #[trigger] fields@[j]@ == spec_parse_field(
                    protocol@.fields[j],
                    spec_header_len(protocol@),
                    data@,
                ),
            decreases protocol.fields@.len() - i,
        {
            let f = &protocol.fields[i];
            let flen: usize = match f.field_type.size() {
                Some(s) => s,
                None => match f.length {
                    Some(l) => l,
                    None => 1,
                },
            };
            proof {
                assert(protocol@.fields[i as int] == protocol.fields@[i as int]@);
                assert(flen as nat == spec_field_len(protocol@.fields[i as int]));
            }
            let fits: bool = if f.offset > data.len() {
                false
            } else if header_len > data.len() - f.offset {
                false
            } else {
                flen <= data.len() - f.offset - header_len
            };
            if !fits {
                let pf = ParsedField {
                    name: f.name.clone(),
                    field_type: f.field_type,
                    raw_bytes: Vec::new(),
                    value: String::from_str("insufficient data"),
                    description: clone_opt_string(&f.description),
                };
                proof {
                    assert(pf@.raw_bytes =~= Seq::<u8>::empty());
                    assert(pf@ == spec_parse_field(
                        protocol@.fields[i as int],
                        spec_header_len(protocol@),
                        data@,
                    ));
                }
                fields.push(pf);
            } else {
                let abs = header_len + f.offset;
                let raw = slice_subrange(data, abs, abs + flen);
                let value = parse_field_value(raw, &f.field_type, &f.byte_order);
                let pf = ParsedField {
                    name: f.name.clone(),
                    field_type: f.field_type,
                    raw_bytes: slice_to_vec(raw),
                    value,
                    description: clone_opt_string(&f.description),
                };
                proof {
                    assert(pf@ == spec_parse_field(
                        protocol@.fields[i as int],
                        spec_header_len(protocol@),
                        data@,
                    ));
                }
                fields.push(pf);
            }
            i = i + 1;
        }
        let r = ParsedFrame {
            protocol_name: protocol.name.clone(),
            raw_data: slice_to_vec(data),
            fields,
            valid: true,
            error: None,
        };
        proof {
            assert(r@.fields =~= spec_parse_frame(protocol@, data@).fields);
        }
        r
    }
}

impl Default for ProtocolParser {
    /// The same empty registry as `new`.
    fn default() -> (r: Self)
        ensures
            r.wf(),
            r@.protocols == Seq::<ProtocolView>::empty(),
            r@.active is None,
    {
        ProtocolParser::new()
    }
}

/// A buffer shorter than the header parses to an invalid frame with the
/// insufficient-data error and no fields.
pub proof fn lemma_parse_short_of_header(p: ProtocolView, data: Seq<u8>)
    requires
        p.header is Some,
        data.len() < p.header->0.len(),
    ensures
        !spec_parse_frame(p, data).valid,
        spec_parse_frame(p, data).error == Some("insufficient data"@),
        spec_parse_frame(p, data).fields == Seq::<ParsedFieldView>::empty(),
        spec_parse_frame(p, data).raw_data == data,
{
}

/// A buffer whose leading bytes differ from the header parses to an
/// invalid frame with the header-mismatch error and no fields.
pub proof fn lemma_parse_header_mismatch(p: ProtocolView, data: Seq<u8>)
    requires
        p.header is Some,
        data.len() >= p.header->0.len(),
        data.take(p.header->0.len() as int) != p.header->0,
    ensures
        !spec_parse_frame(p, data).valid,
        spec_parse_frame(p, data).error == Some("header mismatch"@),
        spec_parse_frame(p, data).fields == Seq::<ParsedFieldView>::empty(),
{
}

/// With no header and no footer, and every field within the buffer, the
/// frame is valid, has no error, and carries exactly one parsed field
/// per descriptor field, in order, each holding its slice of the buffer.
pub proof fn lemma_parse_plain_fields(p: ProtocolView, data: Seq<u8>)
    requires
        p.header is None,
        p.footer is None,
        forall|i: int| 0 <= i < p.fields.len() ==> crate::protocol::spec_field_extent(
            #[trigger] p.fields[i],
        ) <= data.len(),
    ensures
        spec_parse_frame(p, data).valid,
        spec_parse_frame(p, data).error is None,
        spec_parse_frame(p, data).fields.len() == p.fields.len(),
        forall|i: int| 0 <= i < p.fields.len() ==> {
            let pf = #[trigger] spec_parse_frame(p, data).fields[i];
            pf.name == p.fields[i].name && pf.field_type == p.fields[i].field_type
                && pf.raw_bytes == data.subrange(
                p.fields[i].offset as int,
                crate::protocol::spec_field_extent(p.fields[i]) as int,
            ) && pf.description == p.fields[i].description
        },
{
    assert forall|i: int| 0 <= i < p.fields.len() implies {
        let pf = #[trigger] spec_parse_frame(p, data).fields[i];
        pf.name == p.fields[i].name && pf.field_type == p.fields[i].field_type
            && pf.raw_bytes == data.subrange(
            p.fields[i].offset as int,
            crate::protocol::spec_field_extent(p.fields[i]) as int,
        ) && pf.description == p.fields[i].description
    } by {
        assert(spec_header_len(p) == 0);
        assert(spec_parse_frame(p, data).fields[i] == spec_parse_field(p.fields[i], 0, data));
    }
}

/// Every frame keeps the validity invariant: an invalid frame has no
/// fields and carries an error, a valid frame carries none, and the full
/// raw input is retained either way.
pub proof fn lemma_frame_validity_invariant(p: ProtocolView, data: Seq<u8>)
    ensures
        !spec_parse_frame(p, data).valid ==> spec_parse_frame(p, data).fields
            == Seq::<ParsedFieldView>::empty() && spec_parse_frame(p, data).error is Some,
        spec_parse_frame(p, data).valid ==> spec_parse_frame(p, data).error is None,
        spec_parse_frame(p, data).raw_data == data,
{
}

/// Parsing reads nothing but the protocol and the bytes: equal inputs
/// give equal frames, so a second parse of the same data is identical.
pub proof fn lemma_parse_deterministic(
    p1: ProtocolView,
    p2: ProtocolView,
    d1: Seq<u8>,
    d2: Seq<u8>,
)
    requires
        p1 == p2,
        d1 == d2,
    ensures
        spec_parse_frame(p1, d1) == spec_parse_frame(p2, d2),
{
}

} // verus!
