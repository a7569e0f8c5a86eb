//! The protocol descriptor model: an immutable schema describing how to
//! carve a byte buffer into typed, named fields.

use vstd::prelude::*;
use crate::sys::{new_uuid_string, now_millis};

verus! {

/// The type of one field of a frame. Numeric types have a fixed width;
/// string, bytes and hex fields take their width from the descriptor.
#[derive(Debug, Clone, Copy, PartialEq, Eq, Structural)]
pub enum FieldType {
    Uint8,
    Uint16,
    Uint32,
    Uint64,
    Int8,
    Int16,
    Int32,
    Int64,
    Float32,
    Float64,
    String,
    Bytes,
    Hex,
}

/// The order in which the bytes of a multi-byte numeric field are read.
#[derive(Debug, Clone, Copy, PartialEq, Eq, Structural)]
pub enum ByteOrder {
    BigEndian,
    LittleEndian,
}

/// The checksum a protocol reserves space for. The parser reserves the
/// bytes but does not validate the value.
#[derive(Debug, Clone, Copy, PartialEq, Eq, Structural)]
pub enum ChecksumType {
    NoChecksum,
    Sum8,
    Sum16,
    Crc8,
    Crc16,
    Crc32,
    Xor8,
}

impl Default for ByteOrder {
    /// Big-endian, unless a field declares otherwise.
    fn default() -> (r: Self)
        ensures
            r == ByteOrder::BigEndian,
    {
        ByteOrder::BigEndian
    }
}

impl Default for ChecksumType {
    /// No checksum, so no bytes reserved.
    fn default() -> (r: Self)
        ensures
            r == ChecksumType::NoChecksum,
    {
        ChecksumType::NoChecksum
    }
}

/// The intrinsic byte width of a field type, if it has one.
pub open spec fn spec_type_size(t: FieldType) -> Option<nat> {
    match t {
        FieldType::Uint8 | FieldType::Int8 => Some(1nat),
        FieldType::Uint16 | FieldType::Int16 => Some(2nat),
        FieldType::Uint32 | FieldType::Int32 | FieldType::Float32 => Some(4nat),
        FieldType::Uint64 | FieldType::Int64 | FieldType::Float64 => Some(8nat),
        FieldType::String | FieldType::Bytes | FieldType::Hex => None,
    }
}

/// The encoded byte length of a checksum value.
pub open spec fn spec_checksum_size(c: ChecksumType) -> nat {
    match c {
        ChecksumType::NoChecksum => 0,
        ChecksumType::Sum8 | ChecksumType::Crc8 | ChecksumType::Xor8 => 1,
        ChecksumType::Sum16 | ChecksumType::Crc16 => 2,
        ChecksumType::Crc32 => 4,
    }
}

impl FieldType {
    /// The intrinsic byte width of this type, or None for variable-width
    /// types.
    pub fn size(&self) -> (r: Option<usize>)
        ensures
            (r is Some) == (spec_type_size(*self) is Some),
            r is Some ==> r->0 as nat == spec_type_size(*self)->0,
    {
        match self {
            FieldType::Uint8 | FieldType::Int8 => Some(1),
            FieldType::Uint16 | FieldType::Int16 => Some(2),
            FieldType::Uint32 | FieldType::Int32 | FieldType::Float32 => Some(4),
            FieldType::Uint64 | FieldType::Int64 | FieldType::Float64 => Some(8),
            FieldType::String | FieldType::Bytes | FieldType::Hex => None,
        }
    }
}

impl ChecksumType {
    /// The number of bytes this checksum occupies in a frame.
    pub fn size(&self) -> (r: usize)
        ensures
            r as nat == spec_checksum_size(*self),
    {
        match self {
            ChecksumType::NoChecksum => 0,
            ChecksumType::Sum8 | ChecksumType::Crc8 | ChecksumType::Xor8 => 1,
            ChecksumType::Sum16 | ChecksumType::Crc16 => 2,
            ChecksumType::Crc32 => 4,
        }
    }
}

/// One field of a protocol: where it sits after the header, how wide it
/// is, and how its bytes are to be read.
#[derive(Debug, Clone)]
pub struct ProtocolField {
    pub name: String,
    pub field_type: FieldType,
    pub offset: usize,
    pub length: Option<usize>,
    pub byte_order: ByteOrder,
    pub description: Option<String>,
    pub visible: bool,
}

/// The mathematical reading of a ProtocolField.
pub ghost struct ProtocolFieldView {
    pub name: Seq<char>,
    pub field_type: FieldType,
    pub offset: nat,
    pub length: Option<nat>,
    pub byte_order: ByteOrder,
    pub description: Option<Seq<char>>,
    pub visible: bool,
}

impl View for ProtocolField {
    type V = ProtocolFieldView;

    open spec fn view(&self) -> ProtocolFieldView {
        (ProtocolFieldView {
            name: self.name@,
            field_type: self.field_type,
            offset: self.offset as nat,
            length: match self.length {
                Some(l) => Some(l as nat),
                None => None,
            },
            byte_order: self.byte_order,
            description: match self.description {
                Some(ref d) => Some(d@),
                None => None,
            },
            visible: self.visible,
        })
    }
}

/// The number of bytes a field consumes: the type's intrinsic width, or
/// the declared length, or one byte.
pub open spec fn spec_field_len(f: ProtocolFieldView) -> nat {
    match spec_type_size(f.field_type) {
        Some(s) => s,
        None => match f.length {
            Some(l) => l,
            None => 1,
        },
    }
}

/// One past the last byte a field reaches, relative to the header end.
pub open spec fn spec_field_extent(f: ProtocolFieldView) -> nat {
    f.offset + spec_field_len(f)
}

/// The furthest extent of any field in the sequence.
pub open spec fn spec_fields_extent(fields: Seq<ProtocolFieldView>) -> nat
    decreases fields.len(),
{
    if fields.len() == 0 {
        0
    } else {
        let rest = spec_fields_extent(fields.drop_last());
        let last = spec_field_extent(fields.last());
        if last >= rest {
            last
        } else {
            rest
        }
    }
}

impl ProtocolField {
    /// A field of the given type at the given offset, big-endian,
    /// visible, without a declared length or description.
    pub fn new(name: &str, field_type: FieldType, offset: usize) -> (r: Self)
        ensures
            r@ == (ProtocolFieldView {
                name: name@,
                field_type: field_type,
                offset: offset as nat,
                length: None,
                byte_order: ByteOrder::BigEndian,
                description: None,
                visible: true,
            }),
    {
        ProtocolField {
            name: String::from_str(name),
            field_type,
            offset,
            length: None,
            byte_order: ByteOrder::BigEndian,
            description: None,
            visible: true,
        }
    }

    /// The same field with a declared length.
    pub fn with_length(self, length: usize) -> (r: Self)
        ensures
            r@ == (ProtocolFieldView { length: Some(length as nat), ..self@ }),
    {
        ProtocolField { length: Some(length), ..self }
    }

    /// The same field with the given byte order.
    pub fn with_byte_order(self, order: ByteOrder) -> (r: Self)
        ensures
            r@ == (ProtocolFieldView { byte_order: order, ..self@ }),
    {
        ProtocolField { byte_order: order, ..self }
    }

    /// The same field with a description.
    pub fn with_description(self, description: &str) -> (r: Self)
        ensures
            r@ == (ProtocolFieldView { description: Some(description@), ..self@ }),
    {
        ProtocolField { description: Some(String::from_str(description)), ..self }
    }
}

/// A protocol: an identity, optional fixed header and footer byte
/// strings, an ordered list of fields, and a reserved checksum kind.
#[derive(Debug, Clone)]
pub struct Protocol {
    pub id: String,
    pub name: String,
    pub description: Option<String>,
    pub header: Option<Vec<u8>>,
    pub footer: Option<Vec<u8>>,
    pub fields: Vec<ProtocolField>,
    pub checksum: Option<ChecksumType>,
    pub created_at: i64,
    pub updated_at: i64,
}

/// The mathematical reading of a Protocol.
pub ghost struct ProtocolView {
    pub id: Seq<char>,
    pub name: Seq<char>,
    pub description: Option<Seq<char>>,
    pub header: Option<Seq<u8>>,
    pub footer: Option<Seq<u8>>,
    pub fields: Seq<ProtocolFieldView>,
    pub checksum: Option<ChecksumType>,
    pub created_at: int,
    pub updated_at: int,
}

impl View for Protocol {
    type V = ProtocolView;

    open spec fn view(&self) -> ProtocolView {
        (ProtocolView {
            id: self.id@,
            name: self.name@,
            description: match self.description {
                Some(ref d) => Some(d@),
                None => None,
            },
            header: match self.header {
                Some(ref h) => Some(h@),
                None => None,
            },
            footer: match self.footer {
                Some(ref f) => Some(f@),
                None => None,
            },
            fields: Seq::new(self.fields@.len(), |i: int| self.fields@[i]@),
            checksum: self.checksum,
            created_at: self.created_at as int,
            updated_at: self.updated_at as int,
        })
    }
}

/// The length of a protocol's header, zero if it has none.
pub open spec fn spec_header_len(p: ProtocolView) -> nat {
    match p.header {
        Some(h) => h.len(),
        None => 0,
    }
}

/// The length of a protocol's footer, zero if it has none.
pub open spec fn spec_footer_len(p: ProtocolView) -> nat {
    match p.footer {
        Some(f) => f.len(),
        None => 0,
    }
}

/// The bytes a protocol's checksum reserves, zero if it declares none.
pub open spec fn spec_reserved_len(p: ProtocolView) -> nat {
    match p.checksum {
        Some(c) => spec_checksum_size(c),
        None => 0,
    }
}

/// The shortest buffer on which every structural part and every field of
/// the protocol fits: header, furthest field, footer and checksum.
pub open spec fn spec_min_frame_length(p: ProtocolView) -> nat {
    spec_header_len(p) + spec_fields_extent(p.fields) + spec_footer_len(p) + spec_reserved_len(p)
}

/// Every field's extent is bounded by the whole sequence's extent.
proof fn lemma_fields_extent_ge(fields: Seq<ProtocolFieldView>, i: int)
    requires
        0 <= i < fields.len(),
    ensures
        spec_field_extent(fields[i]) <= spec_fields_extent(fields),
    decreases fields.len(),
{
    if i < fields.len() - 1 {
        lemma_fields_extent_ge(fields.drop_last(), i);
    }
}

impl Protocol {
    /// A new, empty protocol of the given name, under a fresh random id,
    /// stamped with the current time.
    pub fn new(name: &str) -> (r: Self)
        ensures
            r@.id.len() == 36,
            r@.name == name@,
            r@.description is None,
            r@.header is None,
            r@.footer is None,
            r@.fields == Seq::<ProtocolFieldView>::empty(),
            r@.checksum is None,
            r@.created_at == r@.updated_at,
    {
        let now = now_millis();
        let r = Protocol {
            id: new_uuid_string(),
            name: String::from_str(name),
            description: None,
            header: None,
            footer: None,
            fields: Vec::new(),
            checksum: None,
            created_at: now,
            updated_at: now,
        };
        proof {
            assert(r@.fields =~= Seq::<ProtocolFieldView>::empty());
        }
        r
    }

    /// The same protocol with the given header bytes.
    pub fn with_header(self, header: Vec<u8>) -> (r: Self)
        ensures
            r@ == (ProtocolView { header: Some(header@), ..self@ }),
    {
        let r = Protocol { header: Some(header), ..self };
        proof {
            assert(r@.fields =~= self@.fields);
        }
        r
    }

    /// The same protocol with the given footer bytes.
    pub fn with_footer(self, footer: Vec<u8>) -> (r: Self)
        ensures
            r@ == (ProtocolView { footer: Some(footer@), ..self@ }),
    {
        let r = Protocol { footer: Some(footer), ..self };
        proof {
            assert(r@.fields =~= self@.fields);
        }
        r
    }

    /// Appends a field and refreshes the update timestamp.
    pub fn add_field(&mut self, field: ProtocolField)
        ensures
            final(self)@.fields == old(self)@.fields.push(field@),
            final(self)@.id == old(self)@.id,
            final(self)@.name == old(self)@.name,
            final(self)@.description == old(self)@.description,
            final(self)@.header == old(self)@.header,
            final(self)@.footer == old(self)@.footer,
            final(self)@.checksum == old(self)@.checksum,
            final(self)@.created_at == old(self)@.created_at,
    {
        self.fields.push(field);
        self.updated_at = now_millis();
        proof {
            assert(self@.fields =~= old(self)@.fields.push(field@));
        }
    }

    /// The shortest buffer this protocol can fully occupy: header length
    /// plus the furthest field extent plus footer and reserved checksum
    /// lengths.
    pub fn min_frame_length(&self) -> (r: usize)
        requires
            spec_min_frame_length(self@) <= usize::MAX,
        ensures
            r as nat == spec_min_frame_length(self@),
    {
        let header_len: usize = match self.header {
            Some(ref h) => h.len(),
            None => 0,
        };
        let footer_len: usize = match self.footer {
            Some(ref f) => f.len(),
            None => 0,
        };
        let checksum_len: usize = match self.checksum {
            Some(ref c) => c.size(),
            None => 0,
        };
        let mut extent: usize = 0;
        let mut i: usize = 0;
        while i < self.fields.len()
            invariant
                0 <= i <= self.fields@.len(),
                extent as nat == spec_fields_extent(self@.fields.take(i as int)),
                spec_fields_extent(self@.fields.take(i as int)) <= spec_fields_extent(
                    self@.fields,
                ),
                spec_min_frame_length(self@) <= usize::MAX,
            decreases self.fields@.len() - i,
        {
            let f = &self.fields[i];
            let flen: usize = match f.field_type.size() {
                Some(s) => s,
                None => match f.length {
                    Some(l) => l,
                    None => 1,
                },
            };
            proof {
                lemma_fields_extent_ge(self@.fields, i as int);
                assert(self@.fields[i as int] == self.fields@[i as int]@);
                assert(flen as nat == spec_field_len(self@.fields[i as int]));
                assert(self@.fields.take(i + 1).drop_last() =~= self@.fields.take(i as int));
                assert(self@.fields.take(i + 1).last() == self@.fields[i as int]);
            }
            let ext = f.offset + flen;
            if ext > extent {
                extent = ext;
            }
            i = i + 1;
        }
        proof {
            assert(self@.fields.take(self.fields@.len() as int) =~= self@.fields);
        }
        header_len + extent + footer_len + checksum_len
    }
}

} // verus!
