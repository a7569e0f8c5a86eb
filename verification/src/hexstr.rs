//! Hex-encoded text to bytes, and the encoding of an outgoing payload.

use vstd::prelude::*;
use vstd::string::StrSliceExecFns;
use vstd::string::StringSliceAdditionalSpecFns;
use crate::session::DataFormat;
use crate::text::{hex_digit_char, hex_pair_chars, hex_spaced_chars};

verus! {

/// The characters with the Unicode White_Space property, as
/// char::is_whitespace recognises them.
pub open spec fn spec_is_space(c: char) -> bool {
    ||| c == ' '
    ||| (9 <= c as u32 && c as u32 <= 13)
    ||| c as u32 == 0x85
    ||| c as u32 == 0xA0
    ||| c as u32 == 0x1680
    ||| (0x2000 <= c as u32 && c as u32 <= 0x200A)
    ||| c as u32 == 0x2028
    ||| c as u32 == 0x2029
    ||| c as u32 == 0x202F
    ||| c as u32 == 0x205F
    ||| c as u32 == 0x3000
}

/// Whether the character counts as whitespace.
pub fn is_space_char(c: char) -> (r: bool)
    ensures
        r == spec_is_space(c),
{
    let u = c as u32;
    u == 0x20 || (9 <= u && u <= 13) || u == 0x85 || u == 0xA0 || u == 0x1680 || (0x2000 <= u && u
        <= 0x200A) || u == 0x2028 || u == 0x2029 || u == 0x202F || u == 0x205F || u == 0x3000
}

/// The string with every whitespace character removed.
pub open spec fn strip_spaces(s: Seq<char>) -> Seq<char>
    decreases s.len(),
{
    if s.len() == 0 {
        Seq::empty()
    } else if spec_is_space(s[0]) {
        strip_spaces(s.drop_first())
    } else {
        seq![s[0]] + strip_spaces(s.drop_first())
    }
}

proof fn lemma_strip_spaces_snoc(s: Seq<char>, c: char)
    ensures
        strip_spaces(s.push(c)) == strip_spaces(s) + (if spec_is_space(c) {
            Seq::<char>::empty()
        } else {
            seq![c]
        }),
    decreases s.len(),
{
    let tail = if spec_is_space(c) {
        Seq::<char>::empty()
    } else {
        seq![c]
    };
    if s.len() == 0 {
        assert(s.push(c).drop_first() =~= Seq::<char>::empty());
        assert(s.push(c)[0] == c);
        assert(strip_spaces(Seq::<char>::empty()) == Seq::<char>::empty());
        assert(strip_spaces(s.push(c)) =~= strip_spaces(s) + tail);
    } else {
        assert(s.push(c).drop_first() =~= s.drop_first().push(c));
        assert(s.push(c)[0] == s[0]);
        lemma_strip_spaces_snoc(s.drop_first(), c);
        if spec_is_space(s[0]) {
        } else {
            assert(seq![s[0]] + (strip_spaces(s.drop_first()) + tail) =~= (seq![s[0]]
                + strip_spaces(s.drop_first())) + tail);
        }
    }
}

/// Whether the character is a hex digit (either case).
pub open spec fn spec_is_hex_digit(c: char) -> bool {
    ||| (48 <= c as u32 && c as u32 <= 57)
    ||| (97 <= c as u32 && c as u32 <= 102)
    ||| (65 <= c as u32 && c as u32 <= 70)
}

/// The value of a hex digit character (zero for any other character).
pub open spec fn spec_hex_val(c: char) -> nat {
    if 48 <= c as u32 && c as u32 <= 57 {
        (c as u32 - 48) as nat
    } else if 97 <= c as u32 && c as u32 <= 102 {
        (c as u32 - 87) as nat
    } else if 65 <= c as u32 && c as u32 <= 70 {
        (c as u32 - 55) as nat
    } else {
        0
    }
}

/// Whether the character is a hex digit.
pub fn is_hex_digit_char(c: char) -> (r: bool)
    ensures
        r == spec_is_hex_digit(c),
{
    let u = c as u32;
    (48 <= u && u <= 57) || (97 <= u && u <= 102) || (65 <= u && u <= 70)
}

/// The value of a hex digit character.
pub fn hex_val_char(c: char) -> (r: u8)
    requires
        spec_is_hex_digit(c),
    ensures
        r as nat == spec_hex_val(c),
        r < 16,
{
    let u = c as u32;
    if 48 <= u && u <= 57 {
        (u - 48) as u8
    } else if 97 <= u && u <= 102 {
        (u - 87) as u8
    } else {
        (u - 55) as u8
    }
}

/// Every character is a hex digit.
pub open spec fn all_hex_digits(s: Seq<char>) -> bool {
    forall|i: int| 0 <= i < s.len() ==> spec_is_hex_digit(s[i])
}

/// The bytes an even-length hex digit string stands for, two digits per
/// byte, high digit first.
pub open spec fn spec_hex_bytes(s: Seq<char>) -> Seq<u8> {
    Seq::new((s.len() / 2) as nat, |i: int| (16 * spec_hex_val(s[2 * i]) + spec_hex_val(s[2 * i + 1])) as u8)
}

/// What parsing a hex string yields: whitespace is dropped, an odd count
/// of digits or a stray character is refused, and each digit pair makes
/// one byte.
pub open spec fn spec_parse_hex(s: Seq<char>) -> Result<Seq<u8>, Seq<char>> {
    let t = strip_spaces(s);
    if t.len() % 2 != 0 {
        Err("hex string length must be even"@)
    } else if !all_hex_digits(t) {
        Err("invalid hex character"@)
    } else {
        Ok(spec_hex_bytes(t))
    }
}

/// Parses hex text into bytes, exactly as `spec_parse_hex` reads.
pub fn parse_hex_string(hex: &str) -> (r: Result<Vec<u8>, String>)
    ensures
        (match spec_parse_hex(hex@) {
            Ok(b) => r is Ok && r->Ok_0@ == b,
            Err(e) => r is Err && r->Err_0@ == e,
        }),
{
    let n = hex.unicode_len();
    let mut t: Vec<char> = Vec::new();
    let mut i: usize = 0;
    while i < n
        invariant
            0 <= i <= n,
            n as nat == hex@.len(),
            t@ == strip_spaces(hex@.take(i as int)),
        decreases n - i,
    {
        let c = hex.get_char(i);
        proof {
            lemma_strip_spaces_snoc(hex@.take(i as int), hex@[i as int]);
            assert(hex@.take(i + 1) =~= hex@.take(i as int).push(hex@[i as int]));
        }
        if !is_space_char(c) {
            t.push(c);
            proof {
                assert(t@ =~= strip_spaces(hex@.take(i + 1)));
            }
        } else {
            proof {
                assert(t@ =~= strip_spaces(hex@.take(i + 1)));
            }
        }
        i = i + 1;
    }
    proof {
        assert(hex@.take(n as int) =~= hex@);
    }
    if t.len() % 2 != 0 {
        return Err(String::from_str("hex string length must be even"));
    }
    let mut j: usize = 0;
    while j < t.len()
        invariant
            0 <= j <= t@.len(),
            t@ == strip_spaces(hex@),
            t@.len() % 2 == 0,
            forall|k: int| 0 <= k < j ==> spec_is_hex_digit(t@[k]),
        decreases t@.len() - j,
    {
        if !is_hex_digit_char(t[j]) {
            proof {
                assert(!spec_is_hex_digit(t@[j as int]));
                assert(!all_hex_digits(t@));
            }
            return Err(String::from_str("invalid hex character"));
        }
        j = j + 1;
    }
    let half = t.len() / 2;
    let mut out: Vec<u8> = Vec::new();
    let mut k: usize = 0;
    while k < half
        invariant
            0 <= k <= half,
            half == t@.len() / 2,
            2 * half <= usize::MAX,
            t@ == strip_spaces(hex@),
            t@.len() % 2 == 0,
            all_hex_digits(t@),
            out@.len() == k,
            forall|m: int| 0 <= m < k ==> out@[m] == spec_hex_bytes(t@)[m],
        decreases half - k,
    {
        let hi = hex_val_char(t[2 * k]);
        let lo = hex_val_char(t[2 * k + 1]);
        out.push(16 * hi + lo);
        k = k + 1;
    }
    proof {
        assert(out@ =~= spec_hex_bytes(t@));
    }
    Ok(out)
}

/// Encodes an outgoing payload: hex text becomes its bytes, ASCII (or
/// any) text becomes its UTF-8 bytes.
pub fn encode_send_data(data: &str, format: DataFormat) -> (r: Result<Vec<u8>, String>)
    ensures
        format == DataFormat::Hex ==> (match spec_parse_hex(data@) {
            Ok(b) => r is Ok && r->Ok_0@ == b,
            Err(e) => r is Err && r->Err_0@ == e,
        }),
        format == DataFormat::Ascii ==> r is Ok && r->Ok_0@ == data.spec_bytes(),
{
    match format {
        DataFormat::Hex => parse_hex_string(data),
        DataFormat::Ascii => Ok(data.as_bytes_vec()),
    }
}

/// An ASCII payload encodes to exactly one byte per character, each
/// byte the character itself: sending such text writes exactly as many
/// bytes as it has characters.
pub proof fn lemma_ascii_payload_bytes(data: &str)
    requires
        vstd::string::is_ascii(data),
    ensures
        data.spec_bytes().len() == data@.len(),
        forall|i: int| 0 <= i < data@.len() ==> data.spec_bytes()[i] == data@[i] as u8,
{
    vstd::string::is_ascii_spec_bytes(data);
    assert(data.spec_bytes() =~= Seq::new(data@.len(), |i: int| data@.index(i) as u8));
}

/// The hex digit pairs of a byte string, without separating spaces.
pub open spec fn hex_flat_chars(bytes: Seq<u8>) -> Seq<char>
    decreases bytes.len(),
{
    if bytes.len() == 0 {
        Seq::empty()
    } else {
        hex_pair_chars(bytes[0]) + hex_flat_chars(bytes.drop_first())
    }
}

proof fn lemma_strip_single(c: char)
    ensures
        strip_spaces(seq![c]) == (if spec_is_space(c) {
            Seq::<char>::empty()
        } else {
            seq![c]
        }),
{
    assert(seq![c].drop_first() =~= Seq::<char>::empty());
    assert(strip_spaces(Seq::<char>::empty()) == Seq::<char>::empty());
    if !spec_is_space(c) {
        assert(strip_spaces(seq![c]) =~= seq![c]);
    }
}

proof fn lemma_strip_spaces_concat(a: Seq<char>, b: Seq<char>)
    ensures
        strip_spaces(a + b) == strip_spaces(a) + strip_spaces(b),
    decreases a.len(),
{
    if a.len() == 0 {
        assert(a + b =~= b);
        assert(strip_spaces(a) + strip_spaces(b) =~= strip_spaces(b));
    } else {
        assert((a + b).drop_first() =~= a.drop_first() + b);
        lemma_strip_spaces_concat(a.drop_first(), b);
        if spec_is_space(a[0]) {
        } else {
            assert(seq![a[0]] + (strip_spaces(a.drop_first()) + strip_spaces(b)) =~= (seq![a[0]]
                + strip_spaces(a.drop_first())) + strip_spaces(b));
        }
    }
}

/// A hex digit character is a hex digit, is not whitespace, and reads
/// back as the value it was made from.
proof fn lemma_hex_digit_char_facts(d: nat)
    requires
        d < 16,
    ensures
        spec_is_hex_digit(hex_digit_char(d)),
        !spec_is_space(hex_digit_char(d)),
        spec_hex_val(hex_digit_char(d)) == d,
{
    if d < 10 {
        assert(hex_digit_char(d) as u32 == 48 + d);
    } else {
        assert(hex_digit_char(d) as u32 == 55 + d);
    }
}

proof fn lemma_strip_hex_pair(b: u8)
    ensures
        strip_spaces(hex_pair_chars(b)) == hex_pair_chars(b),
        spec_is_hex_digit(hex_pair_chars(b)[0]),
        spec_is_hex_digit(hex_pair_chars(b)[1]),
{
    lemma_hex_digit_char_facts(b as nat / 16);
    lemma_hex_digit_char_facts(b as nat % 16);
    let p = hex_pair_chars(b);
    assert(p =~= seq![hex_digit_char(b as nat / 16)] + seq![hex_digit_char(b as nat % 16)]);
    lemma_strip_spaces_concat(
        seq![hex_digit_char(b as nat / 16)],
        seq![hex_digit_char(b as nat % 16)],
    );
    lemma_strip_single(hex_digit_char(b as nat / 16));
    lemma_strip_single(hex_digit_char(b as nat % 16));
    assert(strip_spaces(p) =~= p);
}

/// Stripping whitespace from the spaced rendering leaves the flat digit
/// string.
proof fn lemma_strip_hex_spaced(bytes: Seq<u8>)
    ensures
        strip_spaces(hex_spaced_chars(bytes)) == hex_flat_chars(bytes),
    decreases bytes.len(),
{
    if bytes.len() == 0 {
    } else if bytes.len() == 1 {
        lemma_strip_hex_pair(bytes[0]);
        assert(hex_flat_chars(bytes.drop_first()) =~= Seq::<char>::empty());
        assert(hex_flat_chars(bytes) =~= hex_pair_chars(bytes[0]));
    } else {
        lemma_strip_hex_pair(bytes[0]);
        lemma_strip_hex_spaced(bytes.drop_first());
        lemma_strip_spaces_concat(hex_pair_chars(bytes[0]), seq![' ']);
        lemma_strip_spaces_concat(hex_pair_chars(bytes[0]) + seq![' '], hex_spaced_chars(
            bytes.drop_first(),
        ));
        lemma_strip_single(' ');
        assert(strip_spaces(seq![' ']) =~= Seq::<char>::empty());
        assert(strip_spaces(hex_pair_chars(bytes[0]) + seq![' ']) =~= hex_pair_chars(bytes[0]));
        assert(strip_spaces(hex_spaced_chars(bytes)) =~= hex_pair_chars(bytes[0])
            + hex_flat_chars(bytes.drop_first()));
    }
}

proof fn lemma_hex_flat_len(bytes: Seq<u8>)
    ensures
        hex_flat_chars(bytes).len() == 2 * bytes.len(),
    decreases bytes.len(),
{
    if bytes.len() > 0 {
        lemma_hex_flat_len(bytes.drop_first());
    }
}

proof fn lemma_hex_flat_index(bytes: Seq<u8>, j: int)
    requires
        0 <= j < 2 * bytes.len(),
    ensures
        hex_flat_chars(bytes)[j] == (if j % 2 == 0 {
            hex_digit_char(bytes[j / 2] as nat / 16)
        } else {
            hex_digit_char(bytes[j / 2] as nat % 16)
        }),
    decreases bytes.len(),
{
    lemma_hex_flat_len(bytes);
    lemma_hex_flat_len(bytes.drop_first());
    if j >= 2 {
        lemma_hex_flat_index(bytes.drop_first(), j - 2);
    }
}

/// Rendering bytes as spaced hex pairs and parsing the text back yields
/// exactly the original bytes: the receive rendering and the hex send
/// encoding are inverses.
pub proof fn lemma_hex_round_trip(bytes: Seq<u8>)
    ensures
        spec_parse_hex(hex_spaced_chars(bytes)) == Ok::<Seq<u8>, Seq<char>>(bytes),
{
    lemma_strip_hex_spaced(bytes);
    lemma_hex_flat_len(bytes);
    let flat = hex_flat_chars(bytes);
    assert forall|j: int| 0 <= j < flat.len() implies spec_is_hex_digit(flat[j]) by {
        lemma_hex_flat_index(bytes, j);
        lemma_hex_digit_char_facts(bytes[j / 2] as nat / 16);
        lemma_hex_digit_char_facts(bytes[j / 2] as nat % 16);
    }
    assert forall|i: int| 0 <= i < bytes.len() implies spec_hex_bytes(flat)[i] == bytes[i] by {
        lemma_hex_flat_index(bytes, 2 * i);
        lemma_hex_flat_index(bytes, 2 * i + 1);
        lemma_hex_digit_char_facts(bytes[i] as nat / 16);
        lemma_hex_digit_char_facts(bytes[i] as nat % 16);
        assert((2 * i) / 2 == i);
        assert((2 * i + 1) / 2 == i);
        assert(16 * (bytes[i] as nat / 16) + bytes[i] as nat % 16 == bytes[i]);
    }
    assert(spec_hex_bytes(flat) =~= bytes);
}

} // verus!
