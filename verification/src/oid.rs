//! Object ids: the twenty bytes by which the repository names a commit, and
//! their forty hexadecimal digits.
//!
//! Reading and writing the digits is left to `git2`, so that an id means to
//! this library what it means to the repository; the two calls are stated
//! here and believed, not proved.

use vstd::prelude::*;
use vstd::string::StrSliceExecFns;

verus! {

/// Whether `c` is a hexadecimal digit, in either case.
pub open spec fn is_hex_digit(c: char) -> bool {
    ('0' <= c && c <= '9') || ('a' <= c && c <= 'f') || ('A' <= c && c <= 'F')
}

/// The number that the hexadecimal digit `c` stands for.
pub open spec fn hex_value(c: char) -> int {
    if '0' <= c && c <= '9' {
        c as int - '0' as int
    } else if 'a' <= c && c <= 'f' {
        c as int - 'a' as int + 10
    } else {
        c as int - 'A' as int + 10
    }
}

/// The lower-case hexadecimal digit that stands for `v`, where `v` is below
/// sixteen.
pub open spec fn hex_char(v: int) -> char {
    if v < 10 {
        ('0' as int + v) as char
    } else {
        ('a' as int + v - 10) as char
    }
}

/// Whether `s` holds hexadecimal digits only.
pub open spec fn all_hex(s: Seq<char>) -> bool {
    forall|i: int| 0 <= i < s.len() ==> is_hex_digit(#[trigger] s[i])
}

/// Whether `s` can be read as an object id: between one and forty
/// hexadecimal digits.
pub open spec fn is_hex_id(s: Seq<char>) -> bool {
    1 <= s.len() <= 40 && all_hex(s)
}

/// Whether `s` is an object id written in full: forty hexadecimal digits.
pub open spec fn is_full_hex_id(s: Seq<char>) -> bool {
    s.len() == 40 && all_hex(s)
}

/// The value of the digit of `s` at position `p`; zero behind its end.
pub open spec fn nibble(s: Seq<char>, p: int) -> int {
    if 0 <= p < s.len() {
        hex_value(s[p])
    } else {
        0
    }
}

/// The twenty bytes that the hexadecimal digits `s` denote, two digits to a
/// byte, the more significant first. A missing digit counts as zero.
pub open spec fn id_of_hex(s: Seq<char>) -> Seq<u8> {
    Seq::new(20, |i: int| (16 * nibble(s, 2 * i) + nibble(s, 2 * i + 1)) as u8)
}

/// The forty lower-case hexadecimal digits of the bytes `b`.
pub open spec fn hex_of_id(b: Seq<u8>) -> Seq<char> {
    Seq::new(
        40,
        |p: int|
            if p % 2 == 0 {
                hex_char(b[p / 2] as int / 16)
            } else {
                hex_char(b[p / 2] as int % 16)
            },
    )
}

/// The id that names a commit: twenty bytes.
#[derive(Clone, Copy, Debug, Eq, Hash, PartialOrd, Ord)]
pub struct ObjectId {
    bytes: [u8; 20],
}

impl View for ObjectId {
    type V = Seq<u8>;

    closed spec fn view(&self) -> Seq<u8> {
        self.bytes@
    }
}

impl PartialEq for ObjectId {
    fn eq(&self, other: &ObjectId) -> (r: bool) {
        let mut i: usize = 0;
        while i < 20
            invariant
                i <= 20,
                forall|j: int| 0 <= j < i ==> self.bytes@[j] == other.bytes@[j],
            decreases 20 - i,
        {
            if self.bytes[i] != other.bytes[i] {
                return false;
            }
            i += 1;
        }
        assert(self.bytes@ =~= other.bytes@);
        true
    }
}

impl vstd::std_specs::cmp::PartialEqSpecImpl for ObjectId {
    open spec fn obeys_eq_spec() -> bool {
        true
    }

    open spec fn eq_spec(&self, other: &ObjectId) -> bool {
        self@ == other@
    }
}

/// Calls `git2::Oid::from_str`, which reads up to forty hexadecimal digits
/// as an object id. It refuses the empty string, more than forty characters
/// and any character that is no hexadecimal digit; it takes digits of either
/// case, and fills the bytes from the front, a digit that is missing
/// counting as zero.
#[verifier::external_body]
fn oid_from_hex(s: &str) -> (r: Option<ObjectId>)
    ensures
        r is Some <==> is_hex_id(s@),
        r matches Some(id) ==> id@ == id_of_hex(s@),
{
    match git2::Oid::from_str(s) {
        Ok(oid) => {
            let mut bytes = [0u8; 20];
            bytes.copy_from_slice(oid.as_bytes());
            Some(ObjectId { bytes })
        },
        Err(_) => None,
    }
}

/// Calls the `Display` impl of `git2::Oid`, which writes an object id as
/// forty lower-case hexadecimal digits, two to a byte, the more significant
/// first.
#[verifier::external_body]
fn oid_to_hex(id: &ObjectId) -> (r: String)
    ensures
        r@ == hex_of_id(id@),
{
    match git2::Oid::from_bytes(&id.bytes) {
        Ok(oid) => oid.to_string(),
        Err(_) => String::new(),
    }
}

impl ObjectId {
    /// The id with the given bytes.
    pub fn from_bytes(bytes: [u8; 20]) -> (id: ObjectId)
        ensures
            id@ == bytes@,
    {
        ObjectId { bytes }
    }

    /// The bytes of the id.
    pub fn as_bytes(&self) -> (bytes: [u8; 20])
        ensures
            bytes@ == self@,
    {
        self.bytes
    }

    /// Reads an id from between one and forty hexadecimal digits; a missing
    /// digit counts as zero. Any other text is no id.
    pub fn from_hex(s: &str) -> (r: Option<ObjectId>)
        ensures
            r is Some <==> is_hex_id(s@),
            r matches Some(id) ==> id@ == id_of_hex(s@),
    {
        oid_from_hex(s)
    }

    /// Reads an id that is written in full, as forty hexadecimal digits.
    pub fn from_full_hex(s: &str) -> (r: Option<ObjectId>)
        ensures
            r is Some <==> is_full_hex_id(s@),
            r matches Some(id) ==> id@ == id_of_hex(s@),
    {
        if s.unicode_len() == 40 {
            oid_from_hex(s)
        } else {
            None
        }
    }

    /// The id as forty lower-case hexadecimal digits.
    pub fn to_string(&self) -> (r: String)
        ensures
            r@ == hex_of_id(self@),
    {
        oid_to_hex(self)
    }

    /// An id has twenty bytes.
    pub proof fn lemma_len(self)
        ensures
            self@.len() == 20,
    {
    }
}

/// The digits of an id are forty hexadecimal digits.
pub proof fn lemma_hex_of_id_is_hex(b: Seq<u8>)
    ensures
        hex_of_id(b).len() == 40,
        is_full_hex_id(hex_of_id(b)),
        is_hex_id(hex_of_id(b)),
        forall|i: int| 0 <= i < 40 ==> #[trigger] hex_of_id(b)[i] != '/',
{
    assert forall|i: int| 0 <= i < 40 implies is_hex_digit(#[trigger] hex_of_id(b)[i])
        && hex_of_id(b)[i] != '/' by {
        let v = if i % 2 == 0 {
            b[i / 2] as int / 16
        } else {
            b[i / 2] as int % 16
        };
        assert(0 <= v < 16);
        if v < 10 {
            assert(hex_char(v) as int == '0' as int + v);
        } else {
            assert(hex_char(v) as int == 'a' as int + v - 10);
        }
    }
}

/// Reading the digits of an id gives the id back.
pub proof fn lemma_id_of_hex_of_id(b: Seq<u8>)
    requires
        b.len() == 20,
    ensures
        id_of_hex(hex_of_id(b)) == b,
{
    let s = hex_of_id(b);
    assert forall|i: int| 0 <= i < 20 implies id_of_hex(s)[i] == b[i] by {
        let hi = b[i] as int / 16;
        let lo = b[i] as int % 16;
        assert(s[2 * i] == hex_char(hi));
        assert(s[2 * i + 1] == hex_char(lo));
        lemma_hex_value_of_char(hi);
        lemma_hex_value_of_char(lo);
    }
    assert(id_of_hex(s) =~= b);
}

/// A hexadecimal digit stands for the number it was made from.
pub proof fn lemma_hex_value_of_char(v: int)
    requires
        0 <= v < 16,
    ensures
        is_hex_digit(hex_char(v)),
        hex_value(hex_char(v)) == v,
{
    if v < 10 {
        assert(hex_char(v) as int == '0' as int + v);
    } else {
        assert(hex_char(v) as int == 'a' as int + v - 10);
    }
}

} // verus!
