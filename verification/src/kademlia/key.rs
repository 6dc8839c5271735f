//! 160-bit node and chunk identifiers with the XOR metric.
use vstd::prelude::*;
use vstd::string::StringSliceAdditionalSpecFns;
use vstd::std_specs::cmp::PartialEqSpecImpl;
use vstd::std_specs::bits::u8_leading_zeros;
use crate::constants::K;
use crate::text::{encode_hex, hex_digit, hex_encode};

verus! {

/// The raw bytes of a key.
pub type KeyValue = [u8; K];

/// Why a key could not be built from a hexadecimal string.
#[derive(Debug, Clone, Copy, PartialEq, Eq)]
pub enum KeyError {
    /// The decoded bytes do not have the length of a key.
    InvalidHexLength(usize),
    /// The string is not valid hexadecimal.
    DecodeHexError(HexError),
    /// The string does not have twice as many bytes as a key.
    WrongHexStringLength { expected: usize, got: usize },
}

/// Why a hexadecimal string could not be decoded.
#[derive(Debug, Clone, Copy, PartialEq, Eq)]
pub enum HexError {
    /// The byte at `index` is not a hexadecimal digit.
    InvalidHexCharacter { c: char, index: usize },
    /// The string has an odd number of bytes.
    OddLength,
    /// The string does not fit the requested output length.
    InvalidStringLength,
}

/// A 160-bit identifier of a node or of a chunk.
#[derive(Debug, Clone, Copy, Eq, Hash, PartialOrd, Ord)]
pub struct Key {
    value: KeyValue,
}

impl PartialEq for Key {
    fn eq(&self, other: &Self) -> (r: bool) {
        let mut i: usize = 0;
        while i < K
            invariant
                i <= K,
                forall|j: int| 0 <= j < i ==> self.value@[j] == other.value@[j],
            decreases K - i,
        {
            if self.value[i] != other.value[i] {
                return false;
            }
            i += 1;
        }
        assert(self.value@ =~= other.value@);
        assert(self.value == other.value);
        true
    }
}

impl PartialEqSpecImpl for Key {
    open spec fn obeys_eq_spec() -> bool {
        true
    }

    open spec fn eq_spec(&self, other: &Self) -> bool {
        *self == *other
    }
}

/// A key has `K` bytes.
pub broadcast proof fn lemma_key_len(k: Key)
    ensures
        (#[trigger] k@).len() == K,
{
}

/// Keys with the same bytes are the same key.
pub proof fn lemma_key_view_injective(a: Key, b: Key)
    ensures
        a@ == b@ ==> a == b,
{
    if a@ == b@ {
        assert(a.value == b.value);
    }
}

impl View for Key {
    type V = Seq<u8>;

    closed spec fn view(&self) -> Seq<u8> {
        self.value@
    }
}

/// Bytewise XOR of two sequences of equal length.
pub open spec fn xor_seq(a: Seq<u8>, b: Seq<u8>) -> Seq<u8> {
    Seq::new(a.len(), |i: int| a[i] ^ b[i])
}

/// `a` and `b` agree before position `i` and `a` is smaller at `i`.
pub open spec fn lex_lt_at(a: Seq<u8>, b: Seq<u8>, i: int) -> bool {
    &&& 0 <= i < a.len()
    &&& i < b.len()
    &&& a[i] < b[i]
    &&& forall|j: int| 0 <= j < i ==> a[j] == b[j]
}

/// Lexicographic order on byte sequences; on distances it is the numeric order
/// of the big-endian integers they encode.
pub open spec fn lex_lt(a: Seq<u8>, b: Seq<u8>) -> bool {
    exists|i: int| #[trigger] lex_lt_at(a, b, i)
}

/// Number of leading zero bits of a big-endian byte sequence.
pub open spec fn leading_zero_bits(d: Seq<u8>) -> nat
    decreases d.len(),
{
    if d.len() == 0 {
        0
    } else if d[0] == 0 {
        8 + leading_zero_bits(d.drop_first())
    } else {
        u8_leading_zeros(d[0]) as nat
    }
}

/// The XOR distance between two keys.
pub open spec fn key_distance(a: Key, b: Key) -> Seq<u8> {
    xor_seq(a@, b@)
}

/// Key `a` is strictly closer to `target` than key `b`.
pub open spec fn closer(a: Key, b: Key, target: Key) -> bool {
    lex_lt(key_distance(a, target), key_distance(b, target))
}

/// Lexicographic order is transitive.
pub proof fn lemma_lex_lt_transitive(a: Seq<u8>, b: Seq<u8>, c: Seq<u8>)
    requires
        lex_lt(a, b),
        lex_lt(b, c),
    ensures
        lex_lt(a, c),
{
    let i = choose|i: int| lex_lt_at(a, b, i);
    let j = choose|j: int| lex_lt_at(b, c, j);
    if i <= j {
        assert(lex_lt_at(a, c, i));
    } else {
        assert(lex_lt_at(a, c, j));
    }
}

/// Lexicographic order is irreflexive and asymmetric.
pub proof fn lemma_lex_lt_asymmetric(a: Seq<u8>, b: Seq<u8>)
    ensures
        !(lex_lt(a, b) && lex_lt(b, a)),
        !lex_lt(a, a),
{
    if lex_lt(a, b) && lex_lt(b, a) {
        let i = choose|i: int| lex_lt_at(a, b, i);
        let j = choose|j: int| lex_lt_at(b, a, j);
        if i < j {
            assert(a[i] == b[i]);
        } else if j < i {
            assert(b[j] == a[j]);
        }
    }
    if lex_lt(a, a) {
        let i = choose|i: int| lex_lt_at(a, a, i);
    }
}

/// Two sequences of equal length are equal or ordered one way or the other.
pub proof fn lemma_lex_lt_total(a: Seq<u8>, b: Seq<u8>)
    requires
        a.len() == b.len(),
    ensures
        lex_lt(a, b) || lex_lt(b, a) || a == b,
{
    if a != b {
        if forall|i: int| 0 <= i < a.len() ==> a[i] == b[i] {
            assert(a =~= b);
        }
        let k = choose|i: int| 0 <= i < a.len() && a[i] != b[i];
        lemma_first_difference(a, b, k);
    }
}

proof fn lemma_first_difference(a: Seq<u8>, b: Seq<u8>, k: int)
    requires
        a.len() == b.len(),
        0 <= k < a.len(),
        a[k] != b[k],
    ensures
        lex_lt(a, b) || lex_lt(b, a),
    decreases k,
{
    if forall|j: int| 0 <= j < k ==> a[j] == b[j] {
        if a[k] < b[k] {
            assert(lex_lt_at(a, b, k));
        } else {
            assert(lex_lt_at(b, a, k));
        }
    } else {
        let j = choose|j: int| 0 <= j < k && a[j] != b[j];
        lemma_first_difference(a, b, j);
    }
}

/// XOR with a fixed key is injective: distinct keys lie at distinct distances
/// from any target.
pub proof fn lemma_distance_injective(a: Key, b: Key, target: Key)
    ensures
        key_distance(a, target) == key_distance(b, target) ==> a == b,
{
    if key_distance(a, target) == key_distance(b, target) {
        assert forall|i: int| 0 <= i < K implies a@[i] == b@[i] by {
            let x = a@[i];
            let y = b@[i];
            let t = target@[i];
            assert(key_distance(a, target)[i] == key_distance(b, target)[i]);
            assert((x ^ t) == (y ^ t) ==> x == y) by (bit_vector);
        }
        assert(a.value@ =~= b.value@);
        assert(a.value == b.value);
    }
}

/// Returns `K` random bytes from the thread-local generator of `rand`.
#[verifier::external_body]
fn random_key_value() -> (value: KeyValue) {
    let mut value: KeyValue = [0u8; K];
    rand::Rng::fill(&mut rand::rng(), &mut value);
    value
}

/// The SHA-1 digest of a byte sequence.
pub uninterp spec fn sha1_digest(data: Seq<u8>) -> Seq<u8>;

/// Calls `sha1::Sha1` (`new`, `update`, `finalize`): the result is the SHA-1 digest
/// of `data`, which is 20 bytes long.
#[verifier::external_body]
pub(crate) fn sha1_bytes(data: &[u8]) -> (digest: Vec<u8>)
    ensures
        digest@ == sha1_digest(data@),
        digest@.len() == 20,
{
    let mut hasher = <sha1::Sha1 as sha1::Digest>::new();
    sha1::Digest::update(&mut hasher, data);
    sha1::Digest::finalize(hasher).to_vec()
}

/// The value of a hexadecimal digit byte, if it is one.
pub open spec fn hex_value(b: u8) -> Option<u8> {
    if 48 <= b <= 57 {
        Some((b - 48) as u8)
    } else if 97 <= b <= 102 {
        Some((b - 87) as u8)
    } else if 65 <= b <= 70 {
        Some((b - 55) as u8)
    } else {
        None
    }
}

/// Position `i` holds the first non-hexadecimal byte of `s`.
pub open spec fn first_non_hex_at(s: Seq<u8>, i: int) -> bool {
    &&& 0 <= i < s.len()
    &&& hex_value(s[i]) is None
    &&& forall|j: int| 0 <= j < i ==> hex_value(s[j]) is Some
}

/// Decoding of a hexadecimal byte string, as `hex::decode` does it: odd lengths
/// are refused, then the first non-digit is reported, else each pair of digits
/// gives one byte.
pub open spec fn hex_decode(s: Seq<u8>) -> Result<Seq<u8>, HexError> {
    if s.len() % 2 != 0 {
        Err(HexError::OddLength)
    } else if exists|i: int| 0 <= i < s.len() && hex_value(s[i]) is None {
        let i = choose|i: int| first_non_hex_at(s, i);
        Err(HexError::InvalidHexCharacter { c: s[i] as char, index: i as usize })
    } else {
        Ok(
            Seq::new(
                s.len() / 2,
                |i: int|
                    (hex_value(s[2 * i]).unwrap() * 16 + hex_value(s[2 * i + 1]).unwrap()) as u8,
            ),
        )
    }
}

/// Calls `hex::decode`; its result is `hex_decode` of the input bytes, with the
/// error variants of `hex::FromHexError` carried over one for one.
#[verifier::external_body]
pub(crate) fn decode_hex_bytes(data: &[u8]) -> (r: Result<Vec<u8>, HexError>)
    ensures
        match r {
            Ok(v) => hex_decode(data@) == Ok::<Seq<u8>, HexError>(v@),
            Err(e) => hex_decode(data@) == Err::<Seq<u8>, HexError>(e),
        },
{
    match hex::decode(data) {
        Ok(v) => Ok(v),
        Err(hex::FromHexError::InvalidHexCharacter { c, index }) => Err(
            HexError::InvalidHexCharacter { c, index },
        ),
        Err(hex::FromHexError::OddLength) => Err(HexError::OddLength),
        Err(hex::FromHexError::InvalidStringLength) => Err(HexError::InvalidStringLength),
    }
}

/// What `Key::from_hex_str` gives for a string with UTF-8 bytes `bytes`.
pub open spec fn key_from_hex_spec(bytes: Seq<u8>) -> Result<Seq<u8>, KeyError> {
    if bytes.len() != 2 * K {
        Err(KeyError::WrongHexStringLength { expected: (2 * K) as usize, got: bytes.len() as usize })
    } else {
        match hex_decode(bytes) {
            Ok(v) => Ok(v),
            Err(e) => Err(KeyError::DecodeHexError(e)),
        }
    }
}

/// The bytes of an ASCII text.
pub open spec fn ascii_bytes(s: Seq<char>) -> Seq<u8> {
    s.map_values(|c: char| c as u8)
}

/// The XOR distance is symmetric.
pub proof fn law_distance_symmetric(a: Key, b: Key)
    ensures
        key_distance(a, b) == key_distance(b, a),
{
    lemma_key_len(a);
    lemma_key_len(b);
    assert forall|i: int| 0 <= i < K implies #[trigger] key_distance(a, b)[i] == key_distance(b, a)[i] by {
        let x = a@[i];
        let y = b@[i];
        assert(x ^ y == y ^ x) by (bit_vector);
    }
    assert(key_distance(a, b) =~= key_distance(b, a));
}

/// A key is at distance zero from itself only: its distance to itself has all
/// `8 * K` bits zero, and to any other key fewer.
pub proof fn law_distance_zero_iff_equal(a: Key, b: Key)
    ensures
        (leading_zero_bits(key_distance(a, b)) == 8 * K) <==> (a == b),
{
    lemma_key_len(a);
    lemma_key_len(b);
    if a == b {
        assert forall|i: int| 0 <= i < K implies #[trigger] key_distance(a, b)[i] == 0 by {
            let x = a@[i];
            assert(x ^ x == 0) by (bit_vector);
        }
        lemma_leading_zero_bits_all_zero(key_distance(a, b));
    } else {
        crate::routing::routing_table::lemma_leading_zero_bits_of_distinct(a, b);
    }
}

proof fn lemma_leading_zero_bits_all_zero(d: Seq<u8>)
    requires
        forall|i: int| 0 <= i < d.len() ==> d[i] == 0,
    ensures
        leading_zero_bits(d) == 8 * d.len(),
    decreases d.len(),
{
    if d.len() > 0 {
        lemma_leading_zero_bits_all_zero(d.drop_first());
    }
}

proof fn lemma_hex_digit_value(n: int)
    requires
        0 <= n < 16,
    ensures
        hex_value(hex_digit(n) as u8) == Some(n as u8),
{
}

/// Writing a key in hexadecimal and reading it back gives the key:
/// `from_hex_str` of the text `to_hex_string` gives (whose UTF-8 bytes are
/// `encode_utf8(hex_encode(k@))`) is `Ok(k)`.
pub proof fn law_key_hex_roundtrip(k: Key)
    ensures
        key_from_hex_spec(vstd::utf8::encode_utf8(hex_encode(k@))) == Ok::<Seq<u8>, KeyError>(k@),
{
    lemma_key_len(k);
    let h = hex_encode(k@);
    assert(vstd::utf8::is_ascii_chars(h)) by {
        assert forall|i: int| 0 <= i < h.len() implies '\0' <= #[trigger] h[i] <= '\u{7f}' by {
            let byte = k@[i / 2];
            assert(0 <= byte / 16 < 16 && 0 <= byte % 16 < 16);
        }
    }
    vstd::utf8::is_ascii_chars_encode_utf8(h);
    let b = ascii_bytes(h);
    assert(vstd::utf8::encode_utf8(h) =~= b);
    assert(b.len() == 2 * K);
    assert forall|i: int| 0 <= i < b.len() implies #[trigger] hex_value(b[i]) == Some(
        (if i % 2 == 0 { k@[i / 2] / 16 } else { k@[i / 2] % 16 }) as u8,
    ) by {
        let byte = k@[i / 2];
        if i % 2 == 0 {
            lemma_hex_digit_value((byte / 16) as int);
        } else {
            lemma_hex_digit_value((byte % 16) as int);
        }
    }
    assert(!(exists|i: int| 0 <= i < b.len() && hex_value(b[i]) is None)) by {
        if exists|i: int| 0 <= i < b.len() && hex_value(b[i]) is None {
            let i = choose|i: int| 0 <= i < b.len() && hex_value(b[i]) is None;
            assert(hex_value(b[i]) is Some);
        }
    }
    let decoded = Seq::new(
        b.len() / 2,
        |i: int| (hex_value(b[2 * i]).unwrap() * 16 + hex_value(b[2 * i + 1]).unwrap()) as u8,
    );
    assert forall|i: int| 0 <= i < K implies #[trigger] decoded[i] == k@[i] by {
        assert(hex_value(b[2 * i]) == Some((k@[i] / 16) as u8));
        assert(hex_value(b[2 * i + 1]) == Some((k@[i] % 16) as u8));
    }
    assert(decoded =~= k@);
}

/// A hexadecimal digit byte as `to_hex_string` writes it: uppercase letters
/// become lowercase, everything else stays.
pub open spec fn hex_lower(b: u8) -> char {
    if 65 <= b <= 70 {
        (b + 32) as char
    } else {
        b as char
    }
}

/// Reading `2 * K` hexadecimal digits (in either case) as a key and writing the
/// key back gives the same digits in lowercase: when `from_hex_str` of a text
/// with UTF-8 bytes `s` succeeds, `to_hex_string` of the key is `s` lowercased.
pub proof fn law_hex_text_roundtrip(s: Seq<u8>)
    requires
        key_from_hex_spec(s) is Ok,
    ensures
        key_from_hex_spec(s) matches Ok(v) && hex_encode(v) == s.map_values(|b: u8| hex_lower(b)),
{
    let v = key_from_hex_spec(s)->Ok_0;
    assert(s.len() == 2 * K);
    assert(!(exists|i: int| 0 <= i < s.len() && hex_value(s[i]) is None));
    assert forall|i: int| 0 <= i < s.len() implies #[trigger] hex_value(s[i]) is Some by {
        assert(!(0 <= i < s.len() && hex_value(s[i]) is None));
    }
    let h = hex_encode(v);
    let l = s.map_values(|b: u8| hex_lower(b));
    assert forall|i: int| 0 <= i < h.len() implies #[trigger] h[i] == l[i] by {
        let j = i / 2;
        let hi = hex_value(s[2 * j]).unwrap();
        let lo = hex_value(s[2 * j + 1]).unwrap();
        assert(hex_value(s[2 * j]) is Some);
        assert(hex_value(s[2 * j + 1]) is Some);
        assert(v[j] == (hi * 16 + lo) as u8);
        assert(v[j] / 16 == hi && v[j] % 16 == lo);
        let c = s[i];
        assert(hex_value(c) is Some);
        if i % 2 == 0 {
            assert(c == s[2 * j]);
        } else {
            assert(c == s[2 * j + 1]);
        }
    }
    assert(h =~= l);
}

impl Key {
    /// A key drawn from the thread-local random generator.
    pub fn new_random() -> (key: Key) {
        Key { value: random_key_value() }
    }

    /// The key with exactly the given bytes.
    pub fn from_bytes(bytes: KeyValue) -> (key: Key)
        ensures
            key@ == bytes@,
    {
        Key { value: bytes }
    }

    /// Parses a key from a hexadecimal string of `2 * K` bytes.
    pub fn from_hex_str(hex_str: &str) -> (r: Result<Key, KeyError>)
        ensures
            match r {
                Ok(key) => key_from_hex_spec(hex_str.spec_bytes()) == Ok::<Seq<u8>, KeyError>(key@),
                Err(e) => key_from_hex_spec(hex_str.spec_bytes()) == Err::<Seq<u8>, KeyError>(e),
            },
    {
        let bytes = hex_str.as_bytes();
        let n: usize = bytes.len();
        if n != K * 2 {
            return Err(KeyError::WrongHexStringLength { expected: K * 2, got: n });
        }
        match decode_hex_bytes(bytes) {
            Ok(decoded) => {
                proof {
                    let bytes = hex_str.spec_bytes();
                    assert(bytes.len() == 2 * K);
                    assert(!(exists|i: int| 0 <= i < bytes.len() && hex_value(bytes[i]) is None));
                    assert(decoded@.len() == K);
                }
                if decoded.len() != K {
                    return Err(KeyError::InvalidHexLength(decoded.len()));
                }
                let mut value: KeyValue = [0u8; K];
                for i in 0..K
                    invariant
                        decoded@.len() == K,
                        forall|j: int| 0 <= j < i ==> value@[j] == decoded@[j],
                {
                    value[i] = decoded[i];
                }
                assert(value@ =~= decoded@);
                Ok(Key { value })
            },
            Err(e) => Err(KeyError::DecodeHexError(e)),
        }
    }

    /// The key made of the first `K` bytes of the SHA-1 digest of `input`.
    pub fn from_input(input: &[u8]) -> (key: Key)
        ensures
            key@ == sha1_digest(input@).take(K as int),
    {
        let digest = sha1_bytes(input);
        let mut value: KeyValue = [0u8; K];
        for i in 0..K
            invariant
                digest@.len() == 20,
                forall|j: int| 0 <= j < i ==> value@[j] == digest@[j],
        {
            value[i] = digest[i];
        }
        assert(value@ =~= digest@.take(K as int));
        Key { value }
    }

    /// The key as a lowercase hexadecimal string of `2 * K` characters.
    pub fn to_hex_string(&self) -> (s: String)
        ensures
            s@ == hex_encode(self@),
    {
        encode_hex(self.value.as_slice())
    }

    /// The XOR distance between `self` and `other`, bytewise.
    pub fn distance(&self, other: &Key) -> (d: KeyValue)
        ensures
            d@ == key_distance(*self, *other),
    {
        let mut d: KeyValue = [0u8; K];
        for i in 0..K
            invariant
                forall|j: int| 0 <= j < i ==> d@[j] == self@[j] ^ other@[j],
        {
            d[i] = self.value[i] ^ other.value[i];
        }
        assert(d@ =~= key_distance(*self, *other));
        d
    }

    /// The number of leading zero bits of the XOR distance to `other`.
    pub fn leading_zeros(&self, other: &Key) -> (n: usize)
        ensures
            n == leading_zero_bits(key_distance(*self, *other)),
            n <= 8 * K,
    {
        let d = self.distance(other);
        let mut count: usize = 0;
        let mut i: usize = 0;
        assert(d@.skip(0) =~= d@);
        while i < K
            invariant
                i <= K,
                d@ == key_distance(*self, *other),
                count == 8 * i,
                forall|j: int| 0 <= j < i ==> d@[j] == 0,
                leading_zero_bits(d@) == count + leading_zero_bits(d@.skip(i as int)),
            decreases K - i,
        {
            let byte = d[i];
            proof {
                let rest = d@.skip(i as int);
                assert(rest[0] == byte);
                assert(rest.drop_first() =~= d@.skip(i + 1));
                vstd::std_specs::bits::axiom_u8_leading_zeros(byte);
            }
            if byte == 0 {
                count += 8;
                i += 1;
            } else {
                let lz = byte.leading_zeros();
                proof {
                    assert(leading_zero_bits(d@.skip(i as int)) == u8_leading_zeros(byte) as nat);
                    lemma_leading_zero_bits_bound(d@.skip(i as int));
                }
                return count + lz as usize;
            }
        }
        assert(d@.skip(K as int).len() == 0);
        count
    }

    /// The bytes of the key.
    pub fn to_bytes(&self) -> (v: Vec<u8>)
        ensures
            v@ == self@,
    {
        let mut v: Vec<u8> = Vec::with_capacity(K);
        for i in 0..K
            invariant
                v@ == self@.take(i as int),
        {
            v.push(self.value[i]);
            assert(v@ =~= self@.take(i + 1));
        }
        assert(self@.take(K as int) =~= self@);
        v
    }

    /// Whether `self` is strictly closer than `other` to `target` in the XOR metric.
    pub fn is_closer(&self, other: &Key, target: &Key) -> (b: bool)
        ensures
            b == closer(*self, *other, *target),
    {
        let da = self.distance(target);
        let db = other.distance(target);
        let mut i: usize = 0;
        while i < K
            invariant
                i <= K,
                da@ == key_distance(*self, *target),
                db@ == key_distance(*other, *target),
                forall|j: int| 0 <= j < i ==> da@[j] == db@[j],
            decreases K - i,
        {
            if da[i] != db[i] {
                if da[i] < db[i] {
                    assert(lex_lt_at(da@, db@, i as int));
                    return true;
                } else {
                    proof {
                        if lex_lt(da@, db@) {
                            let k = choose|k: int| lex_lt_at(da@, db@, k);
                            assert(k >= i);
                            if k > i {
                                assert(da@[i as int] == db@[i as int]);
                            }
                        }
                    }
                    return false;
                }
            }
            i += 1;
        }
        proof {
            if lex_lt(da@, db@) {
                let k = choose|k: int| lex_lt_at(da@, db@, k);
                assert(da@[k] == db@[k]);
            }
        }
        false
    }
}

proof fn lemma_leading_zero_bits_bound(d: Seq<u8>)
    ensures
        leading_zero_bits(d) <= 8 * d.len(),
    decreases d.len(),
{
    if d.len() > 0 {
        vstd::std_specs::bits::axiom_u8_leading_zeros(d[0]);
        lemma_leading_zero_bits_bound(d.drop_first());
    }
}

} // verus!
