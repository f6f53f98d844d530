//! IPv6 prefixes and the bounded prefix matcher.

use vstd::prelude::*;

verus! {

/// Length in bytes of the packed form of a prefix: address, then length.
pub const PREFIX_WIRE_LEN: usize = 17;

/// Largest meaningful prefix length.
pub const MAX_PREFIX_LEN: u8 = 128;

/// An IPv6 prefix: an address in network byte order and a length in bits.
#[derive(Clone, Copy, Debug, PartialEq, Eq)]
pub struct Ipv6Prefix {
    /// 128-bit address, big-endian.
    pub address: [u8; 16],
    /// Number of leading bits that are significant (0..=128).
    pub prefix_len: u8,
}

/// The sixteen bytes of `bytes` from `offset` on, as an address.
pub open spec fn octets_at(bytes: Seq<u8>, offset: int) -> [u8; 16] {
    [
        bytes[offset],
        bytes[offset + 1],
        bytes[offset + 2],
        bytes[offset + 3],
        bytes[offset + 4],
        bytes[offset + 5],
        bytes[offset + 6],
        bytes[offset + 7],
        bytes[offset + 8],
        bytes[offset + 9],
        bytes[offset + 10],
        bytes[offset + 11],
        bytes[offset + 12],
        bytes[offset + 13],
        bytes[offset + 14],
        bytes[offset + 15],
    ]
}

/// Copies the address that stands at `offset` out of `bytes`.
pub fn read_octets(bytes: &[u8], offset: usize) -> (octets: [u8; 16])
    requires
        offset + 16 <= bytes.len(),
    ensures
        octets == octets_at(bytes@, offset as int),
        octets@ == bytes@.subrange(offset as int, offset + 16),
{
    let mut octets = [0u8; 16];
    for k in 0usize..16
        invariant
            offset + 16 <= bytes.len(),
            forall|i: int| 0 <= i < k ==> octets[i] == bytes@[offset + i],
    {
        octets[k] = bytes[offset + k];
    }
    assert(octets =~= octets_at(bytes@, offset as int));
    assert(octets@ =~= bytes@.subrange(offset as int, offset + 16));
    octets
}

/// Bit `j` of a byte, counted from the most significant bit (`j < 8`).
pub open spec fn byte_bit(byte: u8, j: u8) -> bool {
    (byte >> (7u8 - j) as u8) & 1u8 == 1u8
}

/// Bit `i` of an address, counted from the most significant bit of the
/// first octet (`i < 128`).
pub open spec fn addr_bit(addr: [u8; 16], i: int) -> bool {
    byte_bit(addr[i / 8], (i % 8) as u8)
}

/// The first `len` bits of `a` and `b` are pairwise equal.
pub open spec fn top_bits_equal(a: [u8; 16], b: [u8; 16], len: int) -> bool {
    forall|i: int| 0 <= i < len ==> addr_bit(a, i) == addr_bit(b, i)
}

/// Two bytes are equal exactly when all eight of their bits are.
proof fn lemma_byte_eq_bits(a: u8, b: u8)
    ensures
        a == b <==> forall|j: u8| j < 8 ==> byte_bit(a, j) == byte_bit(b, j),
{
    assert(a == b <==> {
        &&& byte_bit(a, 0) == byte_bit(b, 0)
        &&& byte_bit(a, 1) == byte_bit(b, 1)
        &&& byte_bit(a, 2) == byte_bit(b, 2)
        &&& byte_bit(a, 3) == byte_bit(b, 3)
        &&& byte_bit(a, 4) == byte_bit(b, 4)
        &&& byte_bit(a, 5) == byte_bit(b, 5)
        &&& byte_bit(a, 6) == byte_bit(b, 6)
        &&& byte_bit(a, 7) == byte_bit(b, 7)
    }) by (bit_vector);
    if forall|j: u8| j < 8 ==> byte_bit(a, j) == byte_bit(b, j) {
        assert(byte_bit(a, 0) == byte_bit(b, 0));
        assert(byte_bit(a, 1) == byte_bit(b, 1));
        assert(byte_bit(a, 2) == byte_bit(b, 2));
        assert(byte_bit(a, 3) == byte_bit(b, 3));
        assert(byte_bit(a, 4) == byte_bit(b, 4));
        assert(byte_bit(a, 5) == byte_bit(b, 5));
        assert(byte_bit(a, 6) == byte_bit(b, 6));
        assert(byte_bit(a, 7) == byte_bit(b, 7));
    }
}

/// Masking two bytes with the top `r` bits set compares exactly their first
/// `r` bits.
proof fn lemma_masked_eq_bits(a: u8, b: u8, r: u8)
    requires
        1 <= r <= 7,
    ensures
        (a & (0xFFu8 << (8u8 - r) as u8)) == (b & (0xFFu8 << (8u8 - r) as u8)) <==> forall|j: u8|
            j < r ==> byte_bit(a, j) == byte_bit(b, j),
{
    let m: u8 = 0xFFu8 << (8u8 - r) as u8;
    assert((a & m) == (b & m) <==> {
        &&& 0 < r ==> byte_bit(a, 0) == byte_bit(b, 0)
        &&& 1 < r ==> byte_bit(a, 1) == byte_bit(b, 1)
        &&& 2 < r ==> byte_bit(a, 2) == byte_bit(b, 2)
        &&& 3 < r ==> byte_bit(a, 3) == byte_bit(b, 3)
        &&& 4 < r ==> byte_bit(a, 4) == byte_bit(b, 4)
        &&& 5 < r ==> byte_bit(a, 5) == byte_bit(b, 5)
        &&& 6 < r ==> byte_bit(a, 6) == byte_bit(b, 6)
    }) by (bit_vector)
        requires
            1 <= r <= 7,
            m == 0xFFu8 << (8u8 - r) as u8,
    ;
    if forall|j: u8| j < r ==> byte_bit(a, j) == byte_bit(b, j) {
        assert(0 < r ==> byte_bit(a, 0) == byte_bit(b, 0));
        assert(1 < r ==> byte_bit(a, 1) == byte_bit(b, 1));
        assert(2 < r ==> byte_bit(a, 2) == byte_bit(b, 2));
        assert(3 < r ==> byte_bit(a, 3) == byte_bit(b, 3));
        assert(4 < r ==> byte_bit(a, 4) == byte_bit(b, 4));
        assert(5 < r ==> byte_bit(a, 5) == byte_bit(b, 5));
        assert(6 < r ==> byte_bit(a, 6) == byte_bit(b, 6));
    }
}

impl Ipv6Prefix {
    /// The length is one that the matcher accepts.
    pub open spec fn wf(&self) -> bool {
        self.prefix_len <= MAX_PREFIX_LEN
    }

    /// What the matcher decides: `addr` agrees with the prefix address on
    /// its first `prefix_len` bits. Bits past the length play no part.
    pub open spec fn spec_matches(&self, addr: [u8; 16]) -> bool {
        top_bits_equal(self.address, addr, self.prefix_len as int)
    }

    /// The packed form: sixteen address bytes, then the length.
    pub open spec fn spec_wire(&self) -> Seq<u8> {
        self.address@.push(self.prefix_len)
    }

    /// A prefix from its address and length.
    pub fn new(address: [u8; 16], prefix_len: u8) -> (prefix: Self)
        ensures
            prefix.address == address,
            prefix.prefix_len == prefix_len,
    {
        Ipv6Prefix { address, prefix_len }
    }

    /// Whether the length lies in 0..=128.
    pub fn is_valid(&self) -> (valid: bool)
        ensures
            valid == self.wf(),
    {
        self.prefix_len <= MAX_PREFIX_LEN
    }

    /// Tests whether `addr` lies within this prefix.
    ///
    /// Runs a fixed sixteen-step comparison over the octets, each step
    /// guarded by the number of whole bytes in the prefix, followed by one
    /// masked comparison of the partial trailing byte. There is no early
    /// exit, so the cost does not depend on the data.
    pub fn matches(&self, addr: &[u8; 16]) -> (matched: bool)
        requires
            self.wf(),
        ensures
            matched == self.spec_matches(*addr),
    {
        let full_bytes: u8 = self.prefix_len / 8;
        let remaining_bits: u8 = self.prefix_len - full_bytes * 8;
        let ghost a = self.address;
        let ghost b = *addr;

        let mut whole_match = true;
        for k in 0usize..16
            invariant
                full_bytes as int == self.prefix_len as int / 8,
                full_bytes <= 16,
                a == self.address,
                b == *addr,
                whole_match == top_bits_equal(
                    a,
                    b,
                    8 * (if k < full_bytes as int {
                        k as int
                    } else {
                        full_bytes as int
                    }),
                ),
        {
            let guarded: bool = full_bytes as usize <= k || addr[k] == self.address[k];
            proof {
                let before: int = 8 * (if k < full_bytes as int {
                    k as int
                } else {
                    full_bytes as int
                });
                if (k as int) < full_bytes as int {
                    let after: int = 8 * (k as int + 1);
                    lemma_byte_eq_bits(a[k as int], b[k as int]);
                    if whole_match && guarded {
                        assert forall|i: int| 0 <= i < after implies addr_bit(a, i) == addr_bit(
                            b,
                            i,
                        ) by {
                            if i >= before {
                                assert(i / 8 == k as int);
                            }
                        }
                    } else if whole_match {
                        let j: u8 = choose|j: u8| j < 8 && byte_bit(a[k as int], j) != byte_bit(
                            b[k as int],
                            j,
                        );
                        let i: int = 8 * k as int + j as int;
                        assert(i / 8 == k as int && i % 8 == j as int);
                        assert(addr_bit(a, i) != addr_bit(b, i));
                        assert(!top_bits_equal(a, b, after));
                    } else {
                        assert(!top_bits_equal(a, b, after)) by {
                            if top_bits_equal(a, b, after) {
                                assert forall|i: int| 0 <= i < before implies addr_bit(a, i)
                                    == addr_bit(b, i) by {}
                            }
                        }
                    }
                }
            }
            whole_match = whole_match && guarded;
        }

        let mut remaining_match = true;
        if remaining_bits > 0 && full_bytes < 16 {
            let mask: u8 = 0xFFu8 << (8 - remaining_bits);
            let masked_prefix_byte: u8 = self.address[full_bytes as usize] & mask;
            let masked_addr_byte: u8 = addr[full_bytes as usize] & mask;
            if masked_prefix_byte != masked_addr_byte {
                remaining_match = false;
            }
            proof {
                let fb: int = full_bytes as int;
                let len: int = self.prefix_len as int;
                lemma_masked_eq_bits(a[fb], b[fb], remaining_bits);
                if whole_match && remaining_match {
                    assert forall|i: int| 0 <= i < len implies addr_bit(a, i) == addr_bit(
                        b,
                        i,
                    ) by {
                        if i >= 8 * fb {
                            assert(i / 8 == fb);
                            assert(((i % 8) as u8) < remaining_bits);
                        }
                    }
                } else if whole_match {
                    let j: u8 = choose|j: u8| j < remaining_bits && byte_bit(a[fb], j) != byte_bit(
                        b[fb],
                        j,
                    );
                    let i: int = 8 * fb + j as int;
                    assert(i / 8 == fb && i % 8 == j as int);
                    assert(addr_bit(a, i) != addr_bit(b, i));
                } else {
                    if top_bits_equal(a, b, len) {
                        assert forall|i: int| 0 <= i < 8 * fb implies addr_bit(a, i) == addr_bit(
                            b,
                            i,
                        ) by {}
                    }
                }
            }
        }
        whole_match && remaining_match
    }
}

/// A prefix of length zero matches every address.
pub proof fn lemma_zero_length_matches_all(prefix: Ipv6Prefix, addr: [u8; 16])
    requires
        prefix.prefix_len == 0,
    ensures
        prefix.spec_matches(addr),
{
}

/// A prefix of length 128 matches its own address and no other.
pub proof fn lemma_full_length_is_equality(prefix: Ipv6Prefix, addr: [u8; 16])
    requires
        prefix.prefix_len == 128,
    ensures
        prefix.spec_matches(addr) <==> addr == prefix.address,
{
    let a = prefix.address;
    if prefix.spec_matches(addr) {
        assert forall|k: int| 0 <= k < 16 implies a[k] == addr[k] by {
            lemma_byte_eq_bits(a[k], addr[k]);
            assert forall|j: u8| j < 8 implies byte_bit(a[k], j) == byte_bit(addr[k], j) by {
                let i: int = 8 * k + j as int;
                assert(i / 8 == k && i % 8 == j as int);
                assert(addr_bit(a, i) == addr_bit(addr, i));
            }
        }
        assert(a =~= addr);
    }
}

/// Bits of the stored address past the prefix length do not influence the
/// result: two prefixes of one length whose addresses agree on that many
/// leading bits match the same addresses.
pub proof fn lemma_trailing_bits_ignored(p: Ipv6Prefix, q: Ipv6Prefix, addr: [u8; 16])
    requires
        p.prefix_len == q.prefix_len,
        top_bits_equal(p.address, q.address, p.prefix_len as int),
    ensures
        p.spec_matches(addr) == q.spec_matches(addr),
{
    let len: int = p.prefix_len as int;
    if p.spec_matches(addr) {
        assert forall|i: int| 0 <= i < len implies addr_bit(q.address, i) == addr_bit(
            addr,
            i,
        ) by {
            assert(addr_bit(p.address, i) == addr_bit(q.address, i));
        }
    }
    if q.spec_matches(addr) {
        assert forall|i: int| 0 <= i < len implies addr_bit(p.address, i) == addr_bit(
            addr,
            i,
        ) by {
            assert(addr_bit(p.address, i) == addr_bit(q.address, i));
        }
    }
}

/// The prefix that a packed 17-byte record denotes.
pub open spec fn spec_unpack(bytes: [u8; 17]) -> Ipv6Prefix {
    Ipv6Prefix { address: octets_at(bytes@, 0), prefix_len: bytes[16] }
}

/// The packed 17-byte record of a prefix.
pub open spec fn spec_pack(prefix: Ipv6Prefix) -> [u8; 17] {
    [
        prefix.address[0],
        prefix.address[1],
        prefix.address[2],
        prefix.address[3],
        prefix.address[4],
        prefix.address[5],
        prefix.address[6],
        prefix.address[7],
        prefix.address[8],
        prefix.address[9],
        prefix.address[10],
        prefix.address[11],
        prefix.address[12],
        prefix.address[13],
        prefix.address[14],
        prefix.address[15],
        prefix.prefix_len,
    ]
}

impl From<[u8; 17]> for Ipv6Prefix {
    /// Unpacks a prefix: bytes 0..16 are the address, byte 16 the length.
    fn from(bytes: [u8; 17]) -> (prefix: Self) {
        let mut address = [0u8; 16];
        for k in 0usize..16
            invariant
                forall|i: int| 0 <= i < k ==> address[i] == bytes[i],
        {
            address[k] = bytes[k];
        }
        let prefix = Ipv6Prefix { address, prefix_len: bytes[16] };
        proof {
            assert(spec_unpack(bytes).address =~= prefix.address);
        }
        prefix
    }
}

impl vstd::std_specs::convert::FromSpecImpl<[u8; 17]> for Ipv6Prefix {
    open spec fn obeys_from_spec() -> bool {
        true
    }

    open spec fn from_spec(bytes: [u8; 17]) -> Self {
        spec_unpack(bytes)
    }
}

impl From<Ipv6Prefix> for [u8; 17] {
    /// Packs a prefix: the sixteen address bytes, then the length.
    fn from(prefix: Ipv6Prefix) -> (bytes: Self) {
        let mut bytes = [0u8; 17];
        for k in 0usize..16
            invariant
                forall|i: int| 0 <= i < k ==> bytes[i] == prefix.address[i],
        {
            bytes[k] = prefix.address[k];
        }
        bytes[16] = prefix.prefix_len;
        proof {
            assert(spec_pack(prefix) =~= bytes);
        }
        bytes
    }
}

impl vstd::std_specs::convert::FromSpecImpl<Ipv6Prefix> for [u8; 17] {
    open spec fn obeys_from_spec() -> bool {
        true
    }

    open spec fn from_spec(prefix: Ipv6Prefix) -> Self {
        spec_pack(prefix)
    }
}

impl From<([u8; 16], u8)> for Ipv6Prefix {
    /// A prefix from the octets of an address and a length.
    fn from(parts: ([u8; 16], u8)) -> (prefix: Self) {
        Ipv6Prefix { address: parts.0, prefix_len: parts.1 }
    }
}

impl vstd::std_specs::convert::FromSpecImpl<([u8; 16], u8)> for Ipv6Prefix {
    open spec fn obeys_from_spec() -> bool {
        true
    }

    open spec fn from_spec(parts: ([u8; 16], u8)) -> Self {
        Ipv6Prefix { address: parts.0, prefix_len: parts.1 }
    }
}

/// Packing and unpacking are inverse to each other, and the packed form is
/// the address followed by the length.
pub proof fn lemma_pack_unpack(prefix: Ipv6Prefix, bytes: [u8; 17])
    ensures
        spec_unpack(spec_pack(prefix)) == prefix,
        spec_pack(spec_unpack(bytes)) == bytes,
        spec_pack(prefix)@ == prefix.spec_wire(),
{
    assert(spec_unpack(spec_pack(prefix)).address =~= prefix.address);
    assert(spec_pack(spec_unpack(bytes)) =~= bytes);
    assert(spec_pack(prefix)@ =~= prefix.spec_wire());
}

} // verus!
