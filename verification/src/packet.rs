//! Encoding and decoding of MQTT 3.1.1 control packets.
use vstd::prelude::*;
use vstd::utf8::decode_utf8;
use vstd::utf8::encode_scalar;
use vstd::utf8::encode_utf8;
use vstd::utf8::encode_utf8_decode_utf8;
use vstd::utf8::encode_utf8_valid_utf8;
use vstd::utf8::is_ascii_chars_encode_utf8;
use vstd::utf8::valid_utf8;
use vstd::string::StringSliceAdditionalSpecFns;

verus! {

/// The flags byte of a CONNECT packet's variable header.
///
/// Bit 7: username flag, bit 6: password flag, bit 5: will retain,
/// bits 4-3: will QoS, bit 2: will flag, bit 1: clean session, bit 0: reserved.
pub struct ConnectFlags {
    pub username_flag: u8,
    pub password_flag: u8,
    pub will_retain: u8,
    pub will_qos: u8,
    pub will_flag: u8,
    pub clean_session: u8,
}

/// The byte that the flags pack into, bit by bit.
pub open spec fn connect_flags_byte(
    username_flag: u8,
    password_flag: u8,
    will_retain: u8,
    will_qos: u8,
    will_flag: u8,
    clean_session: u8,
) -> u8 {
    ((username_flag << 7u8) | (password_flag << 6u8) | (will_retain << 5u8) | (will_qos << 3u8)
        | (will_flag << 2u8) | (clean_session << 1u8)) as u8
}

/// Whatever the flag values, the reserved bit 0 of the connect flags byte is
/// clear.
pub proof fn lemma_connect_flags_reserved_bit_clear(
    username_flag: u8,
    password_flag: u8,
    will_retain: u8,
    will_qos: u8,
    will_flag: u8,
    clean_session: u8,
)
    ensures
        connect_flags_byte(
            username_flag,
            password_flag,
            will_retain,
            will_qos,
            will_flag,
            clean_session,
        ) & 1u8 == 0,
{
    let (u, p, r, q, w, c) = (
        username_flag,
        password_flag,
        will_retain,
        will_qos,
        will_flag,
        clean_session,
    );
    assert(((u << 7u8) | (p << 6u8) | (r << 5u8) | (q << 3u8) | (w << 2u8) | (c << 1u8)) as u8 & 1u8
        == 0) by (bit_vector);
}

/// When each single-bit flag is 0 or 1 and the QoS level is at most 2, every
/// flag reads back from its own bit position of the connect flags byte.
pub proof fn lemma_connect_flags_read_back(
    username_flag: u8,
    password_flag: u8,
    will_retain: u8,
    will_qos: u8,
    will_flag: u8,
    clean_session: u8,
)
    requires
        username_flag <= 1,
        password_flag <= 1,
        will_retain <= 1,
        will_qos <= 2,
        will_flag <= 1,
        clean_session <= 1,
    ensures
        ({
            let b = connect_flags_byte(
                username_flag,
                password_flag,
                will_retain,
                will_qos,
                will_flag,
                clean_session,
            );
            &&& b >> 7u8 == username_flag
            &&& (b >> 6u8) & 1u8 == password_flag
            &&& (b >> 5u8) & 1u8 == will_retain
            &&& (b >> 3u8) & 3u8 == will_qos
            &&& (b >> 2u8) & 1u8 == will_flag
            &&& (b >> 1u8) & 1u8 == clean_session
        }),
{
    let (u, p, r, q, w, c) = (
        username_flag,
        password_flag,
        will_retain,
        will_qos,
        will_flag,
        clean_session,
    );
    let b: u8 = ((u << 7u8) | (p << 6u8) | (r << 5u8) | (q << 3u8) | (w << 2u8) | (c << 1u8)) as u8;
    assert(b >> 7u8 == u && (b >> 6u8) & 1u8 == p && (b >> 5u8) & 1u8 == r && (b >> 3u8) & 3u8
        == q && (b >> 2u8) & 1u8 == w && (b >> 1u8) & 1u8 == c) by (bit_vector)
        requires
            u <= 1 && p <= 1 && r <= 1 && q <= 2 && w <= 1 && c <= 1,
            b == ((u << 7u8) | (p << 6u8) | (r << 5u8) | (q << 3u8) | (w << 2u8) | (c << 1u8))
                as u8,
    ;
}

impl ConnectFlags {
    /// The byte that these flags pack into.
    pub open spec fn spec_byte(&self) -> u8 {
        connect_flags_byte(
            self.username_flag,
            self.password_flag,
            self.will_retain,
            self.will_qos,
            self.will_flag,
            self.clean_session,
        )
    }

    /// Each single-bit flag is 0 or 1 and the QoS level is at most 2.
    pub open spec fn well_formed(&self) -> bool {
        &&& self.username_flag <= 1
        &&& self.password_flag <= 1
        &&& self.will_retain <= 1
        &&& self.will_qos <= 2
        &&& self.will_flag <= 1
        &&& self.clean_session <= 1
    }

    /// Packs the flags into their byte; the reserved bit 0 is always clear.
    pub fn to_byte(&self) -> (b: u8)
        ensures
            b == self.spec_byte(),
            self.well_formed() ==> b == self.username_flag * 128 + self.password_flag * 64
                + self.will_retain * 32 + self.will_qos * 8 + self.will_flag * 4
                + self.clean_session * 2,
            b & 1u8 == 0,
            self.well_formed() ==> b >> 7u8 == self.username_flag && (b >> 6u8) & 1u8
                == self.password_flag && (b >> 5u8) & 1u8 == self.will_retain && (b >> 3u8) & 3u8
                == self.will_qos && (b >> 2u8) & 1u8 == self.will_flag && (b >> 1u8) & 1u8
                == self.clean_session,
    {
        proof {
            if self.well_formed() {
                lemma_connect_flags_read_back(
                    self.username_flag,
                    self.password_flag,
                    self.will_retain,
                    self.will_qos,
                    self.will_flag,
                    self.clean_session,
                );
            }
        }
        let u: u8 = self.username_flag;
        let p: u8 = self.password_flag;
        let r: u8 = self.will_retain;
        let q: u8 = self.will_qos;  // QoS level is 2 bits (0, 1, 2)
        let w: u8 = self.will_flag;
        let c: u8 = self.clean_session;
        let b: u8 = u << 7u8 | p << 6u8 | r << 5u8 | q << 3u8 | w << 2u8 | c << 1u8 | 0u8;  // reserved
        assert(b == ((u << 7u8) | (p << 6u8) | (r << 5u8) | (q << 3u8) | (w << 2u8) | (c << 1u8))
            as u8 && b & 1u8 == 0 && (u <= 1 && p <= 1 && r <= 1 && q <= 2 && w <= 1 && c <= 1
            ==> b == u * 128 + p * 64 + r * 32 + q * 8 + w * 4 + c * 2)) by (bit_vector)
            requires
                b == u << 7u8 | p << 6u8 | r << 5u8 | q << 3u8 | w << 2u8 | c << 1u8 | 0u8,
        ;
        b
    }
}

// ---------------------------------------------------------------------------
// Remaining Length
// ---------------------------------------------------------------------------

/// The byte that carries the lowest seven bits of `n`, with the continuation
/// bit (bit 7) set when more significant digits follow.
pub open spec fn remaining_length_digit(n: nat) -> u8 {
    if n / 128 > 0 {
        (n % 128 + 128) as u8
    } else {
        (n % 128) as u8
    }
}

/// The variable length encoding of the Remaining Length field: base-128
/// digits, least significant first, each with the continuation bit set when
/// another digit follows. Zero encodes to no bytes at all.
pub open spec fn remaining_length_bytes(n: nat) -> Seq<u8>
    decreases n,
{
    if n == 0 {
        seq![]
    } else {
        seq![remaining_length_digit(n)] + remaining_length_bytes(n / 128)
    }
}

/// The value that a Remaining Length encoding stands for: the low seven bits of
/// each byte are a base-128 digit, least significant first.
pub open spec fn remaining_length_value(bytes: Seq<u8>) -> nat
    decreases bytes.len(),
{
    if bytes.len() == 0 {
        0
    } else {
        (bytes[0] % 128) as nat + 128 * remaining_length_value(bytes.drop_first())
    }
}

/// Every byte but the last carries the continuation bit; the last does not.
pub open spec fn continuation_bits_well_formed(bytes: Seq<u8>) -> bool {
    &&& forall|i: int| 0 <= i < bytes.len() - 1 ==> #[trigger] bytes[i] >= 128
    &&& bytes.len() > 0 ==> bytes.last() < 128
}

/// Reading the encoding of `n` back gives `n`.
pub proof fn lemma_remaining_length_round_trip(n: nat)
    ensures
        remaining_length_value(remaining_length_bytes(n)) == n,
    decreases n,
{
    if n > 0 {
        lemma_remaining_length_round_trip(n / 128);
        let bytes = remaining_length_bytes(n);
        assert(bytes.drop_first() == remaining_length_bytes(n / 128));
        assert(bytes[0] % 128 == n % 128);
    }
}

/// In the encoding of any value, every byte but the last has its continuation
/// bit set, and the last has it clear.
pub proof fn lemma_remaining_length_continuation_bits(n: nat)
    ensures
        continuation_bits_well_formed(remaining_length_bytes(n)),
    decreases n,
{
    if n > 0 {
        lemma_remaining_length_continuation_bits(n / 128);
        let bytes = remaining_length_bytes(n);
        let rest = remaining_length_bytes(n / 128);
        assert(bytes == seq![remaining_length_digit(n)] + rest);
        if n / 128 == 0 {
            assert(rest.len() == 0);
        } else {
            lemma_remaining_length_size(n / 128);
            assert(bytes[0] >= 128);
            assert forall|i: int| 0 <= i < bytes.len() - 1 implies #[trigger] bytes[i] >= 128 by {
                if i > 0 {
                    assert(bytes[i] == rest[i - 1]);
                }
            }
            assert(bytes.last() == rest.last());
        }
    }
}

/// The encoding of a value has one byte per base-128 digit: a positive value
/// takes at least one byte, and at most four exactly when it is at most
/// 268,435,455.
pub proof fn lemma_remaining_length_size(n: nat)
    ensures
        n > 0 <==> remaining_length_bytes(n).len() >= 1,
        n <= 268_435_455 <==> remaining_length_bytes(n).len() <= 4,
        n <= 127 <==> remaining_length_bytes(n).len() <= 1,
        n <= 16_383 <==> remaining_length_bytes(n).len() <= 2,
        n <= 2_097_151 <==> remaining_length_bytes(n).len() <= 3,
    decreases n,
{
    if n > 0 {
        lemma_remaining_length_size(n / 128);
        assert(remaining_length_bytes(n).len() == 1 + remaining_length_bytes(n / 128).len());
    }
}

/// `128` to the power `n`: the weight of the base-128 digit at position `n`.
pub open spec fn pow128(n: nat) -> nat
    decreases n,
{
    if n == 0 {
        1
    } else {
        128 * pow128((n - 1) as nat)
    }
}

/// The number of bytes that the Remaining Length field at the start of `bytes`
/// takes, looking at no more than `max` of them: up to and including the first
/// byte without the continuation bit. `None` when no such byte comes in time.
pub open spec fn remaining_length_field_len(bytes: Seq<u8>, max: nat) -> Option<nat>
    decreases max,
{
    if max == 0 || bytes.len() == 0 {
        None
    } else if bytes[0] < 128 {
        Some(1)
    } else {
        match remaining_length_field_len(bytes.drop_first(), (max - 1) as nat) {
            Some(k) => Some(k + 1),
            None => None,
        }
    }
}

/// The Remaining Length field at the start of `bytes`, as its value and the
/// number of bytes it takes: at most four, as MQTT 3.1.1 allows.
pub open spec fn remaining_length_field(bytes: Seq<u8>) -> Option<(nat, nat)> {
    match remaining_length_field_len(bytes, 4) {
        Some(k) => Some((remaining_length_value(bytes.take(k as int)), k)),
        None => None,
    }
}

proof fn lemma_remaining_length_value_push(t: Seq<u8>, b: u8)
    ensures
        remaining_length_value(t.push(b)) == remaining_length_value(t) + (b % 128) as nat * pow128(
            t.len(),
        ),
    decreases t.len(),
{
    if t.len() == 0 {
        assert(t.push(b).drop_first() =~= Seq::<u8>::empty());
        assert(remaining_length_value(Seq::<u8>::empty()) == 0);
        assert(remaining_length_value(t.push(b)) == (b % 128) as nat);
        assert(pow128(0) == 1);
    } else {
        lemma_remaining_length_value_push(t.drop_first(), b);
        assert(t.push(b).drop_first() == t.drop_first().push(b));
        let x: nat = remaining_length_value(t.drop_first());
        let y: nat = (b % 128) as nat;
        let z: nat = pow128((t.len() - 1) as nat);
        assert(128 * (x + y * z) == 128 * x + y * (128 * z)) by (nonlinear_arith);
        assert(pow128(t.len()) == 128 * z);
        assert(t.push(b)[0] == t[0]);
        assert(remaining_length_value(t.push(b)) == (t[0] % 128) as nat + 128 * (x + y * z));
    }
}

proof fn lemma_remaining_length_field_len_bounds(bytes: Seq<u8>, max: nat)
    ensures
        remaining_length_field_len(bytes, max) matches Some(k) ==> 1 <= k <= bytes.len() && k
            <= max,
    decreases max,
{
    if max > 0 && bytes.len() > 0 && bytes[0] >= 128 {
        lemma_remaining_length_field_len_bounds(bytes.drop_first(), (max - 1) as nat);
    }
}

proof fn lemma_remaining_length_field_len_skip(bytes: Seq<u8>, i: nat)
    requires
        i < 4,
        i < bytes.len(),
        bytes[i as int] >= 128,
    ensures
        remaining_length_field_len(bytes.skip(i as int), (4 - i) as nat) == match remaining_length_field_len(
            bytes.skip((i + 1) as int),
            (4 - i - 1) as nat,
        ) {
            Some(k) => Some(k + 1),
            None => None::<nat>,
        },
{
    assert(bytes.skip(i as int).drop_first() == bytes.skip((i + 1) as int));
}

proof fn lemma_remaining_length_field_len_of_encoding(n: nat, rest: Seq<u8>, max: nat)
    requires
        n > 0,
        remaining_length_bytes(n).len() <= max,
    ensures
        remaining_length_field_len(remaining_length_bytes(n) + rest, max) == Some(
            remaining_length_bytes(n).len(),
        ),
    decreases n,
{
    let e = remaining_length_bytes(n);
    assert((e + rest)[0] == remaining_length_digit(n));
    if n / 128 > 0 {
        lemma_remaining_length_field_len_of_encoding(n / 128, rest, (max - 1) as nat);
        assert((e + rest).drop_first() == remaining_length_bytes(n / 128) + rest);
    }
}

/// The sum of the first `k` base-128 digits of `bytes`, each the low seven
/// bits of its byte, weighted by 128 to the power of its position.
pub open spec fn weighted_digit_sum(bytes: Seq<u8>, k: nat) -> nat
    decreases k,
{
    if k == 0 {
        0
    } else {
        weighted_digit_sum(bytes, (k - 1) as nat) + (bytes[k - 1] & 0x7Fu8) as nat * pow128(
            (k - 1) as nat,
        )
    }
}

/// The value of a Remaining Length encoding is the weighted sum of its digits.
pub proof fn lemma_remaining_length_value_is_weighted_sum(bytes: Seq<u8>, k: nat)
    requires
        k <= bytes.len(),
    ensures
        remaining_length_value(bytes.take(k as int)) == weighted_digit_sum(bytes, k),
    decreases k,
{
    if k == 0 {
        assert(bytes.take(0) =~= Seq::<u8>::empty());
    } else {
        lemma_remaining_length_value_is_weighted_sum(bytes, (k - 1) as nat);
        let b = bytes[k - 1];
        lemma_remaining_length_value_push(bytes.take(k - 1), b);
        assert(bytes.take(k as int) == bytes.take(k - 1).push(b));
        assert(b & 0x7Fu8 == b % 128) by (bit_vector);
    }
}

/// Reading a Remaining Length field from the encoding of a positive value of at
/// most 268,435,455, whatever bytes follow it, gives back the value and the
/// length of the encoding.
pub proof fn lemma_remaining_length_field_round_trip(n: nat, rest: Seq<u8>)
    requires
        0 < n <= 268_435_455,
    ensures
        remaining_length_field(remaining_length_bytes(n) + rest) == Some(
            (n, remaining_length_bytes(n).len()),
        ),
{
    let e = remaining_length_bytes(n);
    lemma_remaining_length_size(n);
    lemma_remaining_length_field_len_of_encoding(n, rest, 4);
    lemma_remaining_length_round_trip(n);
    assert((e + rest).take(e.len() as int) == e);
}

/// Reads the Remaining Length field at the start of `bytes`: its value and the
/// number of bytes it takes, or `None` when the field does not end within four
/// bytes or within `bytes`.
fn decode_remaining_length(bytes: &[u8]) -> (field: Option<(usize, usize)>)
    ensures
        field is None <==> remaining_length_field(bytes@) is None,
        field matches Some((value, len)) ==> remaining_length_field(bytes@) == Some(
            (value as nat, len as nat),
        ),
        field matches Some((value, len)) ==> 1 <= len <= bytes@.len() && len <= 4,
{
    proof {
        lemma_remaining_length_field_len_bounds(bytes@, 4);
    }
    let mut i: usize = 0;
    let mut value: usize = 0;
    let mut weight: usize = 1;
    assert(bytes@.skip(0) == bytes@);
    assert(bytes@.take(0) =~= Seq::<u8>::empty());
    while i < 4 && i < bytes.len()
        invariant
            i <= 4,
            i <= bytes@.len(),
            value == remaining_length_value(bytes@.take(i as int)),
            value < pow128(i as nat),
            weight == pow128(i as nat),
            remaining_length_field_len(bytes@, 4) == match remaining_length_field_len(
                bytes@.skip(i as int),
                (4 - i) as nat,
            ) {
                Some(k) => Some((k + i) as nat),
                None => None::<nat>,
            },
        decreases 4 - i,
    {
        let b: u8 = bytes[i];
        proof {
            lemma_remaining_length_value_push(bytes@.take(i as int), b);
            assert(bytes@.take(i + 1) == bytes@.take(i as int).push(b));
            assert(pow128(i as nat) <= 2097152) by {
                reveal_with_fuel(pow128, 4);
            }
            assert((b % 128) as nat * pow128(i as nat) <= 127 * pow128(i as nat)) by (nonlinear_arith)
                requires
                    b % 128 <= 127,
            ;
        }
        value = value + (b % 128) as usize * weight;
        if b < 128 {
            proof {
                assert(bytes@.skip(i as int)[0] == b);
            }
            return Some((value, i + 1));
        }
        proof {
            lemma_remaining_length_field_len_skip(bytes@, i as nat);
        }
        weight = weight * 128;
        i = i + 1;
    }
    None
}

/// The largest Remaining Length that MQTT 3.1.1 allows: four bytes of seven
/// bits each.
pub const MAX_REMAINING_LENGTH: usize = 268_435_455;

/// Encodes `n` as the Remaining Length field, of at most four bytes.
fn encode_remaining_length(n: usize) -> (bytes: Vec<u8>)
    requires
        n <= MAX_REMAINING_LENGTH,
    ensures
        bytes@ == remaining_length_bytes(n as nat),
        bytes@.len() <= 4,
{
    proof {
        lemma_remaining_length_size(n as nat);
    }
    let mut remaining: usize = n;
    let mut bytes: Vec<u8> = Vec::new();
    while remaining > 0
        invariant
            bytes@ + remaining_length_bytes(remaining as nat) == remaining_length_bytes(n as nat),
        decreases remaining,
    {
        let ghost before = bytes@;
        let ghost r = remaining as nat;
        let mut byte: u8 = (remaining % 128) as u8;
        remaining = remaining / 128;
        if remaining > 0 {
            assert(byte | 128u8 == byte + 128) by (bit_vector)
                requires
                    byte < 128,
            ;
            byte = byte | 128u8;
        }
        bytes.push(byte);
        assert(byte == remaining_length_digit(r));
        assert(remaining_length_bytes(r) == seq![byte] + remaining_length_bytes(
            remaining as nat,
        ));
        assert(bytes@ + remaining_length_bytes(remaining as nat) == before
            + remaining_length_bytes(r));
    }
    assert(bytes@ + remaining_length_bytes(0) == bytes@);
    bytes
}


// ---------------------------------------------------------------------------
// CONNECT
// ---------------------------------------------------------------------------

/// First byte of a CONNECT packet's fixed header: packet type 1, no flags.
pub const CONNECT_FIXED_HEADER: u8 = 0x10;

/// Keep Alive that the CONNECT packet announces, in seconds.
pub const CONNECT_KEEP_ALIVE_SECS: u16 = 60;

/// A length-prefixed byte string: two bytes of length, most significant first,
/// then the bytes.
pub open spec fn length_prefixed(bytes: Seq<u8>) -> Seq<u8> {
    seq![(bytes.len() / 256) as u8, (bytes.len() % 256) as u8] + bytes
}

/// The ASCII bytes of the protocol name, "MQTT".
pub open spec fn protocol_name() -> Seq<u8> {
    seq![77u8, 81u8, 84u8, 84u8]
}

/// The ASCII bytes of the client identifier, "rust".
pub open spec fn client_identifier() -> Seq<u8> {
    seq![114u8, 117u8, 115u8, 116u8]
}

/// Variable header of CONNECT: protocol name, protocol level 4 (MQTT 3.1.1),
/// the connect flags (only clean session set), and the Keep Alive, most
/// significant byte first.
pub open spec fn connect_variable_header() -> Seq<u8> {
    length_prefixed(protocol_name()) + seq![
        4u8,
        connect_flags_byte(0, 0, 0, 0, 0, 1),
        (CONNECT_KEEP_ALIVE_SECS / 256) as u8,
        (CONNECT_KEEP_ALIVE_SECS % 256) as u8,
    ]
}

/// Payload of CONNECT: the client identifier.
pub open spec fn connect_payload() -> Seq<u8> {
    length_prefixed(client_identifier())
}

/// The whole CONNECT packet: fixed header with the Remaining Length (the size of
/// the variable header and payload, which fits in one byte), then the variable
/// header and the payload.
pub open spec fn connect_packet() -> Seq<u8> {
    let rest = connect_variable_header() + connect_payload();
    seq![CONNECT_FIXED_HEADER, rest.len() as u8] + rest
}

/// Builds the CONNECT packet that opens a session with clean session set.
pub fn craft_connect_packet() -> (packet: Vec<u8>)
    ensures
        packet@ == connect_packet(),
        packet@ == connect_packet_with_credentials(None, None, CONNECT_KEEP_ALIVE_SECS),
        packet@ == seq![16u8, 16, 0, 4, 77, 81, 84, 84, 4, 2, 0, 60, 0, 4, 114, 117, 115, 116],
{
    let mut packet: Vec<u8> = Vec::new();

    // Fixed header; the Remaining Length is filled in once the rest is known.
    packet.push(CONNECT_FIXED_HEADER);
    packet.push(0x00);

    // Variable header: protocol name, level, flags, keep alive.
    packet.push(0x00);
    packet.push(0x04);
    packet.push(77);  // 'M'
    packet.push(81);  // 'Q'
    packet.push(84);  // 'T'
    packet.push(84);  // 'T'
    packet.push(0x04);
    let connect_flags = ConnectFlags {
        username_flag: 0,
        password_flag: 0,
        will_retain: 0,
        will_qos: 0,
        will_flag: 0,
        clean_session: 1,
    };
    packet.push(connect_flags.to_byte());
    packet.push((CONNECT_KEEP_ALIVE_SECS / 256) as u8);
    packet.push((CONNECT_KEEP_ALIVE_SECS % 256) as u8);

    // Payload: client identifier.
    packet.push(0x00);
    packet.push(0x04);
    packet.push(114);  // 'r'
    packet.push(117);  // 'u'
    packet.push(115);  // 's'
    packet.push(116);  // 't'

    let remaining_length: usize = packet.len() - 2;
    packet.set(1, remaining_length as u8);

    assert(connect_flags_byte(0, 0, 0, 0, 0, 1) == 2u8) by (bit_vector);
    assert(packet@ == connect_packet());
    proof {
        lemma_connect_packet_without_credentials();
    }
    packet
}

/// A length-prefixed field that is there only when set.
pub open spec fn optional_field(field: Option<Seq<u8>>) -> Seq<u8> {
    match field {
        Some(bytes) => length_prefixed(bytes),
        None => seq![],
    }
}

/// The flag that says whether an optional field is there.
pub open spec fn presence_flag<T>(field: Option<T>) -> u8 {
    if field is Some {
        1
    } else {
        0
    }
}

/// The CONNECT packet that announces the given keep alive and carries the
/// given username and password, when set: the username and password flags say
/// which are there, and they follow the client identifier in the payload.
pub open spec fn connect_packet_with_credentials(
    username: Option<Seq<u8>>,
    password: Option<Seq<u8>>,
    keep_alive: u16,
) -> Seq<u8> {
    let variable_header = length_prefixed(protocol_name()) + seq![
        4u8,
        connect_flags_byte(presence_flag(username), presence_flag(password), 0, 0, 0, 1),
        (keep_alive / 256) as u8,
        (keep_alive % 256) as u8,
    ];
    let payload = connect_payload() + optional_field(username) + optional_field(password);
    let rest = variable_header + payload;
    seq![CONNECT_FIXED_HEADER] + remaining_length_bytes(rest.len()) + rest
}

/// Without credentials, the CONNECT packet is the one `craft_connect_packet`
/// builds: its Remaining Length fits one byte.
pub proof fn lemma_connect_packet_without_credentials()
    ensures
        connect_packet_with_credentials(None, None, CONNECT_KEEP_ALIVE_SECS) == connect_packet(),
{
    let rest = connect_variable_header() + connect_payload();
    assert(rest.len() == 16);
    assert(remaining_length_bytes(16) == seq![16u8]) by {
        assert(remaining_length_bytes(0) == Seq::<u8>::empty());
    }
    assert(connect_payload() + optional_field(None) + optional_field(None) == connect_payload());
}

/// The UTF-8 encoding of an optional string.
pub open spec fn optional_utf8(field: Option<String>) -> Option<Seq<u8>> {
    match field {
        Some(s) => Some(encode_utf8(s@)),
        None => None,
    }
}

/// An optional string fits a two-byte length prefix.
pub open spec fn fits_length_prefix(field: Option<String>) -> bool {
    field matches Some(s) ==> encode_utf8(s@).len() <= 65535
}

fn push_length_prefixed(packet: &mut Vec<u8>, bytes: &[u8])
    requires
        bytes@.len() <= 65535,
    ensures
        final(packet)@ == old(packet)@ + length_prefixed(bytes@),
{
    let len: usize = bytes.len();
    packet.push((len / 256) as u8);
    packet.push((len % 256) as u8);
    packet.extend_from_slice(bytes);
}

/// Builds the CONNECT packet that opens a session with clean session set,
/// announces `keep_alive` seconds, and carries the username and the password
/// that are given. Each must fit a two-byte length.
pub fn craft_connect_packet_with_credentials(
    username: Option<String>,
    password: Option<String>,
    keep_alive: u16,
) -> (packet: Vec<u8>)
    requires
        fits_length_prefix(username),
        fits_length_prefix(password),
    ensures
        packet@ == connect_packet_with_credentials(
            optional_utf8(username),
            optional_utf8(password),
            keep_alive,
        ),
{
    let mut rest: Vec<u8> = Vec::new();
    // Variable header: protocol name, level, flags, keep alive.
    rest.push(0x00);
    rest.push(0x04);
    rest.push(77);  // 'M'
    rest.push(81);  // 'Q'
    rest.push(84);  // 'T'
    rest.push(84);  // 'T'
    rest.push(0x04);
    let connect_flags = ConnectFlags {
        username_flag: if username.is_some() { 1 } else { 0 },
        password_flag: if password.is_some() { 1 } else { 0 },
        will_retain: 0,
        will_qos: 0,
        will_flag: 0,
        clean_session: 1,
    };
    rest.push(connect_flags.to_byte());
    rest.push((keep_alive / 256) as u8);
    rest.push((keep_alive % 256) as u8);
    // Payload: client identifier, then the credentials that are set.
    rest.push(0x00);
    rest.push(0x04);
    rest.push(114);  // 'r'
    rest.push(117);  // 'u'
    rest.push(115);  // 's'
    rest.push(116);  // 't'
    let ghost before_credentials = rest@;
    match &username {
        Some(name) => push_length_prefixed(&mut rest, name.as_str().as_bytes()),
        None => {},
    }
    let ghost after_username = rest@;
    match &password {
        Some(secret) => push_length_prefixed(&mut rest, secret.as_str().as_bytes()),
        None => {},
    }
    assert(after_username == before_credentials + optional_field(optional_utf8(username)));
    assert(rest@ == before_credentials + optional_field(optional_utf8(username)) + optional_field(
        optional_utf8(password),
    ));

    let mut packet: Vec<u8> = Vec::new();
    packet.push(CONNECT_FIXED_HEADER);
    let mut encoded = encode_remaining_length(rest.len());
    packet.append(&mut encoded);
    packet.append(&mut rest);
    packet
}


// ---------------------------------------------------------------------------
// PUBLISH
// ---------------------------------------------------------------------------

/// First byte of a PUBLISH packet's fixed header: packet type 3, DUP 0, QoS 0,
/// RETAIN 0.
pub const PUBLISH_FIXED_HEADER: u8 = 0x30;

/// The ASCII bytes of the topic that `craft_publish_packet` sends to, "a/b".
pub open spec fn publish_topic() -> Seq<u8> {
    seq![97u8, 47u8, 98u8]
}

/// Variable header of an outgoing PUBLISH: the topic name, then a Packet
/// Identifier of zero.
pub open spec fn publish_variable_header(topic: Seq<u8>) -> Seq<u8> {
    length_prefixed(topic) + seq![0u8, 0u8]
}

/// The whole outgoing PUBLISH packet for the given topic and payload bytes: the
/// fixed header byte, the Remaining Length (size of variable header and
/// payload), the variable header, and the payload.
pub open spec fn publish_packet_to(topic: Seq<u8>, payload: Seq<u8>) -> Seq<u8> {
    let rest = publish_variable_header(topic) + payload;
    seq![PUBLISH_FIXED_HEADER] + remaining_length_bytes(rest.len()) + rest
}

/// The PUBLISH packet that `craft_publish_packet` builds: to the topic "a/b".
pub open spec fn publish_packet(payload: Seq<u8>) -> Seq<u8> {
    publish_packet_to(publish_topic(), payload)
}

/// The longest string that a two-byte length prefix can announce.
pub const MAX_STRING_LEN: usize = 65535;

/// A PUBLISH packet can carry this topic and payload: the topic fits a
/// two-byte length, and the variable header and payload fit the largest
/// Remaining Length.
pub open spec fn publish_fits(topic: Seq<u8>, payload: Seq<u8>) -> bool {
    &&& topic.len() <= MAX_STRING_LEN
    &&& topic.len() + payload.len() + 4 <= MAX_REMAINING_LENGTH
}

/// Every topic of at most 65,535 bytes with a payload of at most
/// 268,435,451 bytes less the topic's length fits a PUBLISH packet; a longer
/// topic, or a longer payload, does not.
pub proof fn lemma_publish_fits_limits(topic: Seq<u8>, payload: Seq<u8>)
    ensures
        publish_fits(topic, payload) <==> topic.len() <= 65535 && topic.len() + payload.len()
            <= 268_435_451,
{
}

fn publish_packet_from_bytes(topic: &[u8], payload: &[u8]) -> (packet: Vec<u8>)
    requires
        publish_fits(topic@, payload@),
    ensures
        packet@ == publish_packet_to(topic@, payload@),
{
    // Variable header and payload first: their size is the Remaining Length.
    let mut rest: Vec<u8> = Vec::new();
    let topic_len: usize = topic.len();
    rest.push((topic_len / 256) as u8);
    rest.push((topic_len % 256) as u8);
    rest.extend_from_slice(topic);
    // Packet Identifier, zero at QoS 0.
    rest.push(0x00);
    rest.push(0x00);
    rest.extend_from_slice(payload);
    assert(rest@ == publish_variable_header(topic@) + payload@);

    let mut packet: Vec<u8> = Vec::new();
    packet.push(PUBLISH_FIXED_HEADER);
    let mut encoded = encode_remaining_length(rest.len());
    packet.append(&mut encoded);
    packet.append(&mut rest);
    packet
}

/// Builds a QoS 0 PUBLISH packet to the topic "a/b" that carries the UTF-8
/// bytes of `payload`, which must leave the packet within the largest
/// Remaining Length.
pub fn craft_publish_packet(payload: String) -> (packet: Vec<u8>)
    requires
        publish_fits(publish_topic(), encode_utf8(payload@)),
    ensures
        packet@ == publish_packet(encode_utf8(payload@)),
{
    let mut topic: Vec<u8> = Vec::new();
    topic.push(97);  // 'a'
    topic.push(47);  // '/'
    topic.push(98);  // 'b'
    assert(topic@ == publish_topic());
    publish_packet_from_bytes(topic.as_slice(), payload.as_str().as_bytes())
}

/// The topic of `craft_publish_packet` is the UTF-8 encoding of "a/b", so
/// that `craft_publish_packet(payload)` builds what
/// `craft_publish_packet_to("a/b", payload)` builds.
pub proof fn lemma_publish_topic_is_a_b()
    ensures
        encode_utf8("a/b"@) == publish_topic(),
        forall|payload: Seq<u8>|
            #[trigger] publish_packet(payload) == publish_packet_to(encode_utf8("a/b"@), payload),
{
    reveal_strlit("a/b");
    let chars = "a/b"@;
    assert(chars == seq!['a', '/', 'b']);
    is_ascii_chars_encode_utf8(chars);
    assert(encode_utf8(chars) == publish_topic());
}

/// Builds a QoS 0 PUBLISH packet to `topic` that carries the UTF-8 bytes of
/// `payload`. The topic's UTF-8 encoding must fit a two-byte length, and the
/// packet must stay within the largest Remaining Length.
pub fn craft_publish_packet_to(topic: String, payload: String) -> (packet: Vec<u8>)
    requires
        publish_fits(encode_utf8(topic@), encode_utf8(payload@)),
    ensures
        packet@ == publish_packet_to(encode_utf8(topic@), encode_utf8(payload@)),
{
    publish_packet_from_bytes(topic.as_str().as_bytes(), payload.as_str().as_bytes())
}

/// Calls `std::str::from_utf8`: the bytes read as a string slice when they are
/// valid UTF-8, and `None` otherwise. Trusted: that the check is exactly
/// `valid_utf8` and that the slice holds the same bytes.
#[verifier::external_body]
fn str_from_utf8(bytes: &[u8]) -> (text: Option<&str>)
    ensures
        text is Some <==> valid_utf8(bytes@),
        text matches Some(t) ==> t.spec_bytes() == bytes@,
{
    match std::str::from_utf8(bytes) {
        Ok(text) => Some(text),
        Err(_) => None,
    }
}

/// Reads `bytes` as UTF-8 text, or `None` when they are not valid UTF-8.
fn utf8_string(bytes: &[u8]) -> (text: Option<String>)
    ensures
        text is Some <==> valid_utf8(bytes@),
        text matches Some(t) ==> t@ == decode_utf8(bytes@),
{
    match str_from_utf8(bytes) {
        Some(t) => {
            proof {
                encode_utf8_decode_utf8(t@);
            }
            Some(t.to_owned())
        },
        None => None,
    }
}

/// The QoS level of a PUBLISH packet: bits 2 and 1 of its first byte.
pub open spec fn publish_qos(first_byte: u8) -> u8 {
    (first_byte / 2) % 4
}

/// The topic name and payload bytes of an incoming PUBLISH packet: after the
/// fixed header comes the Remaining Length, then within that many bytes the
/// length-prefixed topic name, a Packet Identifier when the QoS level is above
/// zero, and the payload up to the end. `None` when `packet` is not a PUBLISH
/// packet or ends early.
pub open spec fn publish_fields(packet: Seq<u8>) -> Option<(Seq<u8>, Seq<u8>)> {
    if packet.len() == 0 || packet_type(packet[0]) != 3 {
        None
    } else {
        match remaining_length_field(packet.drop_first()) {
            None => None,
            Some((len, k)) => {
                if 1 + k + len > packet.len() {
                    None
                } else {
                    let body = packet.subrange(1 + k as int, (1 + k + len) as int);
                    let id_len: int = if publish_qos(packet[0]) > 0 {
                        2
                    } else {
                        0
                    };
                    if body.len() < 2 {
                        None
                    } else {
                        let topic_len: int = body[0] * 256 + body[1];
                        if body.len() < 2 + topic_len + id_len {
                            None
                        } else {
                            Some(
                                (
                                    body.subrange(2, 2 + topic_len),
                                    body.subrange(2 + topic_len + id_len, body.len() as int),
                                ),
                            )
                        }
                    }
                }
            },
        }
    }
}

/// The topic name and payload of an incoming PUBLISH packet as text, or `None`
/// when the packet cannot be read or either is not valid UTF-8.
pub open spec fn published_message(packet: Seq<u8>) -> Option<(Seq<char>, Seq<char>)> {
    match publish_fields(packet) {
        Some((topic, payload)) => if valid_utf8(topic) && valid_utf8(payload) {
            Some((decode_utf8(topic), decode_utf8(payload)))
        } else {
            None
        },
        None => None,
    }
}

/// Reads the topic name and the payload of an incoming PUBLISH packet.
pub fn parse_publish_packet(packet: &[u8]) -> (message: Option<(String, String)>)
    ensures
        match published_message(packet@) {
            Some((topic, payload)) => message matches Some((t, p)) && t@ == topic && p@ == payload,
            None => message is None,
        },
{
    if packet.len() == 0 {
        return None;
    }
    let first_byte: u8 = packet[0];
    assert(first_byte >> 4u8 == first_byte / 16) by (bit_vector);
    if first_byte >> 4u8 != 3 {
        return None;
    }
    let after_header = &packet[1..packet.len()];
    assert(after_header@ == packet@.drop_first());
    let (len, k) = match decode_remaining_length(after_header) {
        Some(field) => field,
        None => return None,
    };
    if len > packet.len() - 1 - k {
        return None;
    }
    let body = &packet[1 + k..1 + k + len];
    if body.len() < 2 {
        return None;
    }
    let topic_len: usize = body[0] as usize * 256 + body[1] as usize;
    assert((first_byte >> 1u8) & 3u8 == (first_byte / 2) % 4) by (bit_vector);
    let id_len: usize = if (first_byte >> 1u8) & 3u8 > 0 {
        2
    } else {
        0
    };
    if body.len() - 2 < topic_len + id_len {
        return None;
    }
    let topic_bytes = &body[2..2 + topic_len];
    let payload_bytes = &body[2 + topic_len + id_len..body.len()];
    assert(body@ == packet@.subrange(1 + k as int, (1 + k + len) as int));
    assert(packet_type(packet@[0]) == 3);
    assert(remaining_length_field(packet@.drop_first()) == Some((len as nat, k as nat)));
    assert(topic_len == body@[0] * 256 + body@[1]);
    assert(id_len == (if publish_qos(packet@[0]) > 0 { 2int } else { 0int }));
    assert(topic_bytes@ == body@.subrange(2, 2 + topic_len));
    assert(payload_bytes@ == body@.subrange(2 + topic_len + id_len, body@.len() as int));
    assert(publish_fields(packet@) == Some((topic_bytes@, payload_bytes@)));
    let topic = match utf8_string(topic_bytes) {
        Some(t) => t,
        None => return None,
    };
    let payload = match utf8_string(payload_bytes) {
        Some(p) => p,
        None => return None,
    };
    Some((topic, payload))
}

/// In a PUBLISH packet built for any topic and payload, the bytes after the
/// first form a Remaining Length field of `k` bytes: the first `k - 1` carry the
/// continuation bit, the `k`-th does not, and their weighted low seven bits sum
/// to the number of bytes that follow the field.
#[verifier::spinoff_prover]
pub proof fn lemma_publish_remaining_length(topic: Seq<u8>, payload: Seq<u8>)
    ensures
        ({
            let r = publish_packet_to(topic, payload);
            let k = remaining_length_bytes((publish_variable_header(topic) + payload).len()).len();
            &&& k >= 1
            &&& 1 + k <= r.len()
            &&& forall|i: int| 1 <= i < k ==> #[trigger] r[i] & 0x80u8 != 0
            &&& r[k as int] & 0x80u8 == 0
            &&& weighted_digit_sum(r.drop_first(), k) == r.len() - 1 - k
        }),
{
    let rest = publish_variable_header(topic) + payload;
    let e = remaining_length_bytes(rest.len());
    let r = publish_packet_to(topic, payload);
    let k = e.len();
    assert(rest.len() >= 4);
    lemma_remaining_length_size(rest.len());
    lemma_remaining_length_continuation_bits(rest.len());
    lemma_remaining_length_round_trip(rest.len());
    assert(r.drop_first() == e + rest);
    assert((e + rest).take(k as int) == e);
    lemma_remaining_length_value_is_weighted_sum(r.drop_first(), k);
    assert forall|i: int| 1 <= i < k implies #[trigger] r[i] & 0x80u8 != 0 by {
        let b = r[i];
        assert(b == e[i - 1]);
        assert(b >= 128 ==> b & 0x80u8 != 0) by (bit_vector);
    }
    let last = r[k as int];
    assert(last == e.last());
    assert(last < 128 ==> last & 0x80u8 == 0) by (bit_vector);
}

/// A PUBLISH packet built for a topic and a payload reads back as that topic,
/// and as that payload behind the two zero bytes of the Packet Identifier that
/// outgoing packets carry even at QoS 0, which an incoming QoS 0 packet does not
/// have.
pub proof fn lemma_publish_fields_round_trip(topic: Seq<u8>, payload: Seq<u8>)
    requires
        topic.len() <= 65535,
        (publish_variable_header(topic) + payload).len() <= 268_435_455,
    ensures
        publish_fields(publish_packet_to(topic, payload)) == Some((topic, seq![0u8, 0u8] + payload)),
{
    let none: Seq<u8> = seq![];
    let body = seq![0u8, 0u8] + payload;
    assert(0x30u8 >> 4u8 == 3 && (0x30u8 >> 1u8) & 3u8 == 0) by (bit_vector);
    lemma_publish_read_by_qos_bits(PUBLISH_FIXED_HEADER, topic, none, body);
    assert(seq![(topic.len() / 256) as u8, (topic.len() % 256) as u8] + topic + none + body
        == publish_variable_header(topic) + payload);
}

/// A PUBLISH packet built for a topic and a payload reads back, as text, as
/// that topic and as that payload behind two NUL characters (the zero Packet
/// Identifier of the outgoing packet).
pub proof fn lemma_publish_round_trip(topic: Seq<char>, payload: Seq<char>)
    requires
        encode_utf8(topic).len() <= 65535,
        (publish_variable_header(encode_utf8(topic)) + encode_utf8(payload)).len() <= 268_435_455,
    ensures
        published_message(publish_packet_to(encode_utf8(topic), encode_utf8(payload))) == Some(
            (topic, seq!['\0', '\0'] + payload),
        ),
{
    lemma_publish_fields_round_trip(encode_utf8(topic), encode_utf8(payload));
    let nuls = seq!['\0', '\0'] + payload;
    assert(0u32 & 0x7Fu32 == 0u32) by (bit_vector);
    assert(nuls[0] as u32 == 0);
    assert(nuls.drop_first()[0] as u32 == 0);
    assert(nuls.drop_first().drop_first() == payload);
    assert(encode_scalar(0u32) == seq![0u8]);
    let tail = nuls.drop_first();
    assert(encode_utf8(tail) == encode_scalar(tail[0] as u32) + encode_utf8(tail.drop_first()));
    assert(encode_utf8(tail) == seq![0u8] + encode_utf8(payload));
    assert(encode_utf8(nuls) == encode_scalar(nuls[0] as u32) + encode_utf8(tail));
    assert(encode_utf8(nuls) == seq![0u8, 0u8] + encode_utf8(payload));
    encode_utf8_valid_utf8(topic);
    encode_utf8_valid_utf8(nuls);
    encode_utf8_decode_utf8(topic);
    encode_utf8_decode_utf8(nuls);
}

// ---------------------------------------------------------------------------
// SUBSCRIBE
// ---------------------------------------------------------------------------

/// First byte of a SUBSCRIBE packet's fixed header: packet type 8 with the
/// reserved flags 0b0010.
pub const SUBSCRIBE_FIXED_HEADER: u8 = 0x82;

/// The Packet Identifier that SUBSCRIBE packets carry.
pub const SUBSCRIBE_PACKET_ID: u16 = 1;

/// The whole SUBSCRIBE packet for one topic filter at QoS 0: fixed header,
/// Remaining Length, the Packet Identifier, then the length-prefixed topic
/// filter and its requested QoS.
pub open spec fn subscribe_packet(topic_filter: Seq<u8>) -> Seq<u8> {
    let rest = seq![(SUBSCRIBE_PACKET_ID / 256) as u8, (SUBSCRIBE_PACKET_ID % 256) as u8]
        + length_prefixed(topic_filter) + seq![0u8];
    seq![SUBSCRIBE_FIXED_HEADER] + remaining_length_bytes(rest.len()) + rest
}

/// Builds a SUBSCRIBE packet that asks for `topic_filter` at QoS 0. The topic
/// filter's UTF-8 encoding must fit a two-byte length.
pub fn craft_subscribe_packet(topic_filter: String) -> (packet: Vec<u8>)
    requires
        encode_utf8(topic_filter@).len() <= MAX_STRING_LEN,
    ensures
        packet@ == subscribe_packet(encode_utf8(topic_filter@)),
{
    let filter = topic_filter.as_str().as_bytes();
    let filter_len: usize = filter.len();
    let mut rest: Vec<u8> = Vec::new();
    rest.push((SUBSCRIBE_PACKET_ID / 256) as u8);
    rest.push((SUBSCRIBE_PACKET_ID % 256) as u8);
    rest.push((filter_len / 256) as u8);
    rest.push((filter_len % 256) as u8);
    rest.extend_from_slice(filter);
    // Requested QoS.
    rest.push(0x00);

    let mut packet: Vec<u8> = Vec::new();
    packet.push(SUBSCRIBE_FIXED_HEADER);
    let mut encoded = encode_remaining_length(rest.len());
    packet.append(&mut encoded);
    let ghost rest_bytes = rest@;
    packet.append(&mut rest);
    assert(rest_bytes == seq![(SUBSCRIBE_PACKET_ID / 256) as u8, (SUBSCRIBE_PACKET_ID % 256) as u8]
        + length_prefixed(encode_utf8(topic_filter@)) + seq![0u8]);
    packet
}

// ---------------------------------------------------------------------------
// CONNACK, PINGRESP and other incoming packets
// ---------------------------------------------------------------------------

/// The return codes of a CONNACK packet.
#[derive(Debug, Clone, Copy, PartialEq, Eq, Structural)]
pub enum ConnackReturnCode {
    ConnectionAccepted,
    ConnectionRefusedUnacceptableProtocolVersion,
    ConnectionRefusedIdentifierRejected,
    ConnectionRefusedServerUnavailable,
    ConnectionRefusedBadUsernameOrPassword,
    ConnectionRefusedNotAuthorized,
}

impl ConnackReturnCode {
    /// The code that stands for this variant on the wire.
    pub open spec fn code(self) -> u8 {
        match self {
            ConnackReturnCode::ConnectionAccepted => 0,
            ConnackReturnCode::ConnectionRefusedUnacceptableProtocolVersion => 1,
            ConnackReturnCode::ConnectionRefusedIdentifierRejected => 2,
            ConnackReturnCode::ConnectionRefusedServerUnavailable => 3,
            ConnackReturnCode::ConnectionRefusedBadUsernameOrPassword => 4,
            ConnackReturnCode::ConnectionRefusedNotAuthorized => 5,
        }
    }

    /// The variant for a return code. Codes above 5 are not defined by MQTT
    /// 3.1.1 and are not accepted.
    pub fn from(code: u8) -> (r: ConnackReturnCode)
        requires
            code <= 5,
        ensures
            r == connack_return_code(code),
            r.code() == code,
    {
        match code {
            0 => ConnackReturnCode::ConnectionAccepted,
            1 => ConnackReturnCode::ConnectionRefusedUnacceptableProtocolVersion,
            2 => ConnackReturnCode::ConnectionRefusedIdentifierRejected,
            3 => ConnackReturnCode::ConnectionRefusedServerUnavailable,
            4 => ConnackReturnCode::ConnectionRefusedBadUsernameOrPassword,
            _ => ConnackReturnCode::ConnectionRefusedNotAuthorized,
        }
    }
}

/// The variant that a defined return code stands for.
pub open spec fn connack_return_code(code: u8) -> ConnackReturnCode {
    if code == 0 {
        ConnackReturnCode::ConnectionAccepted
    } else if code == 1 {
        ConnackReturnCode::ConnectionRefusedUnacceptableProtocolVersion
    } else if code == 2 {
        ConnackReturnCode::ConnectionRefusedIdentifierRejected
    } else if code == 3 {
        ConnackReturnCode::ConnectionRefusedServerUnavailable
    } else if code == 4 {
        ConnackReturnCode::ConnectionRefusedBadUsernameOrPassword
    } else {
        ConnackReturnCode::ConnectionRefusedNotAuthorized
    }
}

/// What a CONNACK packet says: its acknowledge flags byte (bit 0 is Session
/// Present) and its return code.
#[derive(Debug, Clone, Copy, PartialEq, Eq, Structural)]
pub struct ConnackPacket {
    pub flags: u8,
    pub return_code: ConnackReturnCode,
}

/// A CONNACK packet can be read from `packet`: it holds the two bytes of fixed
/// header and the two of variable header, and its return code is defined.
pub open spec fn connack_readable(packet: Seq<u8>) -> bool {
    packet.len() >= 4 && packet[3] <= 5
}

/// Reads the acknowledge flags (byte 2) and the return code (byte 3) of a
/// CONNACK packet.
pub fn parse_connack_packet(packet: &[u8]) -> (connack: ConnackPacket)
    requires
        connack_readable(packet@),
    ensures
        connack == (ConnackPacket {
            flags: packet@[2],
            return_code: connack_return_code(packet@[3]),
        }),
        connack.return_code.code() == packet@[3],
{
    let connack_flags: u8 = packet[2];
    let connack_return_code: u8 = packet[3];
    ConnackPacket { flags: connack_flags, return_code: ConnackReturnCode::from(connack_return_code) }
}

/// First byte of a well-formed PINGRESP packet: packet type 13, no flags.
pub const PINGRESP_FIXED_HEADER: u8 = 0xD0;

/// Checks a PINGRESP packet: returns whether its first byte is exactly the
/// PINGRESP fixed header.
pub fn parse_pingresp_packet(packet: &[u8]) -> (valid: bool)
    requires
        packet@.len() >= 1,
    ensures
        valid == (packet@[0] == PINGRESP_FIXED_HEADER),
{
    packet[0] == PINGRESP_FIXED_HEADER
}

/// The packet type: the high four bits of the first byte.
pub open spec fn packet_type(first_byte: u8) -> u8 {
    first_byte / 16
}

/// An incoming packet, as far as this client reads it.
#[derive(Debug, Clone, Copy, PartialEq, Eq, Structural)]
pub enum IncomingPacket {
    /// A CONNACK packet (type 2).
    Connack(ConnackPacket),
    /// A PINGRESP packet (type 13), with whether its fixed header is exact.
    Pingresp(bool),
    /// Any other packet type, which is not handled.
    Unsupported(u8),
}

/// The packet can be read: it is not empty, and if it is a CONNACK its fields
/// can be read.
pub open spec fn incoming_readable(packet: Seq<u8>) -> bool {
    &&& packet.len() >= 1
    &&& packet_type(packet[0]) == 2 ==> connack_readable(packet)
}

/// How an incoming packet reads: a CONNACK by its flags and return code, a
/// PINGRESP by whether its fixed header is exact, any other type by its type.
pub open spec fn incoming_packet(packet: Seq<u8>) -> IncomingPacket {
    let t = packet_type(packet[0]);
    if t == 2 {
        IncomingPacket::Connack(
            ConnackPacket { flags: packet[2], return_code: connack_return_code(packet[3]) },
        )
    } else if t == 13 {
        IncomingPacket::Pingresp(packet[0] == PINGRESP_FIXED_HEADER)
    } else {
        IncomingPacket::Unsupported(t)
    }
}

/// Reads an incoming packet according to its type.
pub fn parse_incoming_packet(packet: &[u8]) -> (incoming: IncomingPacket)
    requires
        incoming_readable(packet@),
    ensures
        incoming == incoming_packet(packet@),
{
    let first_byte: u8 = packet[0];
    let packet_type: u8 = first_byte >> 4u8;
    assert(first_byte >> 4u8 == first_byte / 16) by (bit_vector);
    match packet_type {
        2 => IncomingPacket::Connack(parse_connack_packet(packet)),
        13 => IncomingPacket::Pingresp(parse_pingresp_packet(packet)),
        _ => IncomingPacket::Unsupported(packet_type),
    }
}

// ---------------------------------------------------------------------------
// PINGREQ
// ---------------------------------------------------------------------------

/// First byte of a PINGREQ packet: packet type 12, no flags.
pub const PINGREQ_FIXED_HEADER: u8 = 0xC0;

/// Builds a PINGREQ packet: its fixed header and a zero Remaining Length.
pub fn craft_pingreq_packet() -> (packet: Vec<u8>)
    ensures
        packet@ == seq![PINGREQ_FIXED_HEADER, 0u8],
{
    let mut packet: Vec<u8> = Vec::new();
    packet.push(PINGREQ_FIXED_HEADER);
    packet.push(0x00);
    packet
}

// ---------------------------------------------------------------------------
// Laws on packet layouts
// ---------------------------------------------------------------------------

/// A packet made of a first byte, the Remaining Length of `rest`, and `rest`:
/// the field after the first byte reads back as `rest.len()` in `k` bytes, and
/// `rest` is exactly what follows it.
pub proof fn lemma_framed_packet(first: u8, rest: Seq<u8>)
    requires
        0 < rest.len() <= 268_435_455,
    ensures
        ({
            let packet = seq![first] + remaining_length_bytes(rest.len()) + rest;
            let k = remaining_length_bytes(rest.len()).len();
            &&& 1 <= k <= 4
            &&& packet.len() == 1 + k + rest.len()
            &&& packet[0] == first
            &&& remaining_length_field(packet.drop_first()) == Some((rest.len(), k))
            &&& packet.subrange(1 + k as int, packet.len() as int) == rest
        }),
{
    let e = remaining_length_bytes(rest.len());
    let packet = seq![first] + e + rest;
    lemma_remaining_length_size(rest.len());
    lemma_remaining_length_field_round_trip(rest.len(), rest);
    assert(packet.drop_first() == e + rest);
    assert(packet.subrange(1 + e.len() as int, packet.len() as int) == rest);
}

/// Whatever its DUP and RETAIN bits, an incoming PUBLISH packet (first byte
/// `b` with `b >> 4 == 3`) is read by its QoS bits `(b >> 1) & 3` alone: a
/// packet whose Remaining Length covers a length-prefixed topic, a Packet
/// Identifier exactly when the QoS is above 0, and a payload, reads back as
/// that topic and that payload.
pub proof fn lemma_publish_read_by_qos_bits(
    b: u8,
    topic: Seq<u8>,
    packet_id: Seq<u8>,
    payload: Seq<u8>,
)
    requires
        b >> 4u8 == 3,
        packet_id.len() == (if (b >> 1u8) & 3u8 > 0 { 2int } else { 0int }),
        topic.len() <= 65535,
        topic.len() + packet_id.len() + payload.len() + 2 <= 268_435_455,
    ensures
        publish_fields(
            seq![b] + remaining_length_bytes(
                (seq![(topic.len() / 256) as u8, (topic.len() % 256) as u8] + topic + packet_id
                    + payload).len(),
            ) + (seq![(topic.len() / 256) as u8, (topic.len() % 256) as u8] + topic + packet_id
                + payload),
        ) == Some((topic, payload)),
{
    let rest = seq![(topic.len() / 256) as u8, (topic.len() % 256) as u8] + topic + packet_id
        + payload;
    let packet = seq![b] + remaining_length_bytes(rest.len()) + rest;
    lemma_framed_packet(b, rest);
    let k = remaining_length_bytes(rest.len()).len();
    assert(b >> 4u8 == b / 16) by (bit_vector);
    assert((b >> 1u8) & 3u8 == (b / 2) % 4) by (bit_vector);
    assert(packet_type(packet[0]) == 3);
    let body = packet.subrange(1 + k as int, (1 + k + rest.len()) as int);
    assert(body == rest);
    assert(body[0] * 256 + body[1] == topic.len());
    assert(body.subrange(2, 2 + topic.len() as int) == topic);
    assert(body.subrange((2 + topic.len() + packet_id.len()) as int, body.len() as int) == payload);
}

/// The CONNECT packet ends with its payload's client identifier, then the
/// username and the password, each behind its own two-byte big-endian length.
pub proof fn lemma_connect_credentials_length_prefixed(
    username: Seq<u8>,
    password: Seq<u8>,
    keep_alive: u16,
)
    requires
        username.len() <= 65535,
        password.len() <= 65535,
    ensures
        ({
            let packet = connect_packet_with_credentials(Some(username), Some(password), keep_alive);
            let tail_len = 10 + username.len() + password.len();
            &&& packet.len() >= tail_len
            &&& packet.subrange(packet.len() - tail_len, packet.len() as int) == seq![
                0u8,
                4u8,
                114u8,
                117u8,
                115u8,
                116u8,
                (username.len() / 256) as u8,
                (username.len() % 256) as u8,
            ] + username + seq![(password.len() / 256) as u8, (password.len() % 256) as u8]
                + password
        }),
{
    let packet = connect_packet_with_credentials(Some(username), Some(password), keep_alive);
    let variable_header = length_prefixed(protocol_name()) + seq![
        4u8,
        connect_flags_byte(1, 1, 0, 0, 0, 1),
        (keep_alive / 256) as u8,
        (keep_alive % 256) as u8,
    ];
    let tail = connect_payload() + optional_field(Some(username)) + optional_field(Some(password));
    let rest = variable_header + tail;
    lemma_framed_packet(CONNECT_FIXED_HEADER, rest);
    let k = remaining_length_bytes(rest.len()).len();
    assert(packet == seq![CONNECT_FIXED_HEADER] + remaining_length_bytes(rest.len()) + rest);
    let tail_len = 10 + username.len() + password.len();
    assert(tail.len() == tail_len);
    assert(packet.subrange(packet.len() - tail_len, packet.len() as int) == rest.subrange(
        rest.len() - tail_len,
        rest.len() as int,
    ));
    assert(rest.subrange(rest.len() - tail_len, rest.len() as int) == tail);
    assert(tail == seq![
        0u8,
        4u8,
        114u8,
        117u8,
        115u8,
        116u8,
        (username.len() / 256) as u8,
        (username.len() % 256) as u8,
    ] + username + seq![(password.len() / 256) as u8, (password.len() % 256) as u8] + password);
}

/// A SUBSCRIBE packet has the SUBSCRIBE fixed header, a Remaining Length that
/// reads back as the number of bytes after it, and ends with the Packet
/// Identifier, the topic filter behind its own two-byte big-endian length, and
/// the requested QoS 0.
pub proof fn lemma_subscribe_filter_length_prefixed(topic_filter: Seq<u8>)
    requires
        topic_filter.len() <= 65535,
    ensures
        ({
            let packet = subscribe_packet(topic_filter);
            let tail_len = 5 + topic_filter.len();
            let k = (packet.len() - 1 - tail_len) as nat;
            &&& packet[0] == 0x82u8
            &&& 1 <= k <= 4
            &&& remaining_length_field(packet.drop_first()) == Some((tail_len as nat, k))
            &&& packet.subrange(1 + k as int, packet.len() as int) == seq![
                0u8,
                1u8,
                (topic_filter.len() / 256) as u8,
                (topic_filter.len() % 256) as u8,
            ] + topic_filter + seq![0u8]
        }),
{
    let rest = seq![(SUBSCRIBE_PACKET_ID / 256) as u8, (SUBSCRIBE_PACKET_ID % 256) as u8]
        + length_prefixed(topic_filter) + seq![0u8];
    lemma_framed_packet(SUBSCRIBE_FIXED_HEADER, rest);
    assert(rest == seq![
        0u8,
        1u8,
        (topic_filter.len() / 256) as u8,
        (topic_filter.len() % 256) as u8,
    ] + topic_filter + seq![0u8]);
}

} // verus!
