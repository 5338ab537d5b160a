//! DID identities: fixed-length account identifiers and their `did:ethr`
//! string form, `did:ethr:<sub-method>:0x<40 lowercase hex digits>`.
use vstd::prelude::*;

use crate::errors::DlrError;
use crate::strutil::{append_u64_hex, exec_hex_digit, hex_digit_char, push_char, spec_u64_to_hex};

verus! {

/// Number of bytes in a DID identity (an account address).
pub const IDENTITY_BYTE_SIZE: usize = 20;

/// A fixed-length binary account identifier, the owner of a DID.
#[derive(Debug, Clone, PartialEq, Eq)]
pub struct DidIdentity {
    bytes: Vec<u8>,
}

impl View for DidIdentity {
    type V = Seq<u8>;

    closed spec fn view(&self) -> Seq<u8> {
        self.bytes@
    }
}

impl DidIdentity {
    /// A well-formed identity holds exactly the fixed number of bytes.
    pub open spec fn wf(&self) -> bool {
        self@.len() == IDENTITY_BYTE_SIZE
    }

    /// Wraps a byte vector as an identity; rejects any other length.
    pub fn from_bytes(bytes: Vec<u8>) -> (r: Option<DidIdentity>)
        ensures
            match r {
                Some(id) => id.wf() && id@ == bytes@,
                None => bytes@.len() != IDENTITY_BYTE_SIZE,
            },
    {
        if bytes.len() == IDENTITY_BYTE_SIZE {
            Some(DidIdentity { bytes })
        } else {
            None
        }
    }

    /// The identity's bytes.
    pub fn as_bytes(&self) -> (r: &Vec<u8>)
        ensures
            r@ == self@,
    {
        &self.bytes
    }
}

/// The numeric value of a hexadecimal digit character, upper or lower case.
pub open spec fn hex_char_value(c: char) -> Option<u8> {
    if '0' <= c && c <= '9' {
        Some((c as u8 - 48) as u8)
    } else if 'a' <= c && c <= 'f' {
        Some((c as u8 - 87) as u8)
    } else if 'A' <= c && c <= 'F' {
        Some((c as u8 - 55) as u8)
    } else {
        None
    }
}

/// The lowercase hexadecimal rendering of a byte string, two digits per byte.
pub open spec fn spec_hex_of_bytes(b: Seq<u8>) -> Seq<char> {
    Seq::new(b.len() * 2, |i: int| if i % 2 == 0 {
        hex_digit_char(b[i / 2] / 16)
    } else {
        hex_digit_char(b[i / 2] % 16)
    })
}

/// A string with its `0x` prefix, if any, taken off.
pub open spec fn strip_hex_prefix(s: Seq<char>) -> Seq<char> {
    if s.len() >= 2 && s[0] == '0' && s[1] == 'x' {
        s.skip(2)
    } else {
        s
    }
}

/// Every character of the string is a hexadecimal digit.
pub open spec fn all_hex_digits(t: Seq<char>) -> bool {
    forall|i: int| 0 <= i < t.len() ==> hex_char_value(#[trigger] t[i]).is_some()
}

/// The bytes encoded by a string of hexadecimal digits, two digits per byte.
pub open spec fn hex_bytes_of(t: Seq<char>) -> Seq<u8>
    recommends
        t.len() % 2 == 0,
        all_hex_digits(t),
{
    Seq::new(
        (t.len() / 2) as nat,
        |i: int| (hex_char_value(t[2 * i]).unwrap() * 16 + hex_char_value(
            t[2 * i + 1],
        ).unwrap()) as u8,
    )
}

/// Reads a string of hexadecimal digits, with an optional `0x` prefix, as the
/// bytes of an identity; any other shape gives `None`.
pub open spec fn spec_parse_hex_identity(s: Seq<char>) -> Option<Seq<u8>> {
    let t = strip_hex_prefix(s);
    if t.len() == 2 * IDENTITY_BYTE_SIZE && all_hex_digits(t) {
        Some(hex_bytes_of(t))
    } else {
        None
    }
}

/// What stands after the last `:` of a string (the whole string if it has
/// no `:`).
pub open spec fn after_last_colon(s: Seq<char>) -> Seq<char>
    decreases s.len(),
{
    if s.len() == 0 {
        Seq::empty()
    } else if s[s.len() - 1] == ':' {
        Seq::empty()
    } else {
        after_last_colon(s.drop_last()).push(s[s.len() - 1])
    }
}

/// The identity encoded in a DID string: its last `:`-delimited segment, read
/// as hexadecimal identity bytes.
pub open spec fn spec_parse_identity(did: Seq<char>) -> Option<Seq<u8>> {
    spec_parse_hex_identity(after_last_colon(did))
}

/// The full DID string of an identity under a sub-method:
/// `did:ethr:<sub-method>:0x<hex identity>`.
pub open spec fn spec_full_did(id: Seq<u8>, sub_method: Seq<char>) -> Seq<char> {
    "did:ethr:"@ + sub_method + ":0x"@ + spec_hex_of_bytes(id)
}

fn hex_value_of_char(c: char) -> (r: Option<u8>)
    ensures
        r == hex_char_value(c),
{
    if '0' <= c && c <= '9' {
        Some(c as u8 - 48)
    } else if 'a' <= c && c <= 'f' {
        Some(c as u8 - 87)
    } else if 'A' <= c && c <= 'F' {
        Some(c as u8 - 55)
    } else {
        None
    }
}

/// Appends the lowercase hexadecimal rendering of `bytes` to `out`.
fn append_hex_of_bytes(out: &mut String, bytes: &Vec<u8>)
    ensures
        final(out)@ == old(out)@ + spec_hex_of_bytes(bytes@),
{
    let mut i: usize = 0;
    while i < bytes.len()
        invariant
            i <= bytes@.len(),
            out@ == old(out)@ + spec_hex_of_bytes(bytes@.take(i as int)),
        decreases bytes@.len() - i,
    {
        let b = bytes[i];
        push_char(out, exec_hex_digit(b / 16));
        push_char(out, exec_hex_digit(b % 16));
        proof {
            assert(out@ =~= old(out)@ + spec_hex_of_bytes(bytes@.take(i + 1)));
        }
        i = i + 1;
    }
    proof {
        assert(bytes@.take(bytes@.len() as int) =~= bytes@);
    }
}

/// Appends the lowercase hexadecimal rendering of an identity to `out`.
pub(crate) fn append_identity_hex(out: &mut String, id: &DidIdentity)
    ensures
        final(out)@ == old(out)@ + spec_hex_of_bytes(id@),
{
    append_hex_of_bytes(out, &id.bytes);
}

/// Builds the full DID string for an identity under the given sub-method
/// name.
pub fn did_identity_as_full_did(identity: &DidIdentity, sub_method: &str) -> (r: String)
    ensures
        r@ == spec_full_did(identity@, sub_method@),
{
    let mut out = String::from_str("did:ethr:");
    out.append(sub_method);
    out.append(":0x");
    append_hex_of_bytes(&mut out, &identity.bytes);
    proof {
        assert(out@ =~= spec_full_did(identity@, sub_method@));
    }
    out
}

/// Reads the identity out of a DID string: the last `:`-delimited segment
/// must be the hexadecimal form of an identity, with an optional `0x` prefix.
pub fn full_did_into_did_identity(did: &str) -> (r: Result<DidIdentity, DlrError>)
    ensures
        match r {
            Ok(id) => id.wf() && spec_parse_identity(did@) == Some(id@),
            Err(e) => e == DlrError::ParseError && spec_parse_identity(did@) is None,
        },
{
    let n = did.unicode_len();
    proof {
        assert(did@.take(n as int) =~= did@);
        assert(did@.skip(n as int) =~= Seq::<char>::empty());
        assert(after_last_colon(did@.take(n as int)) + did@.skip(n as int) =~= after_last_colon(
            did@,
        ));
    }
    // find the start of the last `:`-delimited segment
    let mut start: usize = n;
    while start > 0 && did.get_char(start - 1) != ':'
        invariant
            start <= n,
            n == did@.len(),
            after_last_colon(did@) == after_last_colon(did@.take(start as int)) + did@.skip(
                start as int,
            ),
        decreases start,
    {
        proof {
            assert(did@.take(start as int).drop_last() =~= did@.take(start - 1));
            assert(after_last_colon(did@.take(start - 1)) + did@.skip(start - 1) =~= (
            after_last_colon(did@.take(start as int).drop_last()).push(did@[start - 1]) + did@.skip(
                start as int,
            )));
        }
        start = start - 1;
    }
    proof {
        if start > 0 {
            assert(did@.take(start as int)[start - 1] == ':');
            assert(after_last_colon(did@.take(start as int)) =~= Seq::<char>::empty());
        } else {
            assert(did@.take(0) =~= Seq::<char>::empty());
        }
        assert(after_last_colon(did@) =~= did@.skip(start as int));
    }
    parse_hex_identity_segment(did, start)
}

/// Reads `did[start..]` as hexadecimal identity bytes, with an optional `0x`
/// prefix.
fn parse_hex_identity_segment(did: &str, start: usize) -> (r: Result<DidIdentity, DlrError>)
    requires
        start <= did@.len(),
    ensures
        match r {
            Ok(id) => id.wf() && spec_parse_hex_identity(did@.skip(start as int)) == Some(id@),
            Err(e) => e == DlrError::ParseError && spec_parse_hex_identity(
                did@.skip(start as int),
            ) is None,
        },
{
    let ghost seg = did@.skip(start as int);
    let n = did.unicode_len();
    let hex_start: usize = if n - start >= 2 && did.get_char(start) == '0' && did.get_char(
        start + 1,
    ) == 'x' {
        start + 2
    } else {
        start
    };
    let ghost t = did@.skip(hex_start as int);
    proof {
        assert(t =~= strip_hex_prefix(seg));
    }
    if n - hex_start != 2 * IDENTITY_BYTE_SIZE {
        return Err(DlrError::ParseError);
    }
    let mut bytes: Vec<u8> = Vec::new();
    let mut i: usize = 0;
    while i < IDENTITY_BYTE_SIZE
        invariant
            i <= IDENTITY_BYTE_SIZE,
            bytes@.len() == i,
            n == did@.len(),
            hex_start + 2 * IDENTITY_BYTE_SIZE == n,
            t == did@.skip(hex_start as int),
            seg == did@.skip(start as int),
            t == strip_hex_prefix(seg),
            t.len() == 2 * IDENTITY_BYTE_SIZE,
            forall|j: int|
                0 <= j < 2 * i ==> hex_char_value(#[trigger] t[j]).is_some(),
            forall|j: int|
                0 <= j < i ==> #[trigger] bytes@[j] == (hex_char_value(t[2 * j]).unwrap() * 16
                    + hex_char_value(t[2 * j + 1]).unwrap()) as u8,
        decreases IDENTITY_BYTE_SIZE - i,
    {
        let hi = match hex_value_of_char(did.get_char(hex_start + 2 * i)) {
            Some(v) => v,
            None => {
                proof {
                    assert(hex_char_value(t[2 * i as int]) is None);
                    assert(!all_hex_digits(t));
                }
                return Err(DlrError::ParseError);
            },
        };
        let lo = match hex_value_of_char(did.get_char(hex_start + 2 * i + 1)) {
            Some(v) => v,
            None => {
                proof {
                    assert(hex_char_value(t[2 * i as int + 1]) is None);
                    assert(!all_hex_digits(t));
                }
                return Err(DlrError::ParseError);
            },
        };
        assert(hi < 16 && lo < 16);
        bytes.push(hi * 16 + lo);
        i = i + 1;
    }
    let id = DidIdentity { bytes };
    proof {
        assert(id@ =~= hex_bytes_of(t));
    }
    Ok(id)
}

/// `after_last_colon` ignores everything up to and including a final colon
/// when the tail holds no colon of its own.
proof fn lemma_after_last_colon_append(prefix: Seq<char>, tail: Seq<char>)
    requires
        forall|i: int| 0 <= i < tail.len() ==> #[trigger] tail[i] != ':',
    ensures
        after_last_colon(prefix + seq![':'] + tail) == tail,
    decreases tail.len(),
{
    if tail.len() == 0 {
        assert((prefix + seq![':'] + tail).last() == ':');
        assert(after_last_colon(prefix + seq![':'] + tail) =~= tail);
    } else {
        let whole = prefix + seq![':'] + tail;
        assert(whole.last() == tail.last());
        assert(whole.drop_last() =~= prefix + seq![':'] + tail.drop_last());
        lemma_after_last_colon_append(prefix, tail.drop_last());
        assert(after_last_colon(whole) =~= tail.drop_last().push(tail.last()));
        assert(tail.drop_last().push(tail.last()) =~= tail);
    }
}

/// Round trip: the identity read back from a full DID string is the identity
/// it was built from, whatever the sub-method.
pub proof fn lemma_identity_did_round_trip(identity: DidIdentity, sub_method: Seq<char>)
    requires
        identity.wf(),
    ensures
        spec_parse_identity(spec_full_did(identity@, sub_method)) == Some(identity@),
{
    let hex = spec_hex_of_bytes(identity@);
    assert forall|i: int| 0 <= i < hex.len() implies #[trigger] hex[i] != ':' by {
        let v = if i % 2 == 0 {
            identity@[i / 2] / 16
        } else {
            identity@[i / 2] % 16
        };
        assert(v < 16);
        assert(hex_digit_char(v) as u32 != ':' as u32);
    }
    let prefix = "did:ethr:"@ + sub_method + ":0x"@;
    reveal_strlit("did:ethr:");
    reveal_strlit(":0x");
    let hexed = seq!['0', 'x'] + hex;
    assert(spec_full_did(identity@, sub_method) =~= ("did:ethr:"@ + sub_method) + seq![':']
        + hexed);
    lemma_after_last_colon_append_hex(("did:ethr:"@ + sub_method), hex);
    assert(after_last_colon(spec_full_did(identity@, sub_method)) == hexed);
    assert(hexed.len() >= 2 && hexed[0] == '0' && hexed[1] == 'x');
    assert(strip_hex_prefix(hexed) =~= hex);
    assert(hex.len() == 2 * IDENTITY_BYTE_SIZE);
    assert forall|i: int| 0 <= i < hex.len() implies hex_char_value(#[trigger] hex[i]).is_some() by {
        lemma_hex_digit_value(if i % 2 == 0 {
            identity@[i / 2] / 16
        } else {
            identity@[i / 2] % 16
        });
    }
    let back = spec_parse_hex_identity(hexed).unwrap();
    assert forall|i: int| 0 <= i < IDENTITY_BYTE_SIZE implies #[trigger] back[i] == identity@[i] by {
        lemma_hex_digit_value(identity@[i] / 16);
        lemma_hex_digit_value(identity@[i] % 16);
        assert(hex[2 * i] == hex_digit_char(identity@[i] / 16));
        assert(hex[2 * i + 1] == hex_digit_char(identity@[i] % 16));
        assert(identity@[i] / 16 * 16 + identity@[i] % 16 == identity@[i]) by (nonlinear_arith);
    }
    assert(back =~= identity@);
}

/// A colon-free tail after `0x`-prefixed hex: helper shape used by the round
/// trip, where the tail is `0x` plus hex digits.
proof fn lemma_after_last_colon_append_hex(prefix: Seq<char>, hex: Seq<char>)
    requires
        forall|i: int| 0 <= i < hex.len() ==> #[trigger] hex[i] != ':',
    ensures
        after_last_colon(prefix + seq![':'] + (seq!['0', 'x'] + hex)) == seq!['0', 'x'] + hex,
{
    let tail = seq!['0', 'x'] + hex;
    assert forall|i: int| 0 <= i < tail.len() implies #[trigger] tail[i] != ':' by {
        if i >= 2 {
            assert(tail[i] == hex[i - 2]);
        }
    }
    lemma_after_last_colon_append(prefix, tail);
}

/// Reading a lowercase hex digit back gives the value it renders.
proof fn lemma_hex_digit_value(v: u8)
    requires
        v < 16,
    ensures
        hex_char_value(hex_digit_char(v)) == Some(v),
{
    if v < 10 {
        let c = (48 + v) as char;
        assert(c as u8 == 48 + v);
        assert('0' <= c && c <= '9');
    } else {
        let c = (87 + v) as char;
        assert(c as u8 == 87 + v);
        assert('a' <= c && c <= 'f');
        assert(!('0' <= c && c <= '9'));
    }
}

/// Chain identifiers with a well-known mnemonic sub-method name.
pub open spec fn spec_known_sub_method(chain_id: u64) -> Option<Seq<char>> {
    if chain_id == 1 {
        Some("mainnet"@)
    } else if chain_id == 3 {
        Some("ropsten"@)
    } else if chain_id == 4 {
        Some("rinkeby"@)
    } else if chain_id == 5 {
        Some("goerli"@)
    } else if chain_id == 42 {
        Some("kovan"@)
    } else if chain_id == 137 {
        Some("polygon"@)
    } else if chain_id == 31337 {
        Some("local"@)
    } else {
        None
    }
}

/// The sub-method name of a chain: its mnemonic where one is known, else the
/// `0x`-prefixed lowercase hexadecimal chain identifier.
pub open spec fn spec_sub_method_name(chain_id: u64) -> Seq<char> {
    match spec_known_sub_method(chain_id) {
        Some(name) => name,
        None => "0x"@ + spec_u64_to_hex(chain_id),
    }
}

/// Maps a chain identifier to its DID sub-method name: a fixed table of
/// well-known networks, with a hexadecimal fallback for any other chain.
pub fn sub_method_name_from_chain_id(chain_id: u64) -> (r: String)
    ensures
        r@ == spec_sub_method_name(chain_id),
{
    if chain_id == 1 {
        String::from_str("mainnet")
    } else if chain_id == 3 {
        String::from_str("ropsten")
    } else if chain_id == 4 {
        String::from_str("rinkeby")
    } else if chain_id == 5 {
        String::from_str("goerli")
    } else if chain_id == 42 {
        String::from_str("kovan")
    } else if chain_id == 137 {
        String::from_str("polygon")
    } else if chain_id == 31337 {
        String::from_str("local")
    } else {
        let mut out = String::from_str("0x");
        append_u64_hex(&mut out, chain_id);
        out
    }
}

} // verus!
