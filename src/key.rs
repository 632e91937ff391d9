//! Keys: raw 32-byte material, its base64 text form, generation and
//! public-key derivation.
use vstd::prelude::*;
use vstd::arithmetic::div_mod::{lemma_fundamental_div_mod, lemma_fundamental_div_mod_converse};
use vstd::string::StringSliceAdditionalSpecFns;
use crate::error::WgError;

verus! {

/// Raw 32-byte key material (a Curve25519 scalar or point, or a preshared secret).
#[derive(Debug, Clone, Copy, PartialEq, Eq)]
pub struct WgKey(pub [u8; 32]);

/// Text form of a key: 44 base64 characters followed by a zero byte.
#[derive(Debug, Clone, Copy, PartialEq, Eq)]
pub struct WgKeyBase64String(pub [u8; 45]);

/// The base64 alphabet symbol for a 6-bit value.
pub open spec fn b64_symbol(v: u8) -> u8 {
    if v < 26 {
        (v + 65) as u8
    } else if v < 52 {
        (v + 71) as u8
    } else if v < 62 {
        (v - 4) as u8
    } else if v == 62 {
        43
    } else {
        47
    }
}

/// Byte `i` of `k`, and zero past its end.
pub open spec fn key_byte(k: Seq<u8>, i: int) -> u8 {
    if 0 <= i < k.len() {
        k[i]
    } else {
        0
    }
}

/// The `r`-th 6-bit value of the three bytes `b0 b1 b2`.
pub open spec fn sextet(b0: u8, b1: u8, b2: u8, r: int) -> u8 {
    if r == 0 {
        b0 >> 2
    } else if r == 1 {
        ((b0 & 3) << 4) | (b1 >> 4)
    } else if r == 2 {
        ((b1 & 15) << 2) | (b2 >> 6)
    } else {
        b2 & 63
    }
}

/// Symbol `j` of the base64 form of `k`: each three bytes give four symbols.
pub open spec fn base64_at(k: Seq<u8>, j: int) -> u8 {
    let g = j / 4;
    b64_symbol(sextet(key_byte(k, 3 * g), key_byte(k, 3 * g + 1), key_byte(k, 3 * g + 2), j % 4))
}

/// The text form of a 32-byte key: 43 symbols, one `=` of padding, then a
/// terminating zero byte.
pub open spec fn key_text(k: Seq<u8>) -> Seq<u8> {
    Seq::new(
        45,
        |j: int|
            if j < 43 {
                base64_at(k, j)
            } else if j == 43 {
                61u8
            } else {
                0u8
            },
    )
}

pub open spec fn is_key_text(t: Seq<u8>) -> bool {
    exists|k: Seq<u8>| k.len() == 32 && #[trigger] key_text(k) == t
}

/// The key whose text form is `t`, if there is one.
pub open spec fn key_of_text(t: Seq<u8>) -> Option<Seq<u8>> {
    if is_key_text(t) {
        Some(choose|k: Seq<u8>| k.len() == 32 && #[trigger] key_text(k) == t)
    } else {
        None
    }
}

/// Text as it stands in the fixed 45-byte buffer: cut at 45 bytes, zero-filled.
pub open spec fn padded_text(b: Seq<u8>) -> Seq<u8> {
    Seq::new(45, |i: int| if i < b.len() { b[i] } else { 0u8 })
}

/// The clamping that turns 32 random bytes into a Curve25519 private scalar.
pub open spec fn clamped(k: Seq<u8>) -> Seq<u8> {
    k.update(0, k[0] & 248).update(31, (k[31] & 127) | 64)
}

pub open spec fn is_clamped(k: Seq<u8>) -> bool {
    k.len() == 32 && k[0] & 7 == 0 && k[31] & 128 == 0 && k[31] & 64 == 64
}

/// The public key that X25519 derives from the private scalar `k`.
pub uninterp spec fn x25519_public(k: Seq<u8>) -> Seq<u8>;

proof fn lemma_symbol_injective(a: u8, b: u8)
    requires
        a < 64,
        b < 64,
        b64_symbol(a) == b64_symbol(b),
    ensures
        a == b,
{
}

proof fn lemma_symbol_nonzero(a: u8)
    requires
        a < 64,
    ensures
        b64_symbol(a) != 0,
{
}

proof fn lemma_sextet_bound(b0: u8, b1: u8, b2: u8)
    ensures
        sextet(b0, b1, b2, 0) < 64,
        sextet(b0, b1, b2, 1) < 64,
        sextet(b0, b1, b2, 2) < 64,
        sextet(b0, b1, b2, 3) < 64,
{
    assert(b0 >> 2 < 64) by (bit_vector);
    assert(((b0 & 3) << 4) | (b1 >> 4) < 64) by (bit_vector);
    assert(((b1 & 15) << 2) | (b2 >> 6) < 64) by (bit_vector);
    assert(b2 & 63 < 64) by (bit_vector);
}

proof fn lemma_group_injective(a0: u8, a1: u8, a2: u8, b0: u8, b1: u8, b2: u8)
    requires
        a0 >> 2 == b0 >> 2,
        ((a0 & 3) << 4) | (a1 >> 4) == ((b0 & 3) << 4) | (b1 >> 4),
        ((a1 & 15) << 2) | (a2 >> 6) == ((b1 & 15) << 2) | (b2 >> 6),
        a2 & 63 == b2 & 63,
    ensures
        a0 == b0 && a1 == b1 && a2 == b2,
{
    assert(a0 == b0 && a1 == b1 && a2 == b2) by (bit_vector)
        requires
            a0 >> 2 == b0 >> 2,
            ((a0 & 3) << 4) | (a1 >> 4) == ((b0 & 3) << 4) | (b1 >> 4),
            ((a1 & 15) << 2) | (a2 >> 6) == ((b1 & 15) << 2) | (b2 >> 6),
            a2 & 63 == b2 & 63,
    ;
}

proof fn lemma_tail_injective(a0: u8, a1: u8, b0: u8, b1: u8)
    requires
        a0 >> 2 == b0 >> 2,
        ((a0 & 3) << 4) | (a1 >> 4) == ((b0 & 3) << 4) | (b1 >> 4),
        ((a1 & 15) << 2) | (0u8 >> 6) == ((b1 & 15) << 2) | (0u8 >> 6),
    ensures
        a0 == b0 && a1 == b1,
{
    assert(a0 == b0 && a1 == b1) by (bit_vector)
        requires
            a0 >> 2 == b0 >> 2,
            ((a0 & 3) << 4) | (a1 >> 4) == ((b0 & 3) << 4) | (b1 >> 4),
            ((a1 & 15) << 2) | (0u8 >> 6) == ((b1 & 15) << 2) | (0u8 >> 6),
    ;
}

proof fn lemma_group_index(g: int, r: int)
    requires
        0 <= g,
        0 <= r < 4,
    ensures
        (4 * g + r) / 4 == g,
        (4 * g + r) % 4 == r,
{
    lemma_fundamental_div_mod_converse(4 * g + r, 4, g, r);
}

/// Symbol `4g + r` of a key text in terms of the bytes of group `g`.
proof fn lemma_text_symbol(k: Seq<u8>, g: int, r: int)
    requires
        k.len() == 32,
        0 <= g <= 10,
        0 <= r < 4,
        4 * g + r < 43,
    ensures
        key_text(k)[4 * g + r] == b64_symbol(
            sextet(key_byte(k, 3 * g), key_byte(k, 3 * g + 1), key_byte(k, 3 * g + 2), r),
        ),
        sextet(key_byte(k, 3 * g), key_byte(k, 3 * g + 1), key_byte(k, 3 * g + 2), r) < 64,
{
    lemma_group_index(g, r);
    lemma_sextet_bound(key_byte(k, 3 * g), key_byte(k, 3 * g + 1), key_byte(k, 3 * g + 2));
}

proof fn lemma_same_sextet(a: Seq<u8>, b: Seq<u8>, g: int, r: int)
    requires
        a.len() == 32,
        b.len() == 32,
        key_text(a) == key_text(b),
        0 <= g <= 10,
        0 <= r < 4,
        4 * g + r < 43,
    ensures
        sextet(key_byte(a, 3 * g), key_byte(a, 3 * g + 1), key_byte(a, 3 * g + 2), r) == sextet(
            key_byte(b, 3 * g),
            key_byte(b, 3 * g + 1),
            key_byte(b, 3 * g + 2),
            r,
        ),
{
    lemma_text_symbol(a, g, r);
    lemma_text_symbol(b, g, r);
    lemma_symbol_injective(
        sextet(key_byte(a, 3 * g), key_byte(a, 3 * g + 1), key_byte(a, 3 * g + 2), r),
        sextet(key_byte(b, 3 * g), key_byte(b, 3 * g + 1), key_byte(b, 3 * g + 2), r),
    );
}

/// Two keys with the same text form are the same key.
pub proof fn lemma_key_text_injective(a: Seq<u8>, b: Seq<u8>)
    requires
        a.len() == 32,
        b.len() == 32,
        key_text(a) == key_text(b),
    ensures
        a == b,
{
    assert forall|i: int| 0 <= i < 32 implies a[i] == b[i] by {
        let g = i / 3;
        assert(0 <= g <= 10);
        lemma_same_sextet(a, b, g, 0);
        lemma_same_sextet(a, b, g, 1);
        lemma_same_sextet(a, b, g, 2);
        if g < 10 {
            lemma_same_sextet(a, b, g, 3);
            lemma_group_injective(
                key_byte(a, 3 * g),
                key_byte(a, 3 * g + 1),
                key_byte(a, 3 * g + 2),
                key_byte(b, 3 * g),
                key_byte(b, 3 * g + 1),
                key_byte(b, 3 * g + 2),
            );
        } else {
            lemma_tail_injective(
                key_byte(a, 3 * g),
                key_byte(a, 3 * g + 1),
                key_byte(b, 3 * g),
                key_byte(b, 3 * g + 1),
            );
        }
    }
    assert(a =~= b);
}

/// Decoding the text form of a key gives that key back.
pub proof fn lemma_decode_encode(k: Seq<u8>)
    requires
        k.len() == 32,
    ensures
        key_of_text(key_text(k)) == Some(k),
{
    assert(is_key_text(key_text(k)));
    let c = choose|c: Seq<u8>| c.len() == 32 && #[trigger] key_text(c) == key_text(k);
    lemma_key_text_injective(c, k);
}

/// The text form of a key is 45 bytes: 44 nonzero characters (43 base64
/// symbols and `=`), then one zero byte of padding.
pub proof fn lemma_key_text_shape(k: Seq<u8>)
    requires
        k.len() == 32,
    ensures
        key_text(k).len() == 45,
        forall|j: int| 0 <= j < 44 ==> #[trigger] key_text(k)[j] != 0,
        key_text(k)[43] == 61,
        key_text(k)[44] == 0,
{
    assert forall|j: int| 0 <= j < 44 implies #[trigger] key_text(k)[j] != 0 by {
        if j < 43 {
            lemma_group_index(j / 4, j % 4);
            lemma_text_symbol(k, j / 4, j % 4);
            lemma_symbol_nonzero(
                sextet(
                    key_byte(k, 3 * (j / 4)),
                    key_byte(k, 3 * (j / 4) + 1),
                    key_byte(k, 3 * (j / 4) + 2),
                    j % 4,
                ),
            );
        }
    }
}


/// Relies on `x25519_dalek::x25519` with `X25519_BASEPOINT_BYTES`: the
/// scalar multiplication of the (internally clamped) private scalar with the
/// Curve25519 base point, a function of the scalar alone.
#[verifier::external_body]
fn x25519_base(k: [u8; 32]) -> (r: [u8; 32])
    ensures
        r@ == x25519_public(k@),
{
    x25519_dalek::x25519(k, x25519_dalek::X25519_BASEPOINT_BYTES)
}

/// Relies on `getrandom::getrandom`: fills the buffer from the system's
/// random source, or reports that it could not.
#[verifier::external_body]
fn random_bytes() -> (r: Option<[u8; 32]>) {
    let mut b = [0u8; 32];
    match getrandom::getrandom(&mut b) {
        Ok(()) => Some(b),
        Err(_) => None,
    }
}

fn symbol(v: u8) -> (c: u8)
    requires
        v < 64,
    ensures
        c == b64_symbol(v),
{
    if v < 26 {
        v + 65
    } else if v < 52 {
        v + 71
    } else if v < 62 {
        v - 4
    } else if v == 62 {
        43
    } else {
        47
    }
}

fn symbol_value(c: u8) -> (r: Option<u8>)
    ensures
        match r {
            Some(v) => v < 64 && b64_symbol(v) == c,
            None => forall|v: u8| v < 64 ==> b64_symbol(v) != c,
        },
{
    if 65 <= c && c <= 90 {
        Some(c - 65)
    } else if 97 <= c && c <= 122 {
        Some(c - 71)
    } else if 48 <= c && c <= 57 {
        Some(c + 4)
    } else if c == 43 {
        Some(62)
    } else if c == 47 {
        Some(63)
    } else {
        None
    }
}

/// Text form of `key`: the 44-character base64 encoding followed by a zero byte.
pub fn encode_key(key: &WgKey) -> (r: WgKeyBase64String)
    ensures
        r.0@ == key_text(key.0@),
{
    let k = key.0;
    let mut out = [0u8; 45];
    let mut g: usize = 0;
    while g < 11
        invariant
            g <= 11,
            k@.len() == 32,
            out@.len() == 45,
            forall|j: int| 0 <= j < 4 * g && j < 43 ==> out@[j] == #[trigger] key_text(k@)[j],
            forall|j: int| 4 * g <= j < 45 ==> #[trigger] out@[j] == 0,
        decreases 11 - g,
    {
        let b0 = k[3 * g];
        let b1 = if 3 * g + 1 < 32 {
            k[3 * g + 1]
        } else {
            0
        };
        let b2 = if 3 * g + 2 < 32 {
            k[3 * g + 2]
        } else {
            0
        };
        proof {
            lemma_sextet_bound(b0, b1, b2);
            assert(b0 == key_byte(k@, 3 * g as int));
            assert(b1 == key_byte(k@, 3 * g as int + 1));
            assert(b2 == key_byte(k@, 3 * g as int + 2));
            lemma_text_symbol(k@, g as int, 0);
            lemma_text_symbol(k@, g as int, 1);
            lemma_text_symbol(k@, g as int, 2);
            if g < 10 {
                lemma_text_symbol(k@, g as int, 3);
            }
        }
        out[4 * g] = symbol(b0 >> 2);
        out[4 * g + 1] = symbol(((b0 & 3) << 4) | (b1 >> 4));
        out[4 * g + 2] = symbol(((b1 & 15) << 2) | (b2 >> 6));
        if g < 10 {
            out[4 * g + 3] = symbol(b2 & 63);
        }
        g = g + 1;
    }
    out[43] = 61;
    assert(out@ =~= key_text(k@));
    WgKeyBase64String(out)
}

proof fn lemma_not_key_text(t: Seq<u8>, j: int)
    requires
        t.len() == 45,
        0 <= j < 43,
        forall|v: u8| v < 64 ==> b64_symbol(v) != t[j],
    ensures
        !is_key_text(t),
{
    assert forall|k: Seq<u8>| k.len() == 32 implies #[trigger] key_text(k) != t by {
        lemma_group_index(j / 4, j % 4);
        lemma_text_symbol(k, j / 4, j % 4);
    }
}

/// The key whose text form is `text`; fails unless `text` is exactly such a form.
pub fn decode_key(text: &WgKeyBase64String) -> (r: Result<WgKey, WgError>)
    ensures
        match key_of_text(text.0@) {
            Some(k) => r matches Ok(key) && key.0@ == k,
            None => r == Err::<WgKey, WgError>(WgError::InvalidKeyEncoding),
        },
{
    let t = text.0;
    if t[44] != 0 || t[43] != 61 {
        proof {
            assert forall|k: Seq<u8>| k.len() == 32 implies #[trigger] key_text(k) != t@ by {
                assert(key_text(k)[43] == 61 && key_text(k)[44] == 0);
            }
        }
        return Err(WgError::InvalidKeyEncoding);
    }
    let mut key = [0u8; 32];
    let mut g: usize = 0;
    while g < 10
        invariant
            g <= 10,
            t == text.0,
            t@.len() == 45,
            key@.len() == 32,
            forall|j: int| 0 <= j < 4 * g ==> t@[j] == #[trigger] base64_at(key@, j),
            forall|j: int| 0 <= j < 4 * g ==> t@[j] == #[trigger] key_text(key@)[j],
        decreases 10 - g,
    {
        let c0 = symbol_value(t[4 * g]);
        let c1 = symbol_value(t[4 * g + 1]);
        let c2 = symbol_value(t[4 * g + 2]);
        let c3 = symbol_value(t[4 * g + 3]);
        if c0.is_none() || c1.is_none() || c2.is_none() || c3.is_none() {
            proof {
                if c0.is_none() {
                    lemma_not_key_text(t@, 4 * g as int);
                } else if c1.is_none() {
                    lemma_not_key_text(t@, 4 * g as int + 1);
                } else if c2.is_none() {
                    lemma_not_key_text(t@, 4 * g as int + 2);
                } else {
                    lemma_not_key_text(t@, 4 * g as int + 3);
                }
            }
            return Err(WgError::InvalidKeyEncoding);
        }
        let v0 = c0.unwrap();
        let v1 = c1.unwrap();
        let v2 = c2.unwrap();
        let v3 = c3.unwrap();
        let b0: u8 = (v0 << 2) | (v1 >> 4);
        let b1: u8 = (v1 << 4) | (v2 >> 2);
        let b2: u8 = (v2 << 6) | v3;
        assert(sextet(b0, b1, b2, 0) == v0 && sextet(b0, b1, b2, 1) == v1 && sextet(b0, b1, b2, 2)
            == v2 && sextet(b0, b1, b2, 3) == v3) by (bit_vector)
            requires
                v0 < 64 && v1 < 64 && v2 < 64 && v3 < 64,
                b0 == (v0 << 2) | (v1 >> 4),
                b1 == (v1 << 4) | (v2 >> 2),
                b2 == (v2 << 6) | v3,
        ;
        let ghost before = key@;
        key[3 * g] = b0;
        key[3 * g + 1] = b1;
        key[3 * g + 2] = b2;
        proof {
            assert forall|j: int| 0 <= j < 4 * g + 4 implies t@[j] == #[trigger] base64_at(key@, j) by {
                lemma_fundamental_div_mod(j, 4);
                if j < 4 * g {
                    assert(j / 4 < g);
                    assert(base64_at(key@, j) == base64_at(before, j));
                } else {
                    lemma_group_index(g as int, j - 4 * g);
                    assert(key_byte(key@, 3 * g) == b0);
                    assert(key_byte(key@, 3 * g + 1) == b1);
                    assert(key_byte(key@, 3 * g + 2) == b2);
                    assert(t@[4 * g + 0] == b64_symbol(v0));
                    assert(t@[4 * g + 1] == b64_symbol(v1));
                    assert(t@[4 * g + 2] == b64_symbol(v2));
                    assert(t@[4 * g + 3] == b64_symbol(v3));
                }
            }
            assert forall|j: int| 0 <= j < 4 * g + 4 implies t@[j] == #[trigger] key_text(key@)[j] by {
                assert(t@[j] == base64_at(key@, j));
            }
        }
        g = g + 1;
    }
    let c0 = symbol_value(t[40]);
    let c1 = symbol_value(t[41]);
    let c2 = symbol_value(t[42]);
    if c0.is_none() || c1.is_none() || c2.is_none() {
        proof {
            if c0.is_none() {
                lemma_not_key_text(t@, 40);
            } else if c1.is_none() {
                lemma_not_key_text(t@, 41);
            } else {
                lemma_not_key_text(t@, 42);
            }
        }
        return Err(WgError::InvalidKeyEncoding);
    }
    let v0 = c0.unwrap();
    let v1 = c1.unwrap();
    let v2 = c2.unwrap();
    if v2 & 3 != 0 {
        proof {
            assert forall|k: Seq<u8>| k.len() == 32 implies #[trigger] key_text(k) != t@ by {
                lemma_text_symbol(k, 10, 2);
                let b1 = key_byte(k, 31);
                let w = ((b1 & 15) << 2) | (0u8 >> 6);
                assert(w & 3 == 0) by (bit_vector)
                    requires
                        w == ((b1 & 15) << 2) | (0u8 >> 6),
                ;
                if key_text(k) == t@ {
                    lemma_symbol_injective(w, v2);
                }
            }
        }
        return Err(WgError::InvalidKeyEncoding);
    }
    let b0: u8 = (v0 << 2) | (v1 >> 4);
    let b1: u8 = (v1 << 4) | (v2 >> 2);
    assert(sextet(b0, b1, 0, 0) == v0 && sextet(b0, b1, 0, 1) == v1 && sextet(b0, b1, 0, 2) == v2)
        by (bit_vector)
        requires
            v0 < 64 && v1 < 64 && v2 < 64,
            v2 & 3 == 0,
            b0 == (v0 << 2) | (v1 >> 4),
            b1 == (v1 << 4) | (v2 >> 2),
    ;
    let ghost before = key@;
    key[30] = b0;
    key[31] = b1;
    proof {
        assert forall|j: int| 0 <= j < 43 implies t@[j] == #[trigger] key_text(key@)[j] by {
            lemma_fundamental_div_mod(j, 4);
            if j < 40 {
                assert(j / 4 < 10);
                assert(base64_at(key@, j) == base64_at(before, j));
            } else {
                lemma_group_index(10, j - 40);
                assert(key_byte(key@, 30) == b0);
                assert(key_byte(key@, 31) == b1);
                assert(key_byte(key@, 32) == 0);
                assert(t@[40] == b64_symbol(v0));
                assert(t@[41] == b64_symbol(v1));
                assert(t@[42] == b64_symbol(v2));
            }
        }
        assert(t@ =~= key_text(key@));
        lemma_decode_encode(key@);
    }
    Ok(WgKey(key))
}

impl WgKeyBase64String {
    /// Places `input` in the 45-byte buffer: longer input is cut, shorter
    /// input is followed by zero bytes.
    pub fn from_text(input: &str) -> (r: WgKeyBase64String)
        ensures
            r.0@ == padded_text(input.spec_bytes()),
    {
        let b = input.as_bytes();
        let mut out = [0u8; 45];
        let mut i: usize = 0;
        while i < 45 && i < b.len()
            invariant
                i <= 45,
                out@.len() == 45,
                forall|j: int| 0 <= j < i ==> out@[j] == #[trigger] padded_text(b@)[j],
                forall|j: int| i <= j < 45 ==> #[trigger] out@[j] == 0,
            decreases 45 - i,
        {
            out[i] = b[i];
            i = i + 1;
        }
        assert(out@ =~= padded_text(b@));
        WgKeyBase64String(out)
    }
}

/// Decodes the text form of a key given as a string.
pub fn wg_key_from_str(input: &str) -> (r: Result<WgKey, WgError>)
    ensures
        match key_of_text(padded_text(input.spec_bytes())) {
            Some(k) => r matches Ok(key) && key.0@ == k,
            None => r == Err::<WgKey, WgError>(WgError::InvalidKeyEncoding),
        },
{
    let text = WgKeyBase64String::from_text(input);
    decode_key(&text)
}

/// Clears the three low bits of the first byte, clears the top bit of the
/// last byte and sets its second-highest bit.
pub fn clamp_key(k: [u8; 32]) -> (r: [u8; 32])
    ensures
        r@ == clamped(k@),
        is_clamped(r@),
{
    let mut r = k;
    r[0] = k[0] & 248;
    r[31] = (k[31] & 127) | 64;
    let a = k[0];
    let b = k[31];
    assert((a & 248) & 7 == 0) by (bit_vector);
    assert(((b & 127) | 64) & 128 == 0 && ((b & 127) | 64) & 64 == 64) by (bit_vector);
    assert(r@ =~= clamped(k@));
    r
}

/// A fresh private key: 32 bytes from the system's random source, clamped.
pub fn generate_private_key() -> (r: Result<WgKey, WgError>)
    ensures
        match r {
            Ok(k) => is_clamped(k.0@),
            Err(e) => e == WgError::RandomSourceFailed,
        },
{
    match random_bytes() {
        Some(b) => Ok(WgKey(clamp_key(b))),
        None => Err(WgError::RandomSourceFailed),
    }
}

/// The public key that belongs to the private key `k`.
pub fn derive_public_key(k: &WgKey) -> (r: WgKey)
    ensures
        r.0@ == x25519_public(k.0@),
{
    WgKey(x25519_base(k.0))
}

/// A fresh private key in text form.
pub fn gen_private_key() -> (r: Result<WgKeyBase64String, WgError>)
    ensures
        match r {
            Ok(t) => exists|k: Seq<u8>| is_clamped(k) && #[trigger] key_text(k) == t.0@,
            Err(e) => e == WgError::RandomSourceFailed,
        },
{
    let k = generate_private_key()?;
    let t = encode_key(&k);
    assert(is_clamped(k.0@) && key_text(k.0@) == t.0@);
    Ok(t)
}

/// The text form of the public key that belongs to the private key whose
/// text form is given.
pub fn gen_public_key(private_key: &WgKeyBase64String) -> (r: Result<WgKeyBase64String, WgError>)
    ensures
        match key_of_text(private_key.0@) {
            Some(k) => r matches Ok(t) && t.0@ == key_text(x25519_public(k)),
            None => r == Err::<WgKeyBase64String, WgError>(WgError::InvalidKeyEncoding),
        },
{
    let k = decode_key(private_key)?;
    let p = derive_public_key(&k);
    Ok(encode_key(&p))
}

} // verus!
