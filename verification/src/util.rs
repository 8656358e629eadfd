//! Small verified helpers: the byte-level parts of basic-authentication
//! encoding, a counter-driven pseudo-random value, and byte-string escaping.

use vstd::prelude::*;

use std::collections::hash_map::RandomState;
use std::hash::{BuildHasher, Hasher};

verus! {

/// Appends every byte of `src` to `dst`.
fn push_all(dst: &mut Vec<u8>, src: &Vec<u8>)
    ensures
        final(dst)@ == old(dst)@ + src@,
{
    let mut i: usize = 0;
    while i < src.len()
        invariant
            i <= src@.len(),
            dst@ == old(dst)@ + src@.take(i as int),
        decreases src@.len() - i,
    {
        dst.push(src[i]);
        proof {
            assert(dst@ =~= old(dst)@ + src@.take(i + 1 as int));
        }
        i += 1;
    }
    proof {
        assert(old(dst)@ + src@.take(src@.len() as int) =~= old(dst)@ + src@);
    }
}

/// The credential bytes that basic authentication encodes: the username, a
/// colon, then the password when one is given.
pub open spec fn basic_auth_payload_spec(user: Seq<u8>, pass: Option<Seq<u8>>) -> Seq<u8> {
    user + seq![58u8] + (match pass {
        Some(p) => p,
        None => Seq::<u8>::empty(),
    })
}

/// Builds the credential bytes `username:password` (with no password,
/// nothing follows the colon). A base64 encoder turns them into the value
/// that `basic_auth_value` frames.
pub fn basic_auth_payload(username: &Vec<u8>, password: Option<&Vec<u8>>) -> (r: Vec<u8>)
    ensures
        r@ == basic_auth_payload_spec(
            username@,
            match password {
                Some(p) => Some(p@),
                None => None,
            },
        ),
{
    let mut buf: Vec<u8> = Vec::new();
    push_all(&mut buf, username);
    buf.push(58);
    match password {
        Some(p) => {
            push_all(&mut buf, p);
            proof {
                assert(buf@ =~= basic_auth_payload_spec(username@, Some(p@)));
            }
        },
        None => {
            proof {
                assert(buf@ =~= basic_auth_payload_spec(username@, None));
            }
        },
    }
    buf
}

/// The scheme prefix of a basic-authentication header value.
pub open spec fn basic_prefix() -> Seq<u8> {
    seq![66u8, 97u8, 115u8, 105u8, 99u8, 32u8]
}

/// Frames an encoded credential as a header value: the scheme prefix,
/// then the encoded bytes.
pub fn basic_auth_value(encoded: &Vec<u8>) -> (r: Vec<u8>)
    ensures
        r@ == basic_prefix() + encoded@,
{
    let mut r: Vec<u8> = Vec::new();
    r.push(66);
    r.push(97);
    r.push(115);
    r.push(105);
    r.push(99);
    r.push(32);
    proof {
        assert(r@ =~= basic_prefix());
    }
    push_all(&mut r, encoded);
    r
}

/// Relies on std's RandomState and its hasher: a 64-bit hash of the given
/// value under a key drawn fresh at random. Nothing is promised of the
/// result.
#[verifier::external_body]
fn randomized_hash(n: u64) -> u64 {
    let mut h = RandomState::new().build_hasher();
    h.write_u64(n);
    h.finish()
}

/// A fast pseudo-random 64-bit value: advances the caller's counter by one
/// (wrapping at the top) and hashes the new count under a randomly seeded
/// key. Nothing is promised of the returned value.
pub fn fast_random(counter: &mut u64) -> (r: u64)
    ensures
        *old(counter) < u64::MAX ==> *final(counter) == *old(counter) + 1,
        *old(counter) == u64::MAX ==> *final(counter) == 0,
{
    *counter = counter.wrapping_add(1);
    randomized_hash(*counter)
}

/// The lower-case hexadecimal digit for a value below sixteen.
pub open spec fn hex_digit(n: u8) -> u8 {
    if n < 10 {
        (48 + n) as u8
    } else {
        (87 + n) as u8
    }
}

/// How one byte reads in an escaped byte string: the common control bytes
/// as their two-character escapes, a backslash or double quote preceded by
/// a backslash, printable bytes as themselves, anything else as a
/// hexadecimal escape.
pub open spec fn escape_byte(c: u8) -> Seq<u8> {
    if c == 10 {
        seq![92u8, 110u8]
    } else if c == 13 {
        seq![92u8, 114u8]
    } else if c == 9 {
        seq![92u8, 116u8]
    } else if c == 92 || c == 34 {
        seq![92u8, c]
    } else if c == 0 {
        seq![92u8, 48u8]
    } else if 32 <= c && c < 127 {
        seq![c]
    } else {
        seq![92u8, 120u8, hex_digit(c / 16), hex_digit(c % 16)]
    }
}

/// The whole escaped byte string, byte by byte.
pub open spec fn escape_seq(s: Seq<u8>) -> Seq<u8>
    decreases s.len(),
{
    if s.len() == 0 {
        Seq::empty()
    } else {
        escape_seq(s.drop_last()) + escape_byte(s.last())
    }
}

/// Escapes a byte string for display, as `escape_seq` says.
pub fn escape_bytes(input: &Vec<u8>) -> (r: Vec<u8>)
    ensures
        r@ == escape_seq(input@),
{
    let mut r: Vec<u8> = Vec::new();
    let mut i: usize = 0;
    while i < input.len()
        invariant
            i <= input@.len(),
            r@ == escape_seq(input@.take(i as int)),
        decreases input@.len() - i,
    {
        let c = input[i];
        if c == 10 {
            r.push(92);
            r.push(110);
        } else if c == 13 {
            r.push(92);
            r.push(114);
        } else if c == 9 {
            r.push(92);
            r.push(116);
        } else if c == 92 || c == 34 {
            r.push(92);
            r.push(c);
        } else if c == 0 {
            r.push(92);
            r.push(48);
        } else if 32 <= c && c < 127 {
            r.push(c);
        } else {
            let hi = c / 16;
            let lo = c % 16;
            r.push(92);
            r.push(120);
            if hi < 10 {
                r.push(48 + hi);
            } else {
                r.push(87 + hi);
            }
            if lo < 10 {
                r.push(48 + lo);
            } else {
                r.push(87 + lo);
            }
        }
        proof {
            assert(input@.take(i + 1 as int).drop_last() =~= input@.take(i as int));
            assert(input@.take(i + 1 as int).last() == input@[i as int]);
            assert(r@ =~= escape_seq(input@.take(i as int)) + escape_byte(input@[i as int]));
        }
        i += 1;
    }
    proof {
        assert(input@.take(input@.len() as int) =~= input@);
    }
    r
}

} // verus!
