//! Null-terminated strings of the cabinet format.
//!
//! A name on disk is a run of non-zero bytes closed by a zero byte, at most
//! 255 bytes before the terminator.  Decoding treats the bytes as UTF-8,
//! replacing what is not.

use vstd::prelude::*;

use crate::error::CabError;

verus! {

/// The index of the first zero byte of `data` at or after `pos`, if any.
pub open spec fn spec_find_nul(data: Seq<u8>, pos: int) -> Option<int>
    decreases data.len() - pos,
{
    if pos < 0 || pos >= data.len() {
        None
    } else if data[pos] == 0 {
        Some(pos)
    } else {
        spec_find_nul(data, pos + 1)
    }
}

/// What `String::from_utf8_lossy` makes of arbitrary bytes.
pub uninterp spec fn lossy_utf8(b: Seq<u8>) -> Seq<char>;

/// Relies on `String::from_utf8_lossy`: the result is a function of the
/// bytes alone, and bytes that are valid UTF-8 come back as exactly the
/// string they encode.
#[verifier::external_body]
pub fn bytes_to_string_lossy(b: &Vec<u8>) -> (r: String)
    ensures
        r@ == lossy_utf8(b@),
        vstd::utf8::valid_utf8(b@) ==> vstd::utf8::encode_utf8(r@) == b@,
{
    String::from_utf8_lossy(b.as_slice()).to_string()
}

/// Reads the null-terminated string at `pos`: on success, the decoded
/// string and the position just past the terminator.  Fails where no
/// terminator exists or the string runs past 255 bytes.
pub fn read_null_terminated_string(data: &Vec<u8>, pos: usize) -> (r: Result<
    (String, usize),
    CabError,
>)
    requires
        pos <= data@.len(),
    ensures
        (r matches Ok(p) ==> {
            &&& spec_find_nul(data@, pos as int) == Some(p.1 - 1)
            &&& pos < p.1 <= data@.len()
            &&& p.1 - 1 - pos <= 255
            &&& p.0@ == lossy_utf8(data@.subrange(pos as int, p.1 - 1))
        }),
        (r is Err <==> !(spec_find_nul(data@, pos as int) matches Some(e) && e - pos <= 255)),
        (r matches Err(e) ==> e.is_invalid_data()),
{
    let n = data.len();
    let mut cur: usize = pos;
    let mut bytes: Vec<u8> = Vec::new();
    loop
        invariant
            pos <= cur <= n == data@.len(),
            cur - pos <= 255,
            bytes@ == data@.subrange(pos as int, cur as int),
            spec_find_nul(data@, pos as int) == spec_find_nul(data@, cur as int),
        decreases n - cur,
    {
        if cur >= n {
            return Err(CabError::InvalidData("Unterminated string".to_owned()));
        }
        let byte = data[cur];
        if byte == 0 {
            let s = bytes_to_string_lossy(&bytes);
            return Ok((s, cur + 1));
        }
        if cur - pos >= 255 {
            proof {
                lemma_find_nul_lower(data@, cur + 1);
            }
            return Err(CabError::InvalidData("String longer than maximum".to_owned()));
        }
        bytes.push(byte);
        proof {
            assert(bytes@ =~= data@.subrange(pos as int, cur + 1));
        }
        cur = cur + 1;
    }
}

/// The decimal digit bytes of `v`, most significant first.
pub open spec fn spec_dec_bytes(v: nat) -> Seq<u8>
    decreases v,
{
    if v < 10 {
        seq![(v + 0x30) as u8]
    } else {
        spec_dec_bytes(v / 10) + seq![(v % 10 + 0x30) as u8]
    }
}

/// The decimal digits of `v`, as text.
pub fn dec_u64_string(v: u64) -> (r: String)
    ensures
        r@ == lossy_utf8(spec_dec_bytes(v as nat)),
{
    let mut digits: Vec<u8> = Vec::new();
    let mut rest: u64 = v;
    loop
        invariant
            (digits@.len() == 0 ==> rest == v),
            (digits@.len() > 0 && rest > 0 ==> spec_dec_bytes(v as nat) == spec_dec_bytes(
                rest as nat,
            ) + digits@.reverse()),
            (digits@.len() > 0 && rest == 0 ==> spec_dec_bytes(v as nat) == digits@.reverse()),
        ensures
            digits@.len() > 0,
            spec_dec_bytes(v as nat) == digits@.reverse(),
        decreases rest, (if digits@.len() == 0 {
            1int
        } else {
            0int
        }),
    {
        if rest == 0 && digits.len() > 0 {
            break ;
        }
        proof {
            if rest >= 1 {
                assert(rest / 10 < rest) by (nonlinear_arith)
                    requires rest >= 1;
            }
        }
        let d = (rest % 10) as u8 + 0x30;
        let ghost digits_old = digits@;
        let ghost rest_old = rest;
        digits.push(d);
        rest = rest / 10;
        proof {
            assert(digits@.reverse() =~= seq![d] + digits_old.reverse());
            if digits_old.len() == 0 {
                assert(digits_old.reverse() =~= Seq::<u8>::empty());
                assert(seq![d] + Seq::<u8>::empty() =~= seq![d]);
                if rest_old < 10 {
                    assert(spec_dec_bytes(v as nat) == seq![d]);
                } else {
                    assert(spec_dec_bytes(v as nat) == spec_dec_bytes(rest as nat) + seq![d]);
                }
            } else {
                if rest_old < 10 {
                    assert(spec_dec_bytes(rest_old as nat) == seq![d]);
                    assert(spec_dec_bytes(rest_old as nat) + digits_old.reverse() =~= seq![d]
                        + digits_old.reverse());
                } else {
                    assert(spec_dec_bytes(rest_old as nat) == spec_dec_bytes(rest as nat) + seq![
                        d,
                    ]);
                    assert((spec_dec_bytes(rest as nat) + seq![d]) + digits_old.reverse()
                        =~= spec_dec_bytes(rest as nat) + (seq![d] + digits_old.reverse()));
                }
            }
        }
    }
    let mut bytes: Vec<u8> = Vec::new();
    let n = digits.len();
    let mut i: usize = 0;
    while i < n
        invariant
            i <= n == digits@.len(),
            bytes@ == digits@.reverse().take(i as int),
        decreases n - i,
    {
        bytes.push(digits[n - 1 - i]);
        proof {
            assert(bytes@ =~= digits@.reverse().take(i + 1));
        }
        i = i + 1;
    }
    proof {
        assert(bytes@ =~= digits@.reverse());
    }
    bytes_to_string_lossy(&bytes)
}

/// One hexadecimal digit, lower case.
pub open spec fn spec_hex_digit(n: int) -> u8 {
    if n < 10 {
        (0x30 + n) as u8
    } else {
        (0x57 + n) as u8
    }
}

/// The eight hexadecimal digit bytes of `v`, most significant first.
pub open spec fn spec_hex8_bytes(v: u32) -> Seq<u8> {
    Seq::new(8, |i: int| spec_hex_digit(((v >> (((7 - i) * 4) as u32)) & 0xf) as int))
}

/// The eight hexadecimal digits of `v`, as text.
pub fn hex_u32_string(v: u32) -> (r: String)
    ensures
        r@ == lossy_utf8(spec_hex8_bytes(v)),
{
    let mut bytes: Vec<u8> = Vec::new();
    let mut shift: u32 = 32;
    while shift > 0
        invariant
            shift % 4 == 0,
            shift <= 32,
            bytes@ == spec_hex8_bytes(v).take(((32 - shift) / 4) as int),
        decreases shift,
    {
        shift = shift - 4;
        let nib32 = (v >> shift) & 0xf;
        proof {
            assert((v >> shift) & 0xf < 16) by (bit_vector);
        }
        let nibble = nib32 as u8;
        let digit = if nibble < 10 {
            nibble + 0x30
        } else {
            nibble - 10 + 0x61
        };
        bytes.push(digit);
        proof {
            let i: int = ((32 - shift) / 4) as int - 1;
            assert((7 - i) * 4 == shift);
            assert(spec_hex8_bytes(v)[i] == digit);
            assert(bytes@ =~= spec_hex8_bytes(v).take(i + 1));
        }
    }
    proof {
        assert(bytes@ =~= spec_hex8_bytes(v));
    }
    bytes_to_string_lossy(&bytes)
}

/// A zero byte found at or after `cur` is at or after `cur`.
proof fn lemma_find_nul_lower(data: Seq<u8>, cur: int)
    ensures
        spec_find_nul(data, cur) matches Some(e) ==> e >= cur,
    decreases data.len() - cur,
{
    if 0 <= cur < data.len() && data[cur] != 0 {
        lemma_find_nul_lower(data, cur + 1);
    }
}

} // verus!
