use vstd::prelude::*;
use crate::errors::Error;
use vstd::arithmetic::div_mod::{lemma_add_mod_noop, lemma_mul_mod_noop_left};
use vstd::string::StringExecFns;

verus! {

/// One more than `usize::MAX`: the modulus of the machine's wrapping
/// arithmetic on word-sized counters.
pub open spec fn word_modulus() -> int {
    usize::MAX as int + 1
}

/// Whether a byte is an ASCII decimal digit.
pub open spec fn is_digit(c: u8) -> bool {
    48 <= c <= 57
}

/// Whether every byte of the sequence is an ASCII decimal digit.
pub open spec fn all_digits(s: Seq<u8>) -> bool {
    forall|i: int| 0 <= i < s.len() ==> is_digit(s[i])
}

/// The unbounded value of a sequence of decimal digit bytes.
pub open spec fn digits_val(s: Seq<u8>) -> int
    decreases s.len(),
{
    if s.len() == 0 {
        0
    } else {
        digits_val(s.drop_last()) * 10 + (s.last() - 48)
    }
}

/// The characters that `String::from_utf8_lossy` yields for a byte sequence.
pub uninterp spec fn lossy_of(s: Seq<u8>) -> Seq<char>;

/// Relies on `String::from_utf8_lossy`: the result depends on the bytes
/// alone, and ASCII bytes come through as the same characters.
#[verifier::external_body]
pub fn lossy_string(b: &[u8]) -> (r: String)
    ensures
        r@ == lossy_of(b@),
        (forall|i: int| 0 <= i < b@.len() ==> b@[i] < 128) ==> r@ == Seq::new(
            b@.len(),
            |i: int| b@[i] as char,
        ),
{
    String::from_utf8_lossy(b).into_owned()
}

/// An owned copy of a byte slice.
pub fn copy_bytes(src: &[u8]) -> (r: Vec<u8>)
    ensures
        r@ == src@,
{
    let n = src.len();
    let mut r: Vec<u8> = Vec::new();
    let mut i: usize = 0;
    while i < n
        invariant
            0 <= i <= n,
            n == src@.len(),
            r@ == src@.take(i as int),
        decreases n - i,
    {
        r.push(src[i]);
        proof {
            assert(r@ =~= src@.take(i + 1));
        }
        i = i + 1;
    }
    proof {
        assert(src@.take(n as int) =~= src@);
    }
    r
}

/// Parse an unsigned decimal integer of unbounded digit count; the value
/// wraps at the word size, matching the kernel counters' own overflow
/// behaviour. Every byte must be a digit; the empty slice parses to zero.
pub fn parse_integer(txt: &[u8]) -> (r: Result<usize, Error>)
    ensures
        all_digits(txt@) ==> (r matches Ok(v) && v as int == digits_val(txt@) % word_modulus()),
        !all_digits(txt@) ==> r is Err,
{
    let mut res: usize = 0;
    let n = txt.len();
    let mut idx: usize = 0;
    proof {
        assert(txt@.take(0) =~= Seq::<u8>::empty());
        assert(digits_val(txt@.take(0)) == 0);
    }
    while idx < n
        invariant
            0 <= idx <= n,
            n == txt@.len(),
            all_digits(txt@.take(idx as int)),
            res as int == digits_val(txt@.take(idx as int)) % word_modulus(),
        decreases n - idx,
    {
        let c = txt[idx];
        let v = c.wrapping_sub(48u8);
        if v <= 9 {
            proof {
                let pre = txt@.take(idx as int);
                let cur = txt@.take(idx as int + 1);
                assert(cur.drop_last() =~= pre);
                assert(cur.last() == txt@[idx as int]);
                let m = word_modulus();
                let dv = digits_val(pre);
                let d = v as int;
                lemma_mul_mod_noop_left(dv, 10, m);
                lemma_add_mod_noop(dv * 10, d, m);
                assert((dv % m) * 10 % m == dv * 10 % m);
                assert((dv * 10 % m + d % m) % m == (dv * 10 + d) % m);
                assert(d % m == d);
            }
            res = res.wrapping_mul(10).wrapping_add(v as usize);
            proof {
                let m = word_modulus();
                let pre = txt@.take(idx as int);
                let dv = digits_val(pre);
                assert(res as int == ((dv % m) * 10 % m + (v as int) % m) % m);
                assert(res as int == digits_val(txt@.take(idx as int + 1)) % m);
            }
        } else {
            proof {
                assert(!is_digit(txt@[idx as int]));
            }
            let mut msg = String::new();
            msg.append("Invalid integer: '");
            msg.append(lossy_string(txt).as_str());
            msg.append("'");
            return Err(Error::from_msg(msg));
        }
        idx = idx + 1;
    }
    proof {
        assert(txt@.take(n as int) =~= txt@);
    }
    Ok(res)
}

} // verus!
