//! Byte-string helpers: substring tests, concatenation, and the decimal
//! rendering used in per-entry error messages.

use vstd::prelude::*;

verus! {

/// `needle` occurs in `hay` starting at position `at`.
pub open spec fn contains_at(hay: Seq<u8>, at: int, needle: Seq<u8>) -> bool {
    &&& 0 <= at
    &&& at + needle.len() <= hay.len()
    &&& hay.subrange(at, at + needle.len()) == needle
}

/// `needle` occurs somewhere in `hay`.
pub open spec fn contains_seq(hay: Seq<u8>, needle: Seq<u8>) -> bool {
    exists|p: int| contains_at(hay, p, needle)
}

/// Compare `needle` against the bytes of `hay` starting at `at`.
pub fn slice_matches_at(hay: &Vec<u8>, at: usize, needle: &Vec<u8>) -> (r: bool)
    requires
        at + needle@.len() <= hay@.len(),
    ensures
        r == contains_at(hay@, at as int, needle@),
{
    let n: usize = needle.len();
    let hlen: usize = hay.len();
    let mut j: usize = 0;
    while j < n
        invariant
            n == needle@.len(),
            hlen == hay@.len(),
            at + n <= hlen,
            0 <= j <= n,
            forall|k: int| 0 <= k < j ==> hay@[at + k] == needle@[k],
        decreases n - j,
    {
        if hay[at + j] != needle[j] {
            assert(hay@.subrange(at as int, at + needle@.len())[j as int] != needle@[j as int]);
            return false;
        }
        j = j + 1;
    }
    assert(hay@.subrange(at as int, at + needle@.len()) =~= needle@);
    true
}

/// Append all of `src` to `dst`.
pub fn append_bytes(dst: &mut Vec<u8>, src: &Vec<u8>) -> (r: ())
    ensures
        final(dst)@ == old(dst)@ + src@,
{
    let n: usize = src.len();
    let mut j: usize = 0;
    while j < n
        invariant
            n == src@.len(),
            0 <= j <= n,
            dst@ == old(dst)@ + src@.subrange(0, j as int),
        decreases n - j,
    {
        dst.push(src[j]);
        j = j + 1;
        assert(dst@ =~= old(dst)@ + src@.subrange(0, j as int));
    }
    assert(dst@ =~= old(dst)@ + src@);
}

/// A fresh vector holding the same bytes as `src`.
pub fn copy_bytes(src: &Vec<u8>) -> (r: Vec<u8>)
    ensures
        r@ == src@,
{
    let mut out: Vec<u8> = Vec::new();
    append_bytes(&mut out, src);
    assert(out@ =~= src@);
    out
}

/// The decimal digits of `n`, as ASCII bytes.
pub open spec fn dec_digits(n: nat) -> Seq<u8>
    decreases n,
{
    if n < 10 {
        seq![(48 + n) as u8]
    } else {
        dec_digits(n / 10) + seq![(48 + n % 10) as u8]
    }
}

/// Append the decimal rendering of `n` to `out`.
pub fn push_dec(n: u32, out: &mut Vec<u8>) -> (r: ())
    ensures
        final(out)@ == old(out)@ + dec_digits(n as nat),
    decreases n,
{
    if n < 10 {
        out.push(48 + n as u8);
        assert(out@ =~= old(out)@ + dec_digits(n as nat));
    } else {
        push_dec(n / 10, out);
        out.push(48 + (n % 10) as u8);
        assert(out@ =~= old(out)@ + dec_digits(n as nat));
    }
}

/// `"Error after generating "` as bytes.
pub open spec fn error_message_head() -> Seq<u8> {
    seq![69u8, 114u8, 114u8, 111u8, 114u8, 32u8, 97u8, 102u8, 116u8, 101u8, 114u8, 32u8,
        103u8, 101u8, 110u8, 101u8, 114u8, 97u8, 116u8, 105u8, 110u8, 103u8, 32u8]
}

/// `" tokens: "` as bytes.
pub open spec fn error_message_mid() -> Seq<u8> {
    seq![32u8, 116u8, 111u8, 107u8, 101u8, 110u8, 115u8, 58u8, 32u8]
}

/// The message attached to a per-entry generation failure after `n > 0`
/// generated tokens: `"Error after generating {n} tokens: {msg}"`.
pub open spec fn prefixed_error_message(n: nat, msg: Seq<u8>) -> Seq<u8> {
    error_message_head() + dec_digits(n) + error_message_mid() + msg
}

/// Build the prefixed per-entry error message.
pub fn build_prefixed_error_message(n: u32, msg: &Vec<u8>) -> (r: Vec<u8>)
    ensures
        r@ == prefixed_error_message(n as nat, msg@),
{
    let mut v: Vec<u8> = Vec::new();
    v.push(69);
    v.push(114);
    v.push(114);
    v.push(111);
    v.push(114);
    v.push(32);
    v.push(97);
    v.push(102);
    v.push(116);
    v.push(101);
    v.push(114);
    v.push(32);
    v.push(103);
    v.push(101);
    v.push(110);
    v.push(101);
    v.push(114);
    v.push(97);
    v.push(116);
    v.push(105);
    v.push(110);
    v.push(103);
    v.push(32);
    assert(v@ =~= error_message_head());
    push_dec(n, &mut v);
    v.push(32);
    v.push(116);
    v.push(111);
    v.push(107);
    v.push(101);
    v.push(110);
    v.push(115);
    v.push(58);
    v.push(32);
    assert(v@ =~= error_message_head() + dec_digits(n as nat) + error_message_mid());
    append_bytes(&mut v, msg);
    assert(v@ =~= prefixed_error_message(n as nat, msg@));
    v
}

} // verus!
