//! Stable anonymisation of high-cardinality label values.

use std::collections::hash_map::DefaultHasher;
use std::hash::Hasher;
use vstd::prelude::*;
use vstd::std_specs::hash::DefaultHasherAdditionalSpecFns;
use vstd::utf8::encode_utf8;

use crate::text::push_char;

verus! {

/// The 64-bit digest `str::hash` feeds a fresh `DefaultHasher`: the UTF-8 bytes of
/// the string, then the terminator byte `0xff`.
pub open spec fn str_hash(v: Seq<char>) -> u64 {
    DefaultHasher::spec_finish(seq![encode_utf8(v), seq![0xffu8]])
}

/// The `i`-th hexadecimal digit of `x`, most significant first.
pub open spec fn nibble(x: u64, i: int) -> u64 {
    (x >> ((60 - 4 * i) as u64)) & 0xf
}

/// The lower-case hexadecimal character for a digit below 16.
pub open spec fn hex_digit(d: u64) -> char {
    if d < 10 {
        (48 + d) as char
    } else {
        (87 + d) as char
    }
}

/// Whether `c` is a lower-case hexadecimal digit.
pub open spec fn is_lower_hex(c: char) -> bool {
    ('0' <= c <= '9') || ('a' <= c <= 'f')
}

/// `x` as sixteen zero-padded lower-case hexadecimal digits (`{:016x}`).
pub open spec fn hex16(x: u64) -> Seq<char> {
    Seq::new(16, |i: int| hex_digit(nibble(x, i)))
}

/// The anonymised form of a label value: `h` followed by the sixteen hex digits of its hash.
pub open spec fn hashed_label(v: Seq<char>) -> Seq<char> {
    seq!['h'] + hex16(str_hash(v))
}

/// The digest of `value` under a fresh `DefaultHasher`, as `value.hash(&mut hasher)` feeds it.
fn str_digest(value: &str) -> (h: u64)
    ensures
        h == str_hash(value@),
{
    let mut hasher = DefaultHasher::new();
    hasher.write(value.as_bytes());
    let terminator: Vec<u8> = vec![0xffu8];
    let tail = terminator.as_slice();
    assert(tail@ =~= seq![0xffu8]);
    hasher.write(tail);
    let h = hasher.finish();
    assert(hasher@ =~= seq![encode_utf8(value@), seq![0xffu8]]);
    h
}

/// The lower-case hex character of a digit below 16.
fn hex_char(d: u64) -> (c: char)
    requires
        d < 16,
    ensures
        c == hex_digit(d),
{
    if d < 10 {
        ((48 + d) as u8) as char
    } else {
        ((87 + d) as u8) as char
    }
}

/// Replaces a high-cardinality label value by a stable 17-character token
/// (`h` and the zero-padded hex digest of the value).
pub fn hash_label_value(value: &str) -> (r: String)
    ensures
        r@ == hashed_label(value@),
{
    let x = str_digest(value);
    let mut r = String::new();
    push_char(&mut r, 'h');
    let mut i: u64 = 0;
    while i < 16
        invariant
            i <= 16,
            r@ == seq!['h'] + hex16(x).take(i as int),
        decreases 16 - i,
    {
        let shift: u64 = 60 - 4 * i;
        let d = (x >> shift) & 0xf;
        assert(d < 16) by (bit_vector)
            requires
                d == (x >> shift) & 0xf,
        ;
        let c = hex_char(d);
        push_char(&mut r, c);
        assert(seq!['h'] + hex16(x).take(i + 1) =~= (seq!['h'] + hex16(x).take(i as int)).push(
            c,
        ));
        i = i + 1;
    }
    assert(hex16(x).take(16) =~= hex16(x));
    r
}

/// A hashed label is `h` followed by sixteen lower-case hexadecimal digits.
pub proof fn lemma_hashed_label_shape(v: Seq<char>)
    ensures
        hashed_label(v).len() == 17,
        hashed_label(v)[0] == 'h',
        forall|i: int| 1 <= i < 17 ==> is_lower_hex(#[trigger] hashed_label(v)[i]),
{
    let x = str_hash(v);
    assert forall|i: int| 1 <= i < 17 implies is_lower_hex(#[trigger] hashed_label(v)[i]) by {
        let d = nibble(x, i - 1);
        let s: u64 = (60 - 4 * (i - 1)) as u64;
        assert(d < 16) by (bit_vector)
            requires
                d == (x >> s) & 0xf,
        ;
    }
}

} // verus!
