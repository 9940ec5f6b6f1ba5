use vstd::prelude::*;
use vstd::string::{StringExecFns, StringSliceAdditionalSpecFns};
use vstd::utf8::encode_utf8;

verus! {

/// The UTF-8 bytes of a string literal.
pub open spec fn lit(s: &str) -> Seq<u8> {
    s.spec_bytes()
}

/// The ASCII decimal representation of `value`, most significant digit first, without
/// sign or leading zeros.
pub open spec fn decimal(value: nat) -> Seq<u8>
    decreases value,
{
    if value < 10 {
        seq![(48 + value) as u8]
    } else {
        decimal(value / 10).push((48 + value % 10) as u8)
    }
}

/// Appends the UTF-8 bytes of `s` to `out`.
pub fn push_str(out: &mut Vec<u8>, s: &str)
    ensures
        final(out)@ == old(out)@ + lit(s),
{
    let bytes = s.as_bytes();
    let len = bytes.len();
    let mut i: usize = 0;
    while i < len
        invariant
            len == bytes@.len(),
            bytes@ == s.spec_bytes(),
            i <= len,
            out@ == old(out)@ + bytes@.subrange(0, i as int),
        decreases len - i,
    {
        out.push(bytes[i]);
        proof {
            assert(bytes@.subrange(0, i + 1) == bytes@.subrange(0, i as int).push(bytes@[i as int]));
        }
        i = i + 1;
    }
    proof {
        assert(bytes@.subrange(0, len as int) == bytes@);
    }
}

/// Appends `bytes[start..end]` to `out`.
pub fn push_slice(out: &mut Vec<u8>, bytes: &[u8], start: usize, end: usize)
    requires
        start <= end <= bytes@.len(),
    ensures
        final(out)@ == old(out)@ + bytes@.subrange(start as int, end as int),
{
    let mut i = start;
    while i < end
        invariant
            start <= i <= end,
            end <= bytes@.len(),
            out@ == old(out)@ + bytes@.subrange(start as int, i as int),
        decreases end - i,
    {
        out.push(bytes[i]);
        proof {
            assert(bytes@.subrange(start as int, i + 1) == bytes@.subrange(start as int, i as int).push(
                bytes@[i as int],
            ));
        }
        i = i + 1;
    }
}

/// Appends the decimal representation of `value` to `out`.
pub fn push_decimal(out: &mut Vec<u8>, value: u64)
    ensures
        final(out)@ == old(out)@ + decimal(value as nat),
    decreases value,
{
    if value >= 10 {
        push_decimal(out, value / 10);
    }
    out.push((48 + value % 10) as u8);
    proof {
        if value >= 10 {
            assert(old(out)@ + decimal(value as nat) == old(out)@ + decimal((value / 10) as nat)
                + seq![(48 + value % 10) as u8]);
        } else {
            assert(decimal(value as nat) == seq![(48 + value) as u8]);
        }
    }
}


/// The characters of an ASCII byte sequence.
pub open spec fn chars_of(bytes: Seq<u8>) -> Seq<char> {
    bytes.map_values(|b: u8| b as char)
}

/// Appends `c` to `text`: a call of `String::push`.
#[verifier::external_body]
pub(crate) fn push_char(text: &mut String, c: char)
    ensures
        final(text)@ == old(text)@.push(c),
{
    text.push(c);
}

/// Appends the characters of `s` to `text`.
pub fn append_str(text: &mut String, s: &str)
    ensures
        final(text)@ == old(text)@ + s@,
{
    text.append(s);
}

/// Appends the decimal representation of `value` to `text`.
pub fn append_decimal(text: &mut String, value: u64)
    ensures
        final(text)@ == old(text)@ + chars_of(decimal(value as nat)),
    decreases value,
{
    if value >= 10 {
        append_decimal(text, value / 10);
    }
    push_char(text, ((48 + value % 10) as u8) as char);
    proof {
        if value >= 10 {
            assert(chars_of(decimal(value as nat)) =~= chars_of(decimal((value / 10) as nat)).push(
                ((48 + value % 10) as u8) as char,
            ));
        } else {
            assert(chars_of(decimal(value as nat)) =~= seq![((48 + value % 10) as u8) as char]);
        }
    }
}

/// Appends the UTF-8 encoding of `c` to `out`.
pub fn push_char_utf8(out: &mut Vec<u8>, c: char)
    ensures
        final(out)@ == old(out)@ + encode_utf8(seq![c]),
{
    let scalar = c as u32;
    if scalar <= 0x7F {
        out.push((scalar & 0x7F) as u8);
    } else if scalar <= 0x7FF {
        out.push(0xC0 | ((scalar >> 6) & 0x1F) as u8);
        out.push(0x80 | (scalar & 0x3F) as u8);
    } else if scalar <= 0xFFFF {
        out.push(0xE0 | ((scalar >> 12) & 0x0F) as u8);
        out.push(0x80 | ((scalar >> 6) & 0x3F) as u8);
        out.push(0x80 | (scalar & 0x3F) as u8);
    } else {
        out.push(0xF0 | ((scalar >> 18) & 0x7) as u8);
        out.push(0x80 | ((scalar >> 12) & 0x3F) as u8);
        out.push(0x80 | ((scalar >> 6) & 0x3F) as u8);
        out.push(0x80 | (scalar & 0x3F) as u8);
    }
    proof {
        vstd::utf8::char_is_scalar(c);
        reveal_with_fuel(encode_utf8, 2);
        assert(seq![c].drop_first() =~= Seq::<char>::empty());
        assert(encode_utf8(Seq::<char>::empty()) =~= Seq::<u8>::empty());
        assert(encode_utf8(seq![c]) =~= vstd::utf8::encode_scalar(c as u32) + encode_utf8(
            seq![c].drop_first(),
        ));
        assert(encode_utf8(seq![c]) =~= vstd::utf8::encode_scalar(c as u32));
    }
}

/// The characters of two strings are equal exactly when their UTF-8 bytes are.
pub fn str_equal(a: &str, b: &str) -> (equal: bool)
    ensures
        equal == (a@ == b@),
{
    let left = a.as_bytes();
    let right = b.as_bytes();
    proof {
        vstd::utf8::encode_utf8_decode_utf8(a@);
        vstd::utf8::encode_utf8_decode_utf8(b@);
    }
    if left.len() != right.len() {
        return false;
    }
    let len = left.len();
    let mut i: usize = 0;
    while i < len
        invariant
            left@ == a.spec_bytes(),
            right@ == b.spec_bytes(),
            len == left@.len(),
            len == right@.len(),
            i <= len,
            forall|j: int| 0 <= j < i ==> left@[j] == right@[j],
        decreases len - i,
    {
        if left[i] != right[i] {
            return false;
        }
        i = i + 1;
    }
    assert(left@ =~= right@);
    true
}

} // verus!
