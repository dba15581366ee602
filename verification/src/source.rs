//! The source text: its bytes, and slices of it taken at ASCII boundaries.
use vstd::prelude::*;
use vstd::string::StringSliceAdditionalSpecFns;
use vstd::utf8::{
    decode_utf8, encode_utf8_decode_utf8, encode_utf8_valid_utf8, is_char_boundary,
    is_char_boundary_iff_not_is_continuation_byte, is_char_boundary_start_end_of_seq,
    is_continuation_byte, pop_first_scalar, valid_utf8, valid_utf8_split,
};

verus! {

/// The source text together with its UTF-8 bytes.
pub struct Input<'src> {
    pub text: &'src str,
    pub bytes: &'src [u8],
}

impl<'src> Input<'src> {
    /// `bytes` are the bytes of `text`.
    pub open spec fn wf(&self) -> bool {
        self.bytes@ == self.text.spec_bytes()
    }

    /// The source text `text`, with its bytes.
    pub fn new(text: &'src str) -> (r: Input<'src>)
        ensures
            r.wf(),
            r.text == text,
    {
        Input { text, bytes: text.as_bytes() }
    }
}

/// In valid UTF-8, the position after an ASCII byte starts a character.
pub proof fn lemma_boundary_after_ascii(bytes: Seq<u8>, i: int)
    requires
        valid_utf8(bytes),
        0 <= i < bytes.len(),
        bytes[i] < 0x80,
    ensures
        is_char_boundary(bytes, i + 1),
{
    lemma_boundary_at_ascii(bytes, i);
    valid_utf8_split(bytes, i);
    let suf = bytes.subrange(i, bytes.len() as int);
    assert(valid_utf8(suf));
    if i + 1 < bytes.len() {
        let suf2 = bytes.subrange(i + 1, bytes.len() as int);
        assert(pop_first_scalar(suf) =~= suf2);
        assert(valid_utf8(suf2));
        assert(suf2[0] == bytes[i + 1]);
        assert(!is_continuation_byte(bytes[i + 1]));
        is_char_boundary_iff_not_is_continuation_byte(bytes, i + 1);
    } else {
        is_char_boundary_start_end_of_seq(bytes);
    }
}

/// In valid UTF-8, an ASCII byte starts a character.
pub proof fn lemma_boundary_at_ascii(bytes: Seq<u8>, i: int)
    requires
        valid_utf8(bytes),
        0 <= i < bytes.len(),
        bytes[i] < 0x80,
    ensures
        is_char_boundary(bytes, i),
{
    is_char_boundary_iff_not_is_continuation_byte(bytes, i);
    assert(!is_continuation_byte(bytes[i]));
}

/// The part of `text` between two character boundaries, given as byte offsets.
pub fn sub_str<'a>(text: &'a str, from: usize, to: usize) -> (r: &'a str)
    requires
        from <= to <= text.spec_bytes().len(),
        is_char_boundary(text.spec_bytes(), from as int),
        is_char_boundary(text.spec_bytes(), to as int),
    ensures
        r.spec_bytes() == text.spec_bytes().subrange(from as int, to as int),
        r@ == decode_utf8(text.spec_bytes().subrange(from as int, to as int)),
{
    broadcast use encode_utf8_valid_utf8, encode_utf8_decode_utf8, valid_utf8_split,
        is_char_boundary_iff_not_is_continuation_byte, is_char_boundary_start_end_of_seq;

    let ghost bytes = text.spec_bytes();
    let (head, _) = text.split_at(to);
    let ghost hb = head.spec_bytes();
    assert(hb == bytes.subrange(0, to as int));
    assert(valid_utf8(hb));
    proof {
        if from < to {
            assert(hb[from as int] == bytes[from as int]);
            is_char_boundary_iff_not_is_continuation_byte(bytes, from as int);
            is_char_boundary_iff_not_is_continuation_byte(hb, from as int);
        } else {
            is_char_boundary_start_end_of_seq(hb);
        }
    }
    assert(is_char_boundary(hb, from as int));
    let (_, mid) = head.split_at(from);
    assert(mid.spec_bytes() =~= bytes.subrange(from as int, to as int));
    assert(mid@ == decode_utf8(mid.spec_bytes()));
    mid
}

} // verus!
