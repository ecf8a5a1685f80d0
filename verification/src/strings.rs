use vstd::prelude::*;
use vstd::utf8::{encode_utf8, is_char_boundary, valid_utf8};

verus! {

/// Appends one character to a string, by `String::push`.
/// The contract claims what std documents: the character is added at the end.
#[verifier::external_body]
pub(crate) fn push_char(s: &mut String, c: char)
    ensures
        final(s)@ == old(s)@.push(c),
{
    s.push(c)
}

/// Number of characters of a string.
pub fn char_count(s: &String) -> (n: usize)
    ensures
        n == s@.len(),
{
    s.as_str().unicode_len()
}

/// The characters of `s` from position `from` (inclusive) to `to` (exclusive), as a new string.
pub fn char_slice(s: &String, from: usize, to: usize) -> (r: String)
    requires
        from <= to <= s@.len(),
    ensures
        r@ == s@.subrange(from as int, to as int),
{
    s.as_str().substring_char(from, to).to_owned()
}

/// The concatenation of two strings.
pub fn concat2(a: String, b: &str) -> (r: String)
    ensures
        r@ == a@ + b@,
{
    let mut r = a;
    r.append(b);
    r
}

/// The concatenation of three strings.
pub fn concat3(a: String, b: &str, c: &str) -> (r: String)
    ensures
        r@ == a@ + b@ + c@,
{
    let mut r = a;
    r.append(b);
    r.append(c);
    r
}

/// The UTF-8 encoding of a concatenation is the concatenation of the encodings.
pub proof fn lemma_encode_concat(a: Seq<char>, b: Seq<char>)
    ensures
        encode_utf8(a + b) == encode_utf8(a) + encode_utf8(b),
    decreases a.len(),
{
    if a.len() == 0 {
        assert(a + b =~= b);
        assert(encode_utf8(a) =~= Seq::<u8>::empty());
        assert(encode_utf8(a) + encode_utf8(b) =~= encode_utf8(b));
    } else {
        lemma_encode_concat(a.drop_first(), b);
        assert((a + b).drop_first() =~= a.drop_first() + b);
        assert((a + b)[0] == a[0]);
        assert(encode_utf8(a + b) =~= encode_utf8(a) + encode_utf8(b));
    }
}

/// Number of bytes of the UTF-8 encoding of a string.
pub fn byte_len(s: &String) -> (n: usize)
    ensures
        n == encode_utf8(s@).len(),
{
    s.as_str().as_bytes().len()
}

/// The string cut in two at byte `x`, which must start a character or end the string.
pub fn split_bytes(s: &String, x: usize) -> (r: (String, String))
    requires
        is_char_boundary(encode_utf8(s@), x as int),
    ensures
        encode_utf8(r.0@) == encode_utf8(s@).take(x as int),
        encode_utf8(r.1@) == encode_utf8(s@).skip(x as int),
{
    let (a, b) = s.as_str().split_at(x);
    proof {
        assert(encode_utf8(s@).subrange(0, x as int) =~= encode_utf8(s@).take(x as int));
    }
    (a.to_owned(), b.to_owned())
}

/// A space is encoded as the single byte 32.
pub proof fn lemma_encode_space()
    ensures
        encode_utf8(seq![' ']) == seq![32u8],
{
    assert(seq![' '].drop_first() =~= Seq::<char>::empty());
    assert((32u32 & 0x7Fu32) as u8 == 32u8) by (bit_vector);
    assert(encode_utf8(seq![' ']) =~= seq![32u8]) by {
        reveal_with_fuel(encode_utf8, 2);
    }
}

/// Dropping a final space drops one byte of the encoding.
pub proof fn lemma_encode_drop_space(cs: Seq<char>)
    requires
        cs.len() > 0,
        cs.last() == ' ',
    ensures
        encode_utf8(cs) == encode_utf8(cs.drop_last()) + seq![32u8],
{
    lemma_encode_space();
    assert(cs.drop_last() + seq![' '] =~= cs);
    lemma_encode_concat(cs.drop_last(), seq![' ']);
}

/// A character boundary lies within the bytes.
pub proof fn lemma_boundary_within(b: Seq<u8>, i: int)
    requires
        valid_utf8(b),
        is_char_boundary(b, i),
    ensures
        0 <= i <= b.len(),
{
}

} // verus!
