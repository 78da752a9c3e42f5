//! Names of wallets and aliases.
use vstd::prelude::*;
use vstd::string::*;
use vstd::utf8::*;

verus! {

/// A character that a name can have: an ASCII letter or digit, `_` or `-`.
pub open spec fn name_char(c: char) -> bool {
    'a' <= c <= 'z' || 'A' <= c <= 'Z' || '0' <= c <= '9' || c == '_' || c == '-'
}

/// A name: 1 to 32 such characters.
pub open spec fn is_name(name: Seq<char>) -> bool {
    1 <= name.len() <= 32 && forall|i: int| 0 <= i < name.len() ==> name_char(#[trigger] name[i])
}

/// Tells whether a text is a name.
pub fn valid_name(name: &str) -> (valid: bool)
    ensures
        valid == is_name(name@),
{
    let mut n: usize = 0;
    for c in it: name.chars()
        invariant
            it.seq() == name@,
            n == it.index(),
            n <= 32,
            forall|i: int| 0 <= i < n ==> name_char(#[trigger] name@[i]),
    {
        if n == 32 {
            return false;
        }
        if !(('a' <= c && c <= 'z') || ('A' <= c && c <= 'Z') || ('0' <= c && c <= '9') || c == '_'
            || c == '-') {
            assert(!name_char(name@[n as int]));
            return false;
        }
        n += 1;
    }
    n > 0
}

/// A name has as many bytes as characters, all of them ASCII.
pub proof fn name_bytes(name: Seq<char>)
    requires
        is_name(name),
    ensures
        encode_utf8(name).len() == name.len(),
        valid_utf8(encode_utf8(name)),
        decode_utf8(encode_utf8(name)) == name,
{
    assert(is_ascii_chars(name)) by {
        assert forall|i: int| 0 <= i < name.len() implies #[trigger] (name[i] as u32) < 128 by {
            assert(name_char(name[i]));
        }
    }
    is_ascii_chars_encode_utf8(name);
    encode_utf8_valid_utf8(name);
    encode_utf8_decode_utf8(name);
}

/// The code points that a name can have: ASCII letters of either case, digits, `_` and `-`.
pub open spec fn plain_code(c: u32) -> bool {
    ||| 0x30 <= c <= 0x39
    ||| 0x41 <= c <= 0x5a
    ||| 0x61 <= c <= 0x7a
    ||| c == 0x5f
    ||| c == 0x2d
}

proof fn lemma_plain_code(c: char)
    ensures
        name_char(c) == plain_code(c as u32),
{
    assert('_' as u32 == 0x5f && '-' as u32 == 0x2d);
    assert('0' as u32 == 0x30 && '9' as u32 == 0x39);
    assert('A' as u32 == 0x41 && 'Z' as u32 == 0x5a);
    assert('a' as u32 == 0x61 && 'z' as u32 == 0x7a);
}

/// A name has 1 to 32 characters, all of them ASCII letters of either case, digits, `_` or `-`.
pub proof fn names_are_plain(name: Seq<char>)
    ensures
        is_name(name) == (0 < name.len() <= 32 && forall|i: int|
            0 <= i < name.len() ==> plain_code((#[trigger] name[i]) as u32)),
{
    assert forall|i: int| 0 <= i < name.len() implies name_char(#[trigger] name[i]) == plain_code(
        name[i] as u32,
    ) by {
        lemma_plain_code(name[i]);
    }
}

} // verus!
