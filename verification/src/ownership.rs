//! Texts that are lent, changed in place, and sliced. The first word of
//! a text is what stands before its first space.

use crate::text::cut;
use crate::text::find_byte;
use crate::text::first_index;
use crate::text::lemma_ascii_absent;
use crate::text::lemma_first_index;
use crate::text::lemma_first_index_is;
use vstd::prelude::*;
use vstd::utf8::encode_utf8;

verus! {

/// The byte that encodes a space.
pub const SPACE: u8 = 32;

/// What [`change_by_reference`] appends.
pub const SUFFIX: &'static str = "content";

/// Appends [`SUFFIX`] to `ss`.
pub fn change_by_reference(ss: &mut String)
    ensures
        final(ss)@ == old(ss)@ + SUFFIX@,
{
    ss.append(SUFFIX);
}

/// Where the first word of `ss` ends: the position, counted in the bytes
/// of its UTF-8 encoding, of the first space, or the length of `ss` in
/// bytes where it holds no space.
pub fn get_end_idx_of_first_word(ss: &String) -> (end: usize)
    ensures
        end == first_index(encode_utf8(ss@), SPACE),
{
    find_byte(ss.as_str().as_bytes(), SPACE)
}

/// The first word of `ss`: what stands before its first space, or all of
/// `ss` where it holds no space.
pub fn get_slice_of_first_word(ss: &str) -> (word: &str)
    ensures
        word@ == ss@.take(first_index(ss@, ' ')),
        encode_utf8(word@) == encode_utf8(ss@).take(first_index(encode_utf8(ss@), SPACE)),
{
    let bytes = ss.as_bytes();
    let end = find_byte(bytes, SPACE);
    proof {
        lemma_first_index(bytes@, SPACE);
    }
    if end < bytes.len() {
        let (word, _) = cut(ss, end);
        proof {
            lemma_ascii_absent(word@, SPACE);
            assert forall|k: int| 0 <= k < word@.len() implies ss@[k] != ' ' by {
                assert(ss@[k] == word@[k]);
                assert(word@[k] as u32 != SPACE);
            }
            assert(ss@[word@.len() as int] == ' ');
            lemma_first_index_is(ss@, ' ', word@.len() as int);
            assert(ss@.take(word@.len() as int) =~= word@);
        }
        word
    } else {
        proof {
            lemma_ascii_absent(ss@, SPACE);
            assert forall|k: int| 0 <= k < ss@.len() implies ss@[k] != ' ' by {
                assert(ss@[k] as u32 != SPACE);
            }
            lemma_first_index_is(ss@, ' ', ss@.len() as int);
            assert(ss@.take(ss@.len() as int) =~= ss@);
            assert(encode_utf8(ss@).take(end as int) =~= encode_utf8(ss@));
        }
        ss
    }
}

} // verus!
