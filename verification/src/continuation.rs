//! Continuations: the characters that can follow a fragment, read off the
//! stored words that begin with it, and the answer that carries them.

use crate::array::push_bytes;
use crate::json::json_string_text;
use crate::text::string_push;
use vstd::prelude::*;
use vstd::string::*;
use vstd::utf8::*;

verus! {

/// The character that follows `fragment` in `word`, where `word` begins with
/// `fragment` and goes on.
pub open spec fn next_char(word: Seq<char>, fragment: Seq<char>) -> Option<char> {
    if fragment.is_prefix_of(word) && word.len() > fragment.len() {
        Some(word[fragment.len() as int])
    } else {
        None
    }
}

/// The continuations found so far, after `word` has been looked at: its next
/// character joins them at the end unless it is among them already.
pub open spec fn with_continuation(found: Seq<char>, word: Seq<char>, fragment: Seq<char>) -> Seq<
    char,
> {
    match next_char(word, fragment) {
        Some(c) => if found.contains(c) {
            found
        } else {
            found.push(c)
        },
        None => found,
    }
}

/// The continuations of `fragment` in `words`: the next characters of the
/// words, each once, in the order in which the words first show them.
pub open spec fn continuations(words: Seq<Seq<char>>, fragment: Seq<char>) -> Seq<char>
    decreases words.len(),
{
    if words.len() == 0 {
        Seq::empty()
    } else {
        with_continuation(continuations(words.drop_last(), fragment), words.last(), fragment)
    }
}

/// A JSON object of two members, without white space: `a` is the array
/// stored for the fragment itself, or `[]` where none is stored, and `c` is
/// the given text, which is to be a JSON value already.
pub open spec fn answer_bytes(exact: Option<Seq<u8>>, c: Seq<char>) -> Seq<u8> {
    encode_utf8("{\"a\":"@) + (match exact {
        Some(stored) => stored,
        None => encode_utf8("[]"@),
    }) + encode_utf8(",\"c\":"@) + encode_utf8(c) + encode_utf8("}"@)
}

/// The answer to a prefix query: a JSON object whose member `a` is the array
/// stored for the fragment itself, or `[]` where none is stored, and whose
/// member `c` is the JSON string of the continuations.
pub open spec fn response_bytes(exact: Option<Seq<u8>>, found: Seq<char>) -> Seq<u8> {
    answer_bytes(exact, json_string_text(found))
}

/// A text whose bytes begin with the bytes of `fragment` begins with
/// `fragment`.
pub proof fn lemma_byte_prefix_is_char_prefix(word: Seq<char>, fragment: Seq<char>)
    requires
        encode_utf8(fragment).is_prefix_of(encode_utf8(word)),
    ensures
        fragment.is_prefix_of(word),
    decreases fragment.len(),
{
    if fragment.len() > 0 {
        let fb = encode_utf8(fragment);
        let wb = encode_utf8(word);
        encode_utf8_first_scalar(fragment);
        let len = length_of_first_scalar(fb);
        assert(fb.len() >= len && len >= 1);
        assert(word.len() > 0);
        encode_utf8_first_scalar(word);
        assert(forall|i: int| 0 <= i < fb.len() ==> fb[i] == wb.subrange(0, fb.len() as int)[i]);
        assert(wb[0] == fb[0]);
        assert(len >= 2 ==> wb[1] == fb[1]);
        assert(len >= 3 ==> wb[2] == fb[2]);
        assert(len >= 4 ==> wb[3] == fb[3]);
        assert(decode_first_scalar(wb) == decode_first_scalar(fb));
        char_u32_cast(word[0], word[0] as u32);
        char_u32_cast(fragment[0], fragment[0] as u32);
        assert(word[0] == fragment[0]);
        assert(encode_utf8(fragment.drop_first()) == fb.subrange(len, fb.len() as int));
        assert(encode_utf8(word.drop_first()) == wb.subrange(len, wb.len() as int));
        assert(encode_utf8(fragment.drop_first()).is_prefix_of(encode_utf8(word.drop_first())));
        lemma_byte_prefix_is_char_prefix(word.drop_first(), fragment.drop_first());
        assert(fragment.is_prefix_of(word)) by {
            let f1 = fragment.drop_first();
            let w1 = word.drop_first();
            assert(forall|i: int|
                0 <= i < f1.len() ==> f1[i] == w1.subrange(0, f1.len() as int)[i]);
            assert(forall|i: int| 1 <= i < fragment.len() ==> fragment[i] == f1[i - 1]);
            assert(fragment =~= word.subrange(0, fragment.len() as int));
        }
    }
}

/// The bytes of two texts put together are the bytes of the one followed by
/// the bytes of the other.
pub proof fn lemma_encode_concat(a: Seq<char>, b: Seq<char>)
    ensures
        encode_utf8(a + b) == encode_utf8(a) + encode_utf8(b),
    decreases a.len(),
{
    if a.len() == 0 {
        assert(a + b == b);
    } else {
        lemma_encode_concat(a.drop_first(), b);
        assert((a + b).drop_first() == a.drop_first() + b);
    }
}

/// A text that begins with `fragment` has bytes that begin with the bytes of
/// `fragment`.
pub proof fn lemma_char_prefix_is_byte_prefix(word: Seq<char>, fragment: Seq<char>)
    requires
        fragment.is_prefix_of(word),
    ensures
        encode_utf8(fragment).is_prefix_of(encode_utf8(word)),
{
    let rest = word.skip(fragment.len() as int);
    assert(word == fragment + rest);
    lemma_encode_concat(fragment, rest);
}

/// Whether `bytes` begins with `prefix`.
pub fn starts_with(bytes: &[u8], prefix: &[u8]) -> (r: bool)
    ensures
        r == prefix@.is_prefix_of(bytes@),
{
    if prefix.len() > bytes.len() {
        return false;
    }
    let mut i: usize = 0;
    while i < prefix.len()
        invariant
            i <= prefix.len() <= bytes.len(),
            forall|j: int| 0 <= j < i ==> prefix@[j] == bytes@[j],
        decreases prefix.len() - i,
    {
        if prefix[i] != bytes[i] {
            proof {
                assert(bytes@.subrange(0, prefix@.len() as int)[i as int] != prefix@[i as int]);
            }
            return false;
        }
        i += 1;
    }
    proof {
        assert(prefix@ =~= bytes@.subrange(0, prefix@.len() as int));
    }
    true
}

/// Looks at one stored word and adds its next character after `fragment`, if
/// it has one, to the continuations found so far.
pub fn add_continuation(found: &mut Vec<char>, word: &str, fragment: &str)
    ensures
        final(found)@ == with_continuation(old(found)@, word@, fragment@),
{
    if !starts_with(word.as_bytes(), fragment.as_bytes()) {
        proof {
            if fragment@.is_prefix_of(word@) {
                lemma_char_prefix_is_byte_prefix(word@, fragment@);
            }
        }
        return;
    }
    proof {
        lemma_byte_prefix_is_char_prefix(word@, fragment@);
    }
    let at: usize = fragment.unicode_len();
    if word.unicode_len() > at {
        let c: char = word.get_char(at);
        let mut known: bool = false;
        let mut i: usize = 0;
        while i < found.len()
            invariant
                i <= found.len(),
                known <==> found@.take(i as int).contains(c),
            decreases found.len() - i,
        {
            if found[i] == c {
                known = true;
            }
            proof {
                assert(found@.take(i + 1) == found@.take(i as int).push(found@[i as int]));
                if found@.take(i as int).contains(c) {
                    let j = choose|j: int|
                        0 <= j < found@.take(i as int).len() && found@.take(i as int)[j] == c;
                    assert(found@.take(i + 1)[j] == c);
                }
                if found@[i as int] == c {
                    assert(found@.take(i + 1)[i as int] == c);
                }
            }
            i += 1;
        }
        proof {
            assert(found@.take(i as int) == found@);
        }
        if !known {
            found.push(c);
        }
    }
}

/// The continuations as one text.
pub fn continuation_text(found: &Vec<char>) -> (text: String)
    ensures
        text@ == found@,
{
    let mut text = String::new();
    let mut i: usize = 0;
    while i < found.len()
        invariant
            i <= found.len(),
            text@ == found@.take(i as int),
        decreases found.len() - i,
    {
        string_push(&mut text, found[i]);
        proof {
            assert(found@.take(i + 1) == found@.take(i as int).push(found@[i as int]));
        }
        i += 1;
    }
    proof {
        assert(found@.take(i as int) == found@);
    }
    text
}

/// Puts the answer to a prefix query together, from what is stored under the
/// fragment and the JSON string of the continuations.
pub fn response(exact: &Option<Vec<u8>>, c: &str) -> (bytes: Vec<u8>)
    ensures
        bytes@ == answer_bytes(exact.deep_view(), c@),
{
    let mut bytes: Vec<u8> = Vec::new();
    push_bytes(&mut bytes, "{\"a\":".as_bytes());
    match exact {
        Some(stored) => push_bytes(&mut bytes, stored.as_slice()),
        None => push_bytes(&mut bytes, "[]".as_bytes()),
    }
    push_bytes(&mut bytes, ",\"c\":".as_bytes());
    push_bytes(&mut bytes, c.as_bytes());
    push_bytes(&mut bytes, "}".as_bytes());
    bytes
}

} // verus!
