//! What holds of the store as a whole: statements that relate insertions to
//! later queries, and the two queries to each other.

use crate::array::{
    array_of, joined, lemma_merge_appends, merge_fault, CLOSE_BRACKET, COMMA, OPEN_BRACKET,
};
use crate::continuation::{
    continuations, lemma_encode_concat, next_char, response_bytes, with_continuation,
};
use crate::engine::is_prefix_scan;
use crate::error::StoreFault;
use crate::ingest::{analysis_bytes, ingested};
use crate::json::{is_plain, json_string_text, literal_is_known, quoted};
use crate::record::{
    list_text, literals_are_known, literals_of, object_text, stored_analysis_text, texts,
    AnalysisRecord,
};
use crate::scan::{has_scan, keys_are_text, prefix_scan};
use crate::store::{answer_with_cont, lookup_answer, with_analysis, words_with_prefix};
use vstd::prelude::*;
use vstd::string::*;
use vstd::utf8::*;

verus! {

/// The analyses that `log` holds for `word`, in the order of the log.
pub open spec fn analyses_of(log: Seq<(Seq<char>, Seq<u8>)>, word: Seq<char>) -> Seq<Seq<u8>>
    decreases log.len(),
{
    if log.len() == 0 {
        Seq::empty()
    } else if log.last().0 == word {
        analyses_of(log.drop_last(), word).push(log.last().1)
    } else {
        analyses_of(log.drop_last(), word)
    }
}

/// The value of a word is the array of the given analyses; no value stands
/// for no analyses.
pub open spec fn holds_analyses(value: Option<Seq<u8>>, analyses: Seq<Seq<u8>>) -> bool {
    match value {
        None => analyses.len() == 0,
        Some(stored) => analyses.len() > 0 && stored == array_of(analyses),
    }
}

/// The value is the array of one analysis or more.
pub open spec fn is_array(value: Seq<u8>) -> bool {
    exists|analyses: Seq<Seq<u8>>| analyses.len() > 0 && value == #[trigger] array_of(analyses)
}

/// The store as the library leaves it: every key is UTF-8 text, and every
/// value is the array of one analysis or more.
pub open spec fn well_formed(entries: Map<Seq<u8>, Seq<u8>>) -> bool {
    forall|key: Seq<u8>| #[trigger]
        entries.contains_key(key) ==> valid_utf8(key) && is_array(entries[key])
}

/// Different words have different keys.
pub proof fn lemma_keys_differ(a: Seq<char>, b: Seq<char>)
    requires
        a != b,
    ensures
        encode_utf8(a) != encode_utf8(b),
{
    encode_utf8_decode_utf8(a);
    encode_utf8_decode_utf8(b);
}

/// One insertion: the word's analyses grow by the new one, at the end.
pub proof fn lemma_insert_appends(
    entries: Map<Seq<u8>, Seq<u8>>,
    word: Seq<char>,
    analysis: Seq<u8>,
    prior: Seq<Seq<u8>>,
)
    requires
        holds_analyses(lookup_answer(entries, word), prior),
    ensures
        holds_analyses(
            lookup_answer(with_analysis(entries, word, analysis), word),
            prior.push(analysis),
        ),
{
    lemma_merge_appends(prior, analysis);
    if prior.len() == 0 {
        assert(prior.push(analysis) == seq![analysis]);
    }
}

/// One insertion leaves every other word as it was.
pub proof fn lemma_insert_leaves_others(
    entries: Map<Seq<u8>, Seq<u8>>,
    word: Seq<char>,
    analysis: Seq<u8>,
    other: Seq<char>,
)
    requires
        other != word,
    ensures
        lookup_answer(with_analysis(entries, word, analysis), other) == lookup_answer(
            entries,
            other,
        ),
{
    lemma_keys_differ(other, word);
}

/// A well-formed store stays well-formed under insertion.
pub proof fn lemma_insert_keeps_well_formed(
    entries: Map<Seq<u8>, Seq<u8>>,
    word: Seq<char>,
    analysis: Seq<u8>,
)
    requires
        well_formed(entries),
    ensures
        well_formed(with_analysis(entries, word, analysis)),
{
    let key = encode_utf8(word);
    let after = with_analysis(entries, word, analysis);
    let prior: Seq<Seq<u8>> = if entries.contains_key(key) {
        choose|analyses: Seq<Seq<u8>>| analyses.len() > 0 && entries[key] == array_of(analyses)
    } else {
        Seq::empty()
    };
    lemma_merge_appends(prior, analysis);
    if prior.len() == 0 {
        assert(prior.push(analysis) == seq![analysis]);
    }
    assert(after[key] == array_of(prior.push(analysis)));
    assert(is_array(after[key]));
    encode_utf8_valid_utf8(word);
    assert forall|k: Seq<u8>| #[trigger] after.contains_key(k) implies valid_utf8(k) && is_array(
        after[k],
    ) by {
        if k != key {
            assert(entries.contains_key(k));
        }
    }
}

/// A store built from nothing is well-formed.
pub proof fn lemma_build_is_well_formed(log: Seq<(Seq<char>, Seq<u8>)>)
    ensures
        well_formed(ingested(Map::empty(), log)),
    decreases log.len(),
{
    if log.len() > 0 {
        lemma_build_is_well_formed(log.drop_last());
        lemma_insert_keeps_well_formed(
            ingested(Map::empty(), log.drop_last()),
            log.last().0,
            log.last().1,
        );
    }
}

/// A well-formed store shows the library nothing that it cannot use: no
/// value is refused as unclosed, and every key is text.
pub proof fn lemma_well_formed_is_usable(
    entries: Map<Seq<u8>, Seq<u8>>,
    word: Seq<char>,
    analysis: Seq<u8>,
)
    requires
        well_formed(entries),
    ensures
        merge_fault(lookup_answer(entries, word), analysis) != Some(StoreFault::UnclosedArray),
        keys_are_text(entries, encode_utf8(word)),
{
    let key = encode_utf8(word);
    if entries.contains_key(key) {
        let analyses = choose|analyses: Seq<Seq<u8>>|
            analyses.len() > 0 && entries[key] == array_of(analyses);
        lemma_merge_appends(analyses, analysis);
    }
}

/// After a log has been taken in, a word holds what it held before followed
/// by the analyses that the log has for it, in the order of the log: as many
/// more as the log names the word. A word that the log does not name is left
/// as it was.
pub proof fn lemma_ingest_accumulates(
    entries: Map<Seq<u8>, Seq<u8>>,
    log: Seq<(Seq<char>, Seq<u8>)>,
    word: Seq<char>,
    prior: Seq<Seq<u8>>,
)
    requires
        holds_analyses(lookup_answer(entries, word), prior),
    ensures
        holds_analyses(
            lookup_answer(ingested(entries, log), word),
            prior + analyses_of(log, word),
        ),
        analyses_of(log, word).len() == 0 ==> lookup_answer(ingested(entries, log), word)
            == lookup_answer(entries, word),
    decreases log.len(),
{
    if log.len() == 0 {
        assert(prior + analyses_of(log, word) == prior);
    } else {
        let earlier = log.drop_last();
        let held = prior + analyses_of(earlier, word);
        lemma_ingest_accumulates(entries, earlier, word, prior);
        let mid = ingested(entries, earlier);
        if log.last().0 == word {
            lemma_insert_appends(mid, word, log.last().1, held);
            assert(held.push(log.last().1) == prior + analyses_of(log, word));
        } else {
            lemma_insert_leaves_others(mid, log.last().0, log.last().1, word);
        }
    }
}

/// A store built from nothing: a word named `k` times by the log holds the
/// array of its `k` analyses in the order of the log, and a word that the log
/// does not name is absent.
pub proof fn lemma_lookup_after_build(log: Seq<(Seq<char>, Seq<u8>)>, word: Seq<char>)
    ensures
        holds_analyses(
            lookup_answer(ingested(Map::empty(), log), word),
            analyses_of(log, word),
        ),
{
    let none: Seq<Seq<u8>> = Seq::empty();
    lemma_ingest_accumulates(Map::empty(), log, word, none);
    assert(none + analyses_of(log, word) == analyses_of(log, word));
}

/// A word that the store lacks is answered with nothing: not with an empty
/// array, and not with any other value.
pub proof fn lemma_absent_word_has_no_answer(entries: Map<Seq<u8>, Seq<u8>>, word: Seq<char>)
    ensures
        lookup_answer(entries, word) is None <==> !entries.contains_key(encode_utf8(word)),
{
}

/// The analyses that a log holds for a word are analyses of the log.
pub proof fn lemma_analyses_come_from_the_log(
    log: Seq<(Seq<char>, Seq<u8>)>,
    word: Seq<char>,
    k: int,
)
    requires
        0 <= k < analyses_of(log, word).len(),
    ensures
        exists|i: int|
            0 <= i < log.len() && (#[trigger] log[i]).0 == word && log[i].1 == analyses_of(
                log,
                word,
            )[k],
    decreases log.len(),
{
    let earlier = log.drop_last();
    let last = log.len() - 1;
    if log.last().0 == word && k == analyses_of(earlier, word).len() {
        assert(log[last].0 == word && log[last].1 == analyses_of(log, word)[k]);
    } else {
        lemma_analyses_come_from_the_log(earlier, word, k);
        let i = choose|i: int|
            0 <= i < earlier.len() && (#[trigger] earlier[i]).0 == word && earlier[i].1
                == analyses_of(earlier, word)[k];
        assert(log[i].0 == word && log[i].1 == analyses_of(log, word)[k]);
    }
}

/// The array of one analysis or more, none of them empty, is longer than the
/// two brackets: it is not the empty array.
pub proof fn lemma_array_is_not_empty(analyses: Seq<Seq<u8>>)
    requires
        analyses.len() > 0,
        forall|i: int| 0 <= i < analyses.len() ==> (#[trigger] analyses[i]).len() > 0,
    ensures
        array_of(analyses).len() > 2,
        array_of(analyses) != seq![OPEN_BRACKET, CLOSE_BRACKET],
{
    assert(joined(analyses).len() > 0) by {
        if analyses.len() == 1 {
            assert(analyses[0].len() > 0);
        } else {
            assert(analyses.last().len() > 0);
        }
    }
    assert(seq![OPEN_BRACKET, CLOSE_BRACKET].len() == 2);
}

/// A store built from nothing by insertions of analyses, none of them empty,
/// answers an exact query with nothing or with an array that is not empty:
/// never with `[]`.
pub proof fn lemma_built_value_is_not_empty(log: Seq<(Seq<char>, Seq<u8>)>, word: Seq<char>)
    requires
        forall|i: int| 0 <= i < log.len() ==> (#[trigger] log[i]).1.len() > 0,
    ensures
        lookup_answer(ingested(Map::empty(), log), word) matches Some(value) ==> value.len() > 2
            && value != seq![OPEN_BRACKET, CLOSE_BRACKET],
{
    lemma_lookup_after_build(log, word);
    let analyses = analyses_of(log, word);
    if analyses.len() > 0 {
        assert forall|k: int| 0 <= k < analyses.len() implies (#[trigger] analyses[k]).len()
            > 0 by {
            lemma_analyses_come_from_the_log(log, word, k);
        }
        lemma_array_is_not_empty(analyses);
    }
}

/// The bytes stored for a record are never empty.
pub proof fn lemma_analysis_is_not_empty(record: AnalysisRecord)
    ensures
        analysis_bytes(record).len() > 0,
{
    let text = stored_analysis_text(record.stored());
    reveal_strlit("{\"gf\":");
    assert(text.len() > 0);
    assert(encode_utf8(text).len() > 0) by {
        assert(encode_scalar(text[0] as u32).len() > 0);
    }
}

/// The bytes stored for a record are the JSON object with the record's
/// `head` as `gf`, its `id`, its `pos`, its `inhs` in their order as `is`, its
/// `param` as `msd` and its `p`, in this order, each text as a JSON string,
/// without `word`, without `attr` and without white space.
pub proof fn lemma_stored_shape(record: AnalysisRecord)
    ensures
        analysis_bytes(record) == encode_utf8(
            "{\"gf\":"@ + json_string_text(record.head@) + ",\"id\":"@ + json_string_text(
                record.id@,
            ) + ",\"pos\":"@ + json_string_text(record.pos@) + ",\"is\":"@ + list_text(
                literals_of(texts(record.inhs@)),
            ) + ",\"msd\":"@ + json_string_text(record.param@) + ",\"p\":"@ + json_string_text(
                record.p@,
            ) + "}"@,
        ),
        literals_of(texts(record.inhs@)).len() == record.inhs@.len(),
        forall|i: int|
            0 <= i < record.inhs@.len() ==> #[trigger] literals_of(texts(record.inhs@))[i]
                == json_string_text(record.inhs@[i]@),
{
}

/// A log that names a word on no line holds no analysis for it.
pub proof fn lemma_analyses_of_none(log: Seq<(Seq<char>, Seq<u8>)>, word: Seq<char>)
    requires
        forall|k: int| 0 <= k < log.len() ==> (#[trigger] log[k]).0 != word,
    ensures
        analyses_of(log, word) == Seq::<Seq<u8>>::empty(),
    decreases log.len(),
{
    if log.len() > 0 {
        let earlier = log.drop_last();
        assert forall|k: int| 0 <= k < earlier.len() implies (#[trigger] earlier[k]).0 != word by {
            assert(log[k].0 != word);
        }
        lemma_analyses_of_none(earlier, word);
        assert(log[log.len() - 1].0 != word);
    }
}

/// A log that names a word on line `i` alone holds that line's analysis for
/// it.
pub proof fn lemma_analyses_of_one(log: Seq<(Seq<char>, Seq<u8>)>, word: Seq<char>, i: int)
    requires
        0 <= i < log.len(),
        forall|k: int| 0 <= k < log.len() ==> ((#[trigger] log[k]).0 == word <==> k == i),
    ensures
        analyses_of(log, word) == seq![log[i].1],
    decreases log.len(),
{
    let earlier = log.drop_last();
    let last = log.len() - 1;
    if i == last {
        assert forall|k: int| 0 <= k < earlier.len() implies (#[trigger] earlier[k]).0 != word by {
            assert(log[k].0 != word);
        }
        lemma_analyses_of_none(earlier, word);
        assert(log[last].0 == word);
        assert(analyses_of(log, word) == seq![log[i].1]);
    } else {
        assert forall|k: int| 0 <= k < earlier.len() implies ((#[trigger] earlier[k]).0 == word
            <==> k == i) by {
            assert(log[k].0 == word <==> k == i);
        }
        lemma_analyses_of_one(earlier, word, i);
        assert(log[last].0 != word);
    }
}

/// A store built from nothing by a log that names a word on two lines, `i`
/// before `j`, and on no other, holds for the word the array of the two
/// analyses in the order of the lines: `[`, the first, `,`, the second, `]`.
/// Neither replaces the other, also where the two are the same.
pub proof fn lemma_two_lines_same_word(
    log: Seq<(Seq<char>, Seq<u8>)>,
    word: Seq<char>,
    i: int,
    j: int,
)
    requires
        0 <= i < j < log.len(),
        forall|k: int| 0 <= k < log.len() ==> ((#[trigger] log[k]).0 == word <==> k == i || k == j),
    ensures
        lookup_answer(ingested(Map::empty(), log), word) == Some(
            seq![OPEN_BRACKET] + log[i].1 + seq![COMMA] + log[j].1 + seq![CLOSE_BRACKET],
        ),
    decreases log.len(),
{
    let earlier = log.drop_last();
    let last = log.len() - 1;
    if j == last {
        assert forall|k: int| 0 <= k < earlier.len() implies ((#[trigger] earlier[k]).0 == word
            <==> k == i) by {
            assert(log[k].0 == word <==> k == i || k == j);
        }
        lemma_analyses_of_one(earlier, word, i);
        assert(log[last].0 == word);
        assert(analyses_of(log, word) == seq![log[i].1, log[j].1]);
        lemma_lookup_after_build(log, word);
        let two = seq![log[i].1, log[j].1];
        assert(two.drop_last() == seq![log[i].1]);
        assert(joined(seq![log[i].1]) == log[i].1);
        assert(joined(two) == log[i].1 + seq![COMMA] + log[j].1);
        assert(array_of(two) == seq![OPEN_BRACKET] + log[i].1 + seq![COMMA] + log[j].1
            + seq![CLOSE_BRACKET]);
    } else {
        assert forall|k: int| 0 <= k < earlier.len() implies ((#[trigger] earlier[k]).0 == word
            <==> k == i || k == j) by {
            assert(log[k].0 == word <==> k == i || k == j);
        }
        lemma_two_lines_same_word(earlier, word, i, j);
        assert(log[last].0 != word);
        lemma_insert_leaves_others(
            ingested(Map::empty(), earlier),
            log.last().0,
            log.last().1,
            word,
        );
    }
}

/// Taking in two logs one after the other is taking in the two as one.
pub proof fn lemma_ingest_in_parts(
    entries: Map<Seq<u8>, Seq<u8>>,
    first: Seq<(Seq<char>, Seq<u8>)>,
    second: Seq<(Seq<char>, Seq<u8>)>,
)
    ensures
        ingested(ingested(entries, first), second) == ingested(entries, first + second),
    decreases second.len(),
{
    if second.len() == 0 {
        assert(first + second == first);
    } else {
        lemma_ingest_in_parts(entries, first, second.drop_last());
        assert((first + second).drop_last() == first + second.drop_last());
        assert((first + second).last() == second.last());
    }
}

/// The continuations hold no character twice, and hold a character exactly
/// when it is the next character of one of the words.
pub proof fn lemma_continuations_distinct(words: Seq<Seq<char>>, fragment: Seq<char>)
    ensures
        continuations(words, fragment).no_duplicates(),
        forall|c: char|
            continuations(words, fragment).contains(c) <==> exists|i: int|
                0 <= i < words.len() && #[trigger] next_char(words[i], fragment) == Some(c),
    decreases words.len(),
{
    let found = continuations(words, fragment);
    if words.len() == 0 {
    } else {
        let earlier = words.drop_last();
        let before = continuations(earlier, fragment);
        lemma_continuations_distinct(earlier, fragment);
        let last = words.len() - 1;
        assert(found == with_continuation(before, words.last(), fragment));
        assert forall|c: char| found.contains(c) <==> exists|i: int|
            0 <= i < words.len() && #[trigger] next_char(words[i], fragment) == Some(c) by {
            if found.contains(c) {
                if before.contains(c) {
                    let i = choose|i: int|
                        0 <= i < earlier.len() && #[trigger] next_char(earlier[i], fragment)
                            == Some(c);
                    assert(next_char(words[i], fragment) == Some(c));
                } else {
                    let k = choose|k: int| 0 <= k < found.len() && found[k] == c;
                    if k < before.len() {
                        assert(before[k] == c);
                    }
                    assert(next_char(words[last], fragment) == Some(c));
                }
            }
            if exists|i: int|
                0 <= i < words.len() && #[trigger] next_char(words[i], fragment) == Some(c) {
                let i = choose|i: int|
                    0 <= i < words.len() && #[trigger] next_char(words[i], fragment) == Some(c);
                if i < last {
                    assert(next_char(earlier[i], fragment) == Some(c));
                    assert(before.contains(c));
                    let k = choose|k: int| 0 <= k < before.len() && before[k] == c;
                    assert(found[k] == c);
                } else {
                    if before.contains(c) {
                        let k = choose|k: int| 0 <= k < before.len() && before[k] == c;
                        assert(found[k] == c);
                    } else {
                        assert(found[before.len() as int] == c);
                    }
                }
            }
        }
    }
}

/// The continuations that a prefix query reports are the characters `c` for
/// which the store holds a word that is `fragment`, then `c`, then anything;
/// and none is reported twice.
pub proof fn lemma_continuations_of_store(entries: Map<Seq<u8>, Seq<u8>>, fragment: Seq<char>)
    requires
        has_scan(entries, encode_utf8(fragment)),
        keys_are_text(entries, encode_utf8(fragment)),
    ensures
        continuations(words_with_prefix(entries, fragment), fragment).no_duplicates(),
        forall|c: char|
            continuations(words_with_prefix(entries, fragment), fragment).contains(c)
                <==> exists|rest: Seq<char>| #[trigger]
                entries.contains_key(encode_utf8(fragment + seq![c] + rest)),
{
    let prefix = encode_utf8(fragment);
    let keys = prefix_scan(entries, prefix);
    let words = words_with_prefix(entries, fragment);
    let found = continuations(words, fragment);
    let at = fragment.len() as int;
    assert(is_prefix_scan(entries, prefix, keys));
    lemma_continuations_distinct(words, fragment);
    assert forall|c: char| found.contains(c) <==> exists|rest: Seq<char>| #[trigger]
        entries.contains_key(encode_utf8(fragment + seq![c] + rest)) by {
        if found.contains(c) {
            let i = choose|i: int|
                0 <= i < words.len() && #[trigger] next_char(words[i], fragment) == Some(c);
            let word = words[i];
            assert(entries.contains_key(keys[i]) && prefix.is_prefix_of(keys[i]));
            assert(valid_utf8(keys[i]));
            decode_utf8_encode_utf8(keys[i]);
            let rest = word.skip(at + 1);
            assert(word == fragment + seq![c] + rest);
            assert(entries.contains_key(encode_utf8(fragment + seq![c] + rest)));
        }
        if exists|rest: Seq<char>| #[trigger]
            entries.contains_key(encode_utf8(fragment + seq![c] + rest)) {
            let rest = choose|rest: Seq<char>| #[trigger]
                entries.contains_key(encode_utf8(fragment + seq![c] + rest));
            let word = fragment + seq![c] + rest;
            let key = encode_utf8(word);
            assert(word == fragment + (seq![c] + rest));
            lemma_encode_concat(fragment, seq![c] + rest);
            assert(prefix.is_prefix_of(key));
            assert(keys.contains(key));
            let i = choose|i: int| 0 <= i < keys.len() && keys[i] == key;
            encode_utf8_decode_utf8(word);
            assert(words[i] == word);
            assert(next_char(words[i], fragment) == Some(c));
        }
    }
}

/// The answer to a prefix query carries, as its member `a`, exactly what the
/// exact query answers for the same fragment, or `[]` where that is nothing.
pub proof fn lemma_answer_carries_lookup(entries: Map<Seq<u8>, Seq<u8>>, fragment: Seq<char>)
    ensures
        ({
            let head = encode_utf8("{\"a\":"@);
            let exact = match lookup_answer(entries, fragment) {
                Some(stored) => stored,
                None => encode_utf8("[]"@),
            };
            let answer = answer_with_cont(entries, fragment);
            &&& head.is_prefix_of(answer)
            &&& answer.subrange(head.len() as int, (head.len() + exact.len()) as int) == exact
            &&& answer == head + exact + encode_utf8(",\"c\":"@) + encode_utf8(
                json_string_text(continuations(words_with_prefix(entries, fragment), fragment)),
            ) + encode_utf8("}"@)
        }),
{
    let head = encode_utf8("{\"a\":"@);
    let exact = match lookup_answer(entries, fragment) {
        Some(stored) => stored,
        None => encode_utf8("[]"@),
    };
    let answer = answer_with_cont(entries, fragment);
    assert(answer.subrange(0, head.len() as int) == head);
    assert(answer.subrange(head.len() as int, (head.len() + exact.len()) as int) == exact);
}

/// Where the continuations need no escape, the answer to a prefix query
/// holds them as they are between the double quotes of its member `c`.
pub proof fn lemma_plain_continuations_stand_as_they_are(
    exact: Option<Seq<u8>>,
    found: Seq<char>,
)
    requires
        is_plain(found),
        literal_is_known(found),
    ensures
        response_bytes(exact, found) == encode_utf8("{\"a\":"@) + (match exact {
            Some(stored) => stored,
            None => encode_utf8("[]"@),
        }) + encode_utf8(",\"c\":\""@) + encode_utf8(found) + encode_utf8("\"}"@),
{
    let quote = seq!['"'];
    reveal_strlit(",\"c\":");
    reveal_strlit(",\"c\":\"");
    reveal_strlit("}");
    reveal_strlit("\"}");
    assert(",\"c\":\""@ == ",\"c\":"@ + quote);
    assert("\"}"@ == quote + "}"@);
    lemma_encode_concat(",\"c\":"@, quote);
    lemma_encode_concat(quote, "}"@);
    lemma_encode_concat(quote + found, quote);
    lemma_encode_concat(quote, found);
    assert(json_string_text(found) == quote + found + quote);
}

/// Where the texts of a record need no escape, the bytes stored for it hold
/// each of them as it is between double quotes.
pub proof fn lemma_plain_record_stands_as_it_is(record: AnalysisRecord)
    requires
        literals_are_known(record.stored()),
        is_plain(record.head@),
        is_plain(record.id@),
        is_plain(record.pos@),
        is_plain(record.param@),
        is_plain(record.p@),
        forall|i: int| 0 <= i < record.inhs@.len() ==> is_plain(#[trigger] record.inhs@[i]@),
    ensures
        analysis_bytes(record) == encode_utf8(
            object_text(
                quoted(record.head@),
                quoted(record.id@),
                quoted(record.pos@),
                list_text(Seq::new(record.inhs@.len(), |i: int| quoted(record.inhs@[i]@))),
                quoted(record.param@),
                quoted(record.p@),
            ),
        ),
{
    let items = texts(record.inhs@);
    assert(literals_of(items) == Seq::new(record.inhs@.len(), |i: int| quoted(record.inhs@[i]@)))
        by {
        assert forall|i: int| 0 <= i < items.len() implies json_string_text(items[i]) == quoted(
            record.inhs@[i]@,
        ) by {
            assert(is_plain(record.inhs@[i]@));
            assert(literal_is_known(record.stored().is_[i]));
        }
    }
}

/// Reading changes nothing, so reading again answers the same: both answers
/// are functions of what the store holds and of the fragment.
pub proof fn lemma_reads_repeat(
    first: Map<Seq<u8>, Seq<u8>>,
    second: Map<Seq<u8>, Seq<u8>>,
    fragment: Seq<char>,
)
    requires
        first == second,
    ensures
        lookup_answer(first, fragment) == lookup_answer(second, fragment),
        answer_with_cont(first, fragment) == answer_with_cont(second, fragment),
{
}

} // verus!
