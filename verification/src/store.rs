//! The store: a keyspace of words, each with the JSON array of its analyses.

use crate::array::{merge, merge_fault, merged_value};
use crate::continuation::{
    add_continuation, continuation_text, continuations, response, response_bytes,
    with_continuation,
};
use crate::engine::{
    database_persist, is_absolute, keyspace_entries, keyspace_get, keyspace_insert,
    keyspace_name, keyspace_prefix, open_database, open_keyspace, scan_next_key, scan_remaining,
    MAX_KEY_LEN,
};
use crate::error::{FjallMorphologyError, StoreFault};
use crate::json::{json_string, literal_is_known};
use crate::scan::{decoded, has_scan, keys_are_text, lemma_scan_unique, prefix_scan};
use crate::text::utf8_text;
use vstd::prelude::*;
use vstd::string::*;
use vstd::utf8::*;

verus! {

/// What is stored under `key`, if anything.
pub open spec fn entry(entries: Map<Seq<u8>, Seq<u8>>, key: Seq<u8>) -> Option<Seq<u8>> {
    if entries.contains_key(key) {
        Some(entries[key])
    } else {
        None
    }
}

/// The answer to an exact query: what is stored under the word, as it is.
pub open spec fn lookup_answer(entries: Map<Seq<u8>, Seq<u8>>, word: Seq<char>) -> Option<
    Seq<u8>,
> {
    entry(entries, encode_utf8(word))
}

/// The entries after `analysis` has been added to `word`: the value of the
/// word is merged, every other entry stays.
pub open spec fn with_analysis(
    entries: Map<Seq<u8>, Seq<u8>>,
    word: Seq<char>,
    analysis: Seq<u8>,
) -> Map<Seq<u8>, Seq<u8>> {
    entries.insert(encode_utf8(word), merged_value(lookup_answer(entries, word), analysis))
}

/// What `insert` may do and report, from the entries before it to the
/// entries after it.
///
/// It succeeds only with the analysis added. A stored value that does not
/// end in `]` is reported as a failed read, and a merged value beyond the
/// engine's limit as a failed write; in both cases, and when the engine fails
/// to read or to write, nothing is changed. A failed flush is reported with
/// the analysis added.
pub open spec fn insert_outcome(
    before: Map<Seq<u8>, Seq<u8>>,
    after: Map<Seq<u8>, Seq<u8>>,
    word: Seq<char>,
    analysis: Seq<u8>,
    r: Result<(), FjallMorphologyError>,
) -> bool {
    let fault = merge_fault(lookup_answer(before, word), analysis);
    match r {
        Ok(()) => fault is None && after == with_analysis(before, word, analysis),
        Err(FjallMorphologyError::CantReadWord { word: named, err }) => {
            &&& named@ == word
            &&& after == before
            &&& err is Engine || (err == StoreFault::UnclosedArray && fault == Some(err))
        },
        Err(FjallMorphologyError::FailedToInsertWord { word: named, err }) => {
            &&& named@ == word
            &&& after == before
            &&& (err is Engine && fault is None) || (err == StoreFault::ValueTooLarge && fault
                == Some(err))
        },
        Err(FjallMorphologyError::FailedToPersistDb(_)) => fault is None && after
            == with_analysis(before, word, analysis),
        Err(_) => false,
    }
}

/// The stored words that begin with `fragment`, in the order of their bytes.
pub open spec fn words_with_prefix(entries: Map<Seq<u8>, Seq<u8>>, fragment: Seq<char>) -> Seq<
    Seq<char>,
> {
    decoded(prefix_scan(entries, encode_utf8(fragment)))
}

/// The answer to a prefix query: what is stored under the fragment itself,
/// and the continuations of the fragment in the stored words.
pub open spec fn answer_with_cont(entries: Map<Seq<u8>, Seq<u8>>, fragment: Seq<char>) -> Seq<u8> {
    response_bytes(
        lookup_answer(entries, fragment),
        continuations(words_with_prefix(entries, fragment), fragment),
    )
}

/// What an exact query answers, given what the engine read: the value that
/// was read, or the engine's failure as a failed read of `fragment`.
pub fn read_answer(fragment: &str, read: Result<Option<Vec<u8>>, fjall::Error>) -> (r: Result<
    Option<Vec<u8>>,
    FjallMorphologyError,
>)
    ensures
        match read {
            Ok(found) => r == Ok::<Option<Vec<u8>>, FjallMorphologyError>(found),
            Err(cause) => r matches Err(FjallMorphologyError::CantReadWord { word, err })
                && word@ == fragment@ && err == StoreFault::Engine(cause),
        },
{
    match read {
        Ok(found) => Ok(found),
        Err(err) => Err(
            FjallMorphologyError::CantReadWord {
                word: String::from_str(fragment),
                err: StoreFault::Engine(err),
            },
        ),
    }
}

/// The value to write for `word` when `analysis` is added to it, given what
/// the engine read for the word.
///
/// A failed read is passed on. A value that was read and does not end in `]`
/// is a failed read too; a merged value beyond the engine's limit is a failed
/// write. In every other case the merged value is returned.
pub fn plan_insert(word: &str, read: Result<Option<Vec<u8>>, fjall::Error>, analysis: &[u8]) -> (r:
    Result<Vec<u8>, FjallMorphologyError>)
    ensures
        match read {
            Err(cause) => r matches Err(FjallMorphologyError::CantReadWord { word: named, err })
                && named@ == word@ && err == StoreFault::Engine(cause),
            Ok(existing) => match merge_fault(existing.deep_view(), analysis@) {
                None => r matches Ok(value) && value@ == merged_value(
                    existing.deep_view(),
                    analysis@,
                ),
                Some(StoreFault::UnclosedArray) => r matches Err(
                    FjallMorphologyError::CantReadWord { word: named, err },
                ) && named@ == word@ && err == StoreFault::UnclosedArray,
                Some(fault) => r matches Err(
                    FjallMorphologyError::FailedToInsertWord { word: named, err },
                ) && named@ == word@ && err == fault,
            },
        },
{
    let existing = match read {
        Ok(existing) => existing,
        Err(err) => {
            return Err(
                FjallMorphologyError::CantReadWord {
                    word: String::from_str(word),
                    err: StoreFault::Engine(err),
                },
            );
        },
    };
    match merge(&existing, analysis) {
        Ok(merged) => Ok(merged),
        Err(StoreFault::UnclosedArray) => Err(
            FjallMorphologyError::CantReadWord {
                word: String::from_str(word),
                err: StoreFault::UnclosedArray,
            },
        ),
        Err(fault) => Err(
            FjallMorphologyError::FailedToInsertWord { word: String::from_str(word), err: fault },
        ),
    }
}

/// What an insertion goes on with, given what the engine made of the write:
/// the flush where the value was written, or the engine's failure as a
/// failed write of `word`.
pub fn write_outcome(word: &str, written: Result<(), fjall::Error>) -> (r: Result<
    (),
    FjallMorphologyError,
>)
    ensures
        match written {
            Ok(()) => r is Ok,
            Err(cause) => r matches Err(FjallMorphologyError::FailedToInsertWord { word: named, err })
                && named@ == word@ && err == StoreFault::Engine(cause),
        },
{
    match written {
        Ok(()) => Ok(()),
        Err(err) => Err(
            FjallMorphologyError::FailedToInsertWord {
                word: String::from_str(word),
                err: StoreFault::Engine(err),
            },
        ),
    }
}

/// What an insertion reports, given what the engine made of the flush that
/// follows the write: success where the journal was flushed to disk, or the
/// engine's failure as a failure to persist.
pub fn flush_outcome(flushed: Result<(), fjall::Error>) -> (r: Result<(), FjallMorphologyError>)
    ensures
        match flushed {
            Ok(()) => r is Ok,
            Err(cause) => r matches Err(FjallMorphologyError::FailedToPersistDb(err)) && err
                == cause,
        },
{
    match flushed {
        Ok(()) => Ok(()),
        Err(err) => Err(FjallMorphologyError::FailedToPersistDb(err)),
    }
}

/// Takes note of one key that a scan by `fragment` handed out.
///
/// A key that the engine failed to read, and one that is not UTF-8 text, fail
/// the scan and leave the continuations as they were. The next character of
/// any other key joins the continuations.
pub fn note_key(found: &mut Vec<char>, fragment: &str, key: Result<Vec<u8>, fjall::Error>) -> (r:
    Result<(), FjallMorphologyError>)
    ensures
        match key {
            Err(cause) => {
                &&& final(found)@ == old(found)@
                &&& r matches Err(FjallMorphologyError::FailedToReadPrefixForWord { word, err })
                &&& word@ == fragment@
                &&& err == StoreFault::Engine(cause)
            },
            Ok(bytes) => if valid_utf8(bytes@) {
                r is Ok && final(found)@ == with_continuation(
                    old(found)@,
                    decode_utf8(bytes@),
                    fragment@,
                )
            } else {
                &&& final(found)@ == old(found)@
                &&& r matches Err(FjallMorphologyError::FailedToReadPrefixForWord { word, err })
                &&& word@ == fragment@
                &&& err == StoreFault::KeyNotText
            },
        },
{
    let bytes = match key {
        Ok(bytes) => bytes,
        Err(err) => {
            return Err(
                FjallMorphologyError::FailedToReadPrefixForWord {
                    word: String::from_str(fragment),
                    err: StoreFault::Engine(err),
                },
            );
        },
    };
    match utf8_text(bytes.as_slice()) {
        None => Err(
            FjallMorphologyError::FailedToReadPrefixForWord {
                word: String::from_str(fragment),
                err: StoreFault::KeyNotText,
            },
        ),
        Some(word) => {
            proof {
                encode_utf8_valid_utf8(word@);
                encode_utf8_decode_utf8(word@);
            }
            add_continuation(found, word, fragment);
            Ok(())
        },
    }
}

/// The database to go on with, given what the engine made of opening
/// `folder`: the database that was opened, or the engine's failure as a
/// failure to open `folder`.
pub fn opened_database(folder: &str, opened: Result<fjall::Database, fjall::Error>) -> (r: Result<
    fjall::Database,
    FjallMorphologyError,
>)
    ensures
        match opened {
            Ok(database) => r == Ok::<fjall::Database, FjallMorphologyError>(database),
            Err(cause) => r matches Err(FjallMorphologyError::CantOpenDatabase { folder: named, err })
                && named@ == folder@ && err == cause,
        },
{
    match opened {
        Ok(database) => Ok(database),
        Err(err) => Err(
            FjallMorphologyError::CantOpenDatabase { folder: String::from_str(folder), err },
        ),
    }
}

/// The keyspace to go on with, given what the engine made of opening it: the
/// keyspace that was opened, or the engine's failure as a failure to create
/// the keyspace.
pub fn opened_keyspace(opened: Result<fjall::Keyspace, fjall::Error>) -> (r: Result<
    fjall::Keyspace,
    FjallMorphologyError,
>)
    ensures
        match opened {
            Ok(keyspace) => r == Ok::<fjall::Keyspace, FjallMorphologyError>(keyspace),
            Err(cause) => r matches Err(FjallMorphologyError::CantCreateKeyspace(err)) && err
                == cause,
        },
{
    match opened {
        Ok(keyspace) => Ok(keyspace),
        Err(err) => Err(FjallMorphologyError::CantCreateKeyspace(err)),
    }
}

/// A store of morphological analyses in a folder on disk.
pub struct FjallMorphology {
    db: fjall::Database,
    saldo_morph: fjall::Keyspace,
}

impl View for FjallMorphology {
    type V = Map<Seq<u8>, Seq<u8>>;

    /// The entries of the store: the UTF-8 bytes of each word with the bytes
    /// of its value.
    closed spec fn view(&self) -> Map<Seq<u8>, Seq<u8>> {
        keyspace_entries(self.saldo_morph)
    }
}

impl FjallMorphology {
    /// The name of the keyspace that holds the entries of the store.
    pub closed spec fn keyspace(&self) -> Seq<char> {
        keyspace_name(self.saldo_morph)
    }

    /// Opens the store in `folder`, creating it if there is none.
    ///
    /// The store that is returned is on the keyspace `saldo_morph` of the
    /// database in `folder`; what it holds is whatever was stored there
    /// before. The engine decides whether the database and the keyspace are
    /// opened: a database that is not is reported with the folder, a keyspace
    /// that is not as one that could not be created. The folder is to be
    /// named by an absolute path: the engine gives up on an empty one, and on
    /// a relative one where the process has no current directory.
    pub fn new(folder: &str) -> (r: Result<Self, FjallMorphologyError>)
        requires
            is_absolute(folder@),
        ensures
            match r {
                Ok(store) => store.keyspace() == "saldo_morph"@,
                Err(FjallMorphologyError::CantOpenDatabase { folder: named, err }) => named@
                    == folder@,
                Err(FjallMorphologyError::CantCreateKeyspace(_)) => true,
                Err(_) => false,
            },
    {
        let db = match opened_database(folder, open_database(folder)) {
            Ok(db) => db,
            Err(err) => {
                return Err(err);
            },
        };
        proof {
            reveal_strlit("saldo_morph");
            assert(is_ascii("saldo_morph"));
            is_ascii_spec_bytes("saldo_morph");
        }
        let saldo_morph = match opened_keyspace(open_keyspace(&db, "saldo_morph")) {
            Ok(keyspace) => keyspace,
            Err(err) => {
                return Err(err);
            },
        };
        Ok(FjallMorphology { db, saldo_morph })
    }

    /// Adds `value`, the JSON text of one analysis, to the analyses of `word`,
    /// and flushes the store to disk: one flush for every insertion, before
    /// the insertion returns, whose failure is reported as `flush_outcome`
    /// says.
    ///
    /// The engine takes keys of 1 to 65535 bytes.
    pub fn insert(&mut self, word: &str, value: String) -> (r: Result<(), FjallMorphologyError>)
        requires
            0 < word.spec_bytes().len() <= MAX_KEY_LEN,
        ensures
            insert_outcome(old(self)@, final(self)@, word@, encode_utf8(value@), r),
            final(self).keyspace() == old(self).keyspace(),
    {
        let key = word.as_bytes();
        let read = keyspace_get(&self.saldo_morph, key);
        proof {
            if read is Ok {
                assert(read->Ok_0.deep_view() =~= lookup_answer(self@, word@));
            }
        }
        let merged = match plan_insert(word, read, value.as_str().as_bytes()) {
            Ok(merged) => merged,
            Err(err) => {
                return Err(err);
            },
        };
        let written = keyspace_insert(&mut self.saldo_morph, key, merged.as_slice());
        match write_outcome(word, written) {
            Ok(()) => {},
            Err(err) => {
                return Err(err);
            },
        }
        flush_outcome(database_persist(&self.db))
    }

    /// Reads what is stored under `fragment`: the JSON array of its analyses
    /// as it is stored, or nothing where the store has no such word.
    ///
    /// The engine takes keys of up to 65535 bytes.
    pub fn lookup(&self, fragment: &str) -> (r: Result<Option<Vec<u8>>, FjallMorphologyError>)
        requires
            fragment.spec_bytes().len() <= MAX_KEY_LEN,
        ensures
            match r {
                Ok(found) => found.deep_view() == lookup_answer(self@, fragment@),
                Err(FjallMorphologyError::CantReadWord { word, err }) => word@ == fragment@
                    && err is Engine,
                Err(_) => false,
            },
    {
        read_answer(fragment, keyspace_get(&self.saldo_morph, fragment.as_bytes()))
    }

    /// Answers a prefix query: the analyses stored under `fragment` itself,
    /// with the characters that follow `fragment` in the stored words.
    ///
    /// The answer is a function of what the store holds. It is given whenever
    /// the engine serves the scan and the read and every stored word that
    /// begins with `fragment` is UTF-8 text. The engine takes prefixes of up
    /// to 65535 bytes.
    pub fn lookup_with_cont(&self, fragment: &str) -> (r: Result<Vec<u8>, FjallMorphologyError>)
        requires
            fragment.spec_bytes().len() <= MAX_KEY_LEN,
        ensures
            match r {
                Ok(bytes) => {
                    &&& has_scan(self@, encode_utf8(fragment@))
                    &&& keys_are_text(self@, encode_utf8(fragment@))
                    &&& bytes@ == answer_with_cont(self@, fragment@)
                    &&& literal_is_known(
                        continuations(words_with_prefix(self@, fragment@), fragment@),
                    )
                },
                Err(FjallMorphologyError::FailedToReadPrefixForWord { word, err }) => {
                    &&& word@ == fragment@
                    &&& err is Engine || (err == StoreFault::KeyNotText && !keys_are_text(
                        self@,
                        encode_utf8(fragment@),
                    ))
                },
                Err(FjallMorphologyError::CantReadWord { word, err }) => word@ == fragment@
                    && err is Engine && keys_are_text(self@, encode_utf8(fragment@)),
                Err(_) => false,
            },
    {
        let prefix = fragment.as_bytes();
        let mut scan = keyspace_prefix(&self.saldo_morph, prefix);
        let ghost keys = scan_remaining(scan);
        proof {
            lemma_scan_unique(self@, prefix@, keys);
        }
        let ghost mut seen: int = 0;
        let mut found: Vec<char> = Vec::new();
        let mut more: bool = true;
        while more
            invariant
                0 <= seen <= keys.len(),
                more ==> scan_remaining(scan) == keys.skip(seen),
                !more ==> seen == keys.len(),
                forall|i: int| 0 <= i < seen ==> valid_utf8(#[trigger] keys[i]),
                forall|i: int|
                    0 <= i < keys.len() ==> self@.contains_key(#[trigger] keys[i])
                        && prefix@.is_prefix_of(keys[i]),
                prefix@ == encode_utf8(fragment@),
                found@ == continuations(decoded(keys.take(seen)), fragment@),
            decreases keys.len() - seen, if more { 1nat } else { 0nat },
        {
            match scan_next_key(&mut scan) {
                None => {
                    more = false;
                },
                Some(key) => {
                    match note_key(&mut found, fragment, key) {
                        Ok(()) => {},
                        Err(err) => {
                            return Err(err);
                        },
                    }
                    proof {
                        let next = decoded(keys.take(seen + 1));
                        assert(next.drop_last() == decoded(keys.take(seen)));
                        assert(next.last() == decode_utf8(keys[seen]));
                        assert(keys.skip(seen).drop_first() == keys.skip(seen + 1));
                        seen = seen + 1;
                    }
                },
            }
        }
        proof {
            assert(keys.take(seen) == keys);
            assert forall|key: Seq<u8>|
                self@.contains_key(key) && prefix@.is_prefix_of(key) implies #[trigger] valid_utf8(
                key,
            ) by {
                assert(keys.contains(key));
            }
        }
        let exact = match read_answer(fragment, keyspace_get(&self.saldo_morph, prefix)) {
            Ok(exact) => exact,
            Err(err) => {
                return Err(err);
            },
        };
        proof {
            assert(exact.deep_view() =~= lookup_answer(self@, fragment@));
        }
        let text = continuation_text(&found);
        let c = match json_string(text.as_str()) {
            Ok(c) => c,
            Err(err) => {
                return Err(FjallMorphologyError::JsonSerialize(err));
            },
        };
        Ok(response(&exact, c.as_str()))
    }
}

} // verus!
