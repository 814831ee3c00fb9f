//! Building the store from a lexicon, line by line.

use crate::engine::MAX_KEY_LEN;
use crate::error::FjallMorphologyError;
use crate::record::{literals_are_known, stored_analysis_text, AnalysisRecord};
use crate::store::{insert_outcome, with_analysis, FjallMorphology};
use vstd::prelude::*;
use vstd::string::*;
use vstd::utf8::*;

verus! {

/// The bytes stored for a record: the JSON text of its stored shape.
pub open spec fn analysis_bytes(record: AnalysisRecord) -> Seq<u8> {
    encode_utf8(stored_analysis_text(record.stored()))
}

/// A word that the engine takes as a key: 1 to 65535 bytes of UTF-8.
pub open spec fn is_key(word: Seq<char>) -> bool {
    0 < encode_utf8(word).len() <= MAX_KEY_LEN
}

/// Every line was read as a record.
pub open spec fn all_parsed(lines: Seq<Result<AnalysisRecord, serde_json::Error>>) -> bool {
    forall|i: int| 0 <= i < lines.len() ==> (#[trigger] lines[i]) is Ok
}

/// Every record that stands before the first line that is none has a word
/// that the engine takes as a key. Of the lines after such a line nothing is
/// asked: they are never taken in.
pub open spec fn keys_in_reach(lines: Seq<Result<AnalysisRecord, serde_json::Error>>) -> bool {
    forall|i: int|
        0 <= i < lines.len() && all_parsed(lines.take(i + 1)) ==> is_key(
            (#[trigger] lines[i])->Ok_0.word@,
        )
}

/// What is known of the literals of the records among the lines, without
/// asking the serializer.
pub open spec fn lines_are_known(lines: Seq<Result<AnalysisRecord, serde_json::Error>>) -> bool {
    forall|i: int|
        0 <= i < lines.len() ==> ((#[trigger] lines[i]) matches Ok(record) ==> literals_are_known(
            record.stored(),
        ))
}

/// What the lines ask to store: for each record among them, in order, its
/// word and the bytes of its analysis.
pub open spec fn log_of(lines: Seq<Result<AnalysisRecord, serde_json::Error>>) -> Seq<
    (Seq<char>, Seq<u8>),
>
    decreases lines.len(),
{
    if lines.len() == 0 {
        Seq::empty()
    } else {
        match lines.last() {
            Ok(record) => log_of(lines.drop_last()).push((record.word@, analysis_bytes(record))),
            Err(_) => log_of(lines.drop_last()),
        }
    }
}

/// The entries after every item of `log` has been added, first to last.
pub open spec fn ingested(entries: Map<Seq<u8>, Seq<u8>>, log: Seq<(Seq<char>, Seq<u8>)>) -> Map<
    Seq<u8>,
    Seq<u8>,
>
    decreases log.len(),
{
    if log.len() == 0 {
        entries
    } else {
        with_analysis(ingested(entries, log.drop_last()), log.last().0, log.last().1)
    }
}

/// What taking in one line may do and report.
///
/// A line that was not read as a record is reported with its number, the
/// lexicon's path and the reader's error, and changes nothing. A record is
/// inserted under its word, as `insert_outcome` says, with the JSON text of
/// its stored shape as the analysis.
pub open spec fn line_outcome(
    before: Map<Seq<u8>, Seq<u8>>,
    after: Map<Seq<u8>, Seq<u8>>,
    line: usize,
    path: Seq<char>,
    parsed: Result<AnalysisRecord, serde_json::Error>,
    r: Result<(), FjallMorphologyError>,
) -> bool {
    match parsed {
        Err(cause) => {
            &&& after == before
            &&& r matches Err(FjallMorphologyError::JsonDeserialize { line: at, path: named, err })
            &&& at == line
            &&& named@ == path
            &&& err == cause
        },
        Ok(record) => insert_outcome(before, after, record.word@, analysis_bytes(record), r),
    }
}

impl FjallMorphology {
    /// Takes in line `line` of the lexicon `path`, as the reader hands it
    /// over: the record, or the reason why the line is none.
    pub fn ingest_line(
        &mut self,
        line: usize,
        path: &str,
        parsed: Result<AnalysisRecord, serde_json::Error>,
    ) -> (r: Result<(), FjallMorphologyError>)
        requires
            parsed matches Ok(record) ==> is_key(record.word@),
        ensures
            line_outcome(old(self)@, final(self)@, line, path@, parsed, r),
            parsed matches Ok(record) ==> literals_are_known(record.stored()),
            final(self).keyspace() == old(self).keyspace(),
    {
        match parsed {
            Err(err) => Err(
                FjallMorphologyError::JsonDeserialize { line, path: String::from_str(path), err },
            ),
            Ok(record) => {
                let (word, analysis) = record.into_entry();
                match analysis.to_json() {
                    Err(err) => Err(FjallMorphologyError::JsonSerialize(err)),
                    Ok(value) => self.insert(word.as_str(), value),
                }
            },
        }
    }

    /// Builds the store from the lexicon `path`, whose lines are handed over
    /// as they were read: takes them in first to last, and stops at the first
    /// that fails.
    ///
    /// On success every line was a record and all were inserted. On failure
    /// the lines before the failing one were inserted, and the failing one
    /// left the store as `line_outcome` says for its error. The engine takes
    /// keys of 1 to 65535 bytes, which is asked of every record that can be
    /// reached.
    pub fn build_from_path(
        &mut self,
        path: &str,
        records: Vec<Result<AnalysisRecord, serde_json::Error>>,
    ) -> (r: Result<(), FjallMorphologyError>)
        requires
            keys_in_reach(records@),
        ensures
            final(self).keyspace() == old(self).keyspace(),
            match r {
                Ok(()) => all_parsed(records@) && lines_are_known(records@) && final(self)@
                    == ingested(old(self)@, log_of(records@)),
                Err(_) => exists|n: int|
                    0 <= n < records.len() && all_parsed(records@.take(n)) && lines_are_known(
                        records@.take(n + 1),
                    ) && #[trigger] line_outcome(
                        ingested(old(self)@, log_of(records@.take(n))),
                        final(self)@,
                        n as usize,
                        path@,
                        records@[n],
                        r,
                    ),
            },
    {
        let ghost lines = records@;
        let ghost start = self@;
        let total: usize = records.len();
        let mut line: usize = 0;
        for parsed in iter: records.into_iter()
            invariant
                iter.seq() == lines,
                lines == records@,
                lines.len() == total,
                start == old(self)@,
                self.keyspace() == old(self).keyspace(),
                line == iter.index(),
                all_parsed(lines.take(line as int)),
                lines_are_known(lines.take(line as int)),
                self@ == ingested(start, log_of(lines.take(line as int))),
                keys_in_reach(lines),
        {
            assert(parsed == lines[line as int]);
            proof {
                if parsed is Ok {
                    let next = lines.take(line + 1);
                    assert forall|k: int| 0 <= k < next.len() implies (#[trigger] next[k]) is Ok by {
                        if k < line {
                            assert(lines.take(line as int)[k] is Ok);
                        }
                    }
                    assert(is_key(lines[line as int]->Ok_0.word@));
                }
            }
            let r = self.ingest_line(line, path, parsed);
            match r {
                Ok(()) => {},
                Err(err) => {
                    proof {
                        let n = line as int;
                        assert(0 <= n < records.len());
                        assert(n as usize == line);
                        assert(all_parsed(records@.take(n)));
                        assert(lines_are_known(records@.take(n + 1))) by {
                            let next = records@.take(n + 1);
                            assert forall|k: int| 0 <= k < next.len() implies ((
                            #[trigger] next[k]) matches Ok(record) ==> literals_are_known(
                                record.stored(),
                            )) by {
                                if k < n {
                                    assert(lines.take(line as int)[k] == next[k]);
                                }
                            }
                        }
                        assert(line_outcome(
                            ingested(old(self)@, log_of(records@.take(n))),
                            self@,
                            n as usize,
                            path@,
                            records@[n],
                            r,
                        ));
                    }
                    return Err(err);
                },
            }
            proof {
                let next = lines.take(line + 1);
                assert(next.drop_last() == lines.take(line as int));
                assert(next.last() == lines[line as int]);
                let log = log_of(lines.take(line as int));
                let item = (parsed->Ok_0.word@, analysis_bytes(parsed->Ok_0));
                assert(log_of(next) == log.push(item));
                assert(log.push(item).drop_last() == log);
                assert(log.push(item).last() == item);
                assert forall|k: int| 0 <= k < next.len() implies ((#[trigger] next[k]) matches Ok(
                    record,
                ) ==> literals_are_known(record.stored())) by {
                    if k < line {
                        assert(lines.take(line as int)[k] == next[k]);
                    }
                }
            }
            line += 1;
        }
        proof {
            assert(lines.take(line as int) == lines);
        }
        Ok(())
    }
}

} // verus!
