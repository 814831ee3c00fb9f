//! The stored value of a word: a JSON array of analyses, kept as bytes and
//! grown by splicing, without parsing what is already there.

use crate::engine::MAX_VALUE_LEN;
use crate::error::StoreFault;
use vstd::prelude::*;

verus! {

/// The byte `[`.
pub const OPEN_BRACKET: u8 = 0x5B;

/// The byte `]`.
pub const CLOSE_BRACKET: u8 = 0x5D;

/// The byte `,`.
pub const COMMA: u8 = 0x2C;

/// The given analyses, separated by commas.
pub open spec fn joined(analyses: Seq<Seq<u8>>) -> Seq<u8>
    decreases analyses.len(),
{
    if analyses.len() == 0 {
        Seq::empty()
    } else if analyses.len() == 1 {
        analyses[0]
    } else {
        joined(analyses.drop_last()) + seq![COMMA] + analyses.last()
    }
}

/// The array of the given analyses: `[`, the analyses separated by commas,
/// `]`, and not a byte more.
pub open spec fn array_of(analyses: Seq<Seq<u8>>) -> Seq<u8> {
    seq![OPEN_BRACKET] + joined(analyses) + seq![CLOSE_BRACKET]
}

/// A stored value to which an analysis can be appended: it ends in `]`.
pub open spec fn is_closed(stored: Seq<u8>) -> bool {
    stored.len() > 0 && stored.last() == CLOSE_BRACKET
}

/// The value of a word after `analysis` has been added to it: a new array of
/// one where the word had none, else the stored bytes with their last byte
/// replaced by a comma, the analysis and `]`.
pub open spec fn merged_value(existing: Option<Seq<u8>>, analysis: Seq<u8>) -> Seq<u8> {
    match existing {
        None => seq![OPEN_BRACKET] + analysis + seq![CLOSE_BRACKET],
        Some(stored) => stored.drop_last() + seq![COMMA] + analysis + seq![CLOSE_BRACKET],
    }
}

/// Why `analysis` cannot be added to `existing`, if it cannot.
pub open spec fn merge_fault(existing: Option<Seq<u8>>, analysis: Seq<u8>) -> Option<StoreFault> {
    if existing is Some && !is_closed(existing->0) {
        Some(StoreFault::UnclosedArray)
    } else if merged_value(existing, analysis).len() > MAX_VALUE_LEN {
        Some(StoreFault::ValueTooLarge)
    } else {
        None
    }
}

/// Appends `source` to `out`.
pub fn push_bytes(out: &mut Vec<u8>, source: &[u8])
    ensures
        final(out)@ == old(out)@ + source@,
{
    let mut i: usize = 0;
    while i < source.len()
        invariant
            i <= source.len(),
            out@ == old(out)@ + source@.take(i as int),
        decreases source.len() - i,
    {
        out.push(source[i]);
        proof {
            assert(source@.take(i + 1) == source@.take(i as int).push(source@[i as int]));
        }
        i += 1;
    }
    proof {
        assert(source@.take(i as int) == source@);
    }
}

/// Computes the value of a word after `analysis` has been added to what is
/// stored for it.
///
/// Fails, and says why, where the stored value does not end in `]` or where
/// the result would be longer than the engine allows; succeeds in every other
/// case.
pub fn merge(existing: &Option<Vec<u8>>, analysis: &[u8]) -> (r: Result<Vec<u8>, StoreFault>)
    ensures
        match r {
            Ok(value) => merge_fault(existing.deep_view(), analysis@) is None && value@
                == merged_value(existing.deep_view(), analysis@),
            Err(fault) => merge_fault(existing.deep_view(), analysis@) == Some(fault),
        },
{
    match existing {
        None => {
            if analysis.len() > MAX_VALUE_LEN - 2 {
                return Err(StoreFault::ValueTooLarge);
            }
            let mut value: Vec<u8> = Vec::new();
            value.push(OPEN_BRACKET);
            push_bytes(&mut value, analysis);
            value.push(CLOSE_BRACKET);
            Ok(value)
        },
        Some(stored) => {
            let n: usize = stored.len();
            if n == 0 || stored[n - 1] != CLOSE_BRACKET {
                return Err(StoreFault::UnclosedArray);
            }
            // The result has `n + 1 + analysis.len()` bytes.
            if n > MAX_VALUE_LEN - 1 || analysis.len() > MAX_VALUE_LEN - 1 - n {
                return Err(StoreFault::ValueTooLarge);
            }
            let mut value: Vec<u8> = Vec::new();
            push_bytes(&mut value, vstd::slice::slice_subrange(stored.as_slice(), 0, n - 1));
            value.push(COMMA);
            push_bytes(&mut value, analysis);
            value.push(CLOSE_BRACKET);
            proof {
                assert(stored@.subrange(0, n - 1) == stored@.drop_last());
            }
            Ok(value)
        },
    }
}

/// Adding to the array of some analyses gives the array of those analyses
/// with the new one at the end; adding where the word has no value gives the
/// array of the new one alone.
pub proof fn lemma_merge_appends(analyses: Seq<Seq<u8>>, analysis: Seq<u8>)
    ensures
        merged_value(None, analysis) == array_of(seq![analysis]),
        analyses.len() > 0 ==> is_closed(array_of(analyses)) && merged_value(
            Some(array_of(analyses)),
            analysis,
        ) == array_of(analyses.push(analysis)),
{
    assert(seq![analysis].len() == 1);
    assert(joined(seq![analysis]) == analysis);
    if analyses.len() > 0 {
        let stored = array_of(analyses);
        let more = analyses.push(analysis);
        assert(more.drop_last() == analyses);
        assert(more.last() == analysis);
        assert(joined(more) == joined(analyses) + seq![COMMA] + analysis);
        assert(stored.drop_last() == seq![OPEN_BRACKET] + joined(analyses));
        assert(merged_value(Some(stored), analysis) == array_of(more));
    }
}

} // verus!
