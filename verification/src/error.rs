//! What can go wrong, and how it is put into words.

use crate::engine::engine_error_text;
use crate::json::json_error_text;
use crate::text::{decimal_text, io_error_text, push_decimal};
use vstd::prelude::*;
use vstd::string::*;

verus! {

/// Why the store could not serve a read or a write.
#[derive(Debug)]
pub enum StoreFault {
    /// The storage engine reported a failure.
    Engine(fjall::Error),
    /// The value stored under the word does not end in a closing bracket, so
    /// nothing can be appended to it.
    UnclosedArray,
    /// The value would grow beyond what the engine can hold.
    ValueTooLarge,
    /// A stored key is not UTF-8 text.
    KeyNotText,
}

/// Every failure of the library.
#[derive(Debug)]
#[allow(inconsistent_fields)]
pub enum FjallMorphologyError {
    /// The database in `folder` could not be opened or created.
    CantOpenDatabase { folder: String, err: fjall::Error },
    /// The database is open but would not give the keyspace.
    CantCreateKeyspace(fjall::Error),
    /// Reading the entry of `word` failed.
    CantReadWord { word: String, err: StoreFault },
    /// Scanning the keys that begin with `word` failed.
    FailedToReadPrefixForWord { word: String, err: StoreFault },
    /// Writing the entry of `word` failed.
    FailedToInsertWord { word: String, err: StoreFault },
    /// The write went through but the flush to disk failed.
    FailedToPersistDb(fjall::Error),
    /// A failure of the file system outside the store.
    Io(std::io::Error),
    /// Line `line` of the lexicon `path`, counted from zero, is not an
    /// analysis record.
    JsonDeserialize { line: usize, path: String, err: serde_json::Error },
    /// A stored analysis could not be written as JSON.
    JsonSerialize(serde_json::Error),
}

impl StoreFault {
    /// The wording of a fault that did not come from the engine.
    pub open spec fn own_text(self) -> Option<Seq<char>> {
        match self {
            StoreFault::Engine(_) => None,
            StoreFault::UnclosedArray => Some("stored value is not a closed array"@),
            StoreFault::ValueTooLarge => Some("value exceeds the size limit of the store"@),
            StoreFault::KeyNotText => Some("stored key is not valid UTF-8"@),
        }
    }

    /// The fault in words. A fault of the library's own has a fixed wording;
    /// one of the engine is worded by the engine.
    pub fn detail(&self) -> (text: String)
        ensures
            self.own_text() matches Some(own) ==> text@ == own,
    {
        match self {
            StoreFault::Engine(err) => engine_error_text(err),
            StoreFault::UnclosedArray => String::from_str("stored value is not a closed array"),
            StoreFault::ValueTooLarge => String::from_str(
                "value exceeds the size limit of the store",
            ),
            StoreFault::KeyNotText => String::from_str("stored key is not valid UTF-8"),
        }
    }
}

impl FjallMorphologyError {
    /// The message of this failure, given the wording `detail` of its cause.
    pub open spec fn message_text(self, detail: Seq<char>) -> Seq<char> {
        match self {
            FjallMorphologyError::CantOpenDatabase { folder, err } => "failed to open database '"@
                + folder@ + "': "@ + detail,
            FjallMorphologyError::CantCreateKeyspace(_) => "failed to create keyspace: "@ + detail,
            FjallMorphologyError::CantReadWord { word, err } => "failed to read '"@ + word@
                + "' from db: "@ + detail,
            FjallMorphologyError::FailedToReadPrefixForWord { word, err } =>
                "failed to read key for prefix '"@ + word@ + "': "@ + detail,
            FjallMorphologyError::FailedToInsertWord { word, err } =>
                "failed to insert value to word '"@ + word@ + "': "@ + detail,
            FjallMorphologyError::FailedToPersistDb(_) => "failed to persist database: "@ + detail,
            FjallMorphologyError::Io(_) => detail,
            FjallMorphologyError::JsonDeserialize { line, path, err } =>
                "failed to deserialize JSON from line "@ + decimal_text(line as nat) + " of '"@
                    + path@ + "': "@ + detail,
            FjallMorphologyError::JsonSerialize(_) => "failed to serialize JSON: "@ + detail,
        }
    }

    /// The wording of the cause, where the library itself fixes it.
    pub open spec fn own_detail(self) -> Option<Seq<char>> {
        match self {
            FjallMorphologyError::CantReadWord { word, err } => err.own_text(),
            FjallMorphologyError::FailedToReadPrefixForWord { word, err } => err.own_text(),
            FjallMorphologyError::FailedToInsertWord { word, err } => err.own_text(),
            _ => None,
        }
    }

    /// The cause of this failure in words.
    pub fn detail(&self) -> (text: String)
        ensures
            self.own_detail() matches Some(own) ==> text@ == own,
    {
        match self {
            FjallMorphologyError::CantOpenDatabase { folder, err } => engine_error_text(err),
            FjallMorphologyError::CantCreateKeyspace(err) => engine_error_text(err),
            FjallMorphologyError::CantReadWord { word, err } => err.detail(),
            FjallMorphologyError::FailedToReadPrefixForWord { word, err } => err.detail(),
            FjallMorphologyError::FailedToInsertWord { word, err } => err.detail(),
            FjallMorphologyError::FailedToPersistDb(err) => engine_error_text(err),
            FjallMorphologyError::Io(err) => io_error_text(err),
            FjallMorphologyError::JsonDeserialize { line, path, err } => json_error_text(err),
            FjallMorphologyError::JsonSerialize(err) => json_error_text(err),
        }
    }

    /// The message of this failure around the given wording of its cause.
    pub fn message_with(&self, detail: &str) -> (text: String)
        ensures
            text@ == self.message_text(detail@),
    {
        let mut out = String::new();
        match self {
            FjallMorphologyError::CantOpenDatabase { folder, err } => {
                out.append("failed to open database '");
                out.append(folder.as_str());
                out.append("': ");
            },
            FjallMorphologyError::CantCreateKeyspace(_) => {
                out.append("failed to create keyspace: ");
            },
            FjallMorphologyError::CantReadWord { word, err } => {
                out.append("failed to read '");
                out.append(word.as_str());
                out.append("' from db: ");
            },
            FjallMorphologyError::FailedToReadPrefixForWord { word, err } => {
                out.append("failed to read key for prefix '");
                out.append(word.as_str());
                out.append("': ");
            },
            FjallMorphologyError::FailedToInsertWord { word, err } => {
                out.append("failed to insert value to word '");
                out.append(word.as_str());
                out.append("': ");
            },
            FjallMorphologyError::FailedToPersistDb(_) => {
                out.append("failed to persist database: ");
            },
            FjallMorphologyError::Io(_) => {},
            FjallMorphologyError::JsonDeserialize { line, path, err } => {
                out.append("failed to deserialize JSON from line ");
                push_decimal(&mut out, *line);
                out.append(" of '");
                out.append(path.as_str());
                out.append("': ");
            },
            FjallMorphologyError::JsonSerialize(_) => {
                out.append("failed to serialize JSON: ");
            },
        }
        out.append(detail);
        out
    }

    /// The message of this failure: a fixed frame that names the word, folder
    /// or line concerned, around the wording of the cause.
    pub fn message(&self) -> (text: String)
        ensures
            exists|detail: Seq<char>| #[trigger]
                self.message_text(detail) == text@ && (self.own_detail() matches Some(own)
                    ==> detail == own),
    {
        let detail = self.detail();
        let text = self.message_with(detail.as_str());
        assert(self.message_text(detail@) == text@);
        text
    }
}

impl From<std::io::Error> for FjallMorphologyError {
    fn from(value: std::io::Error) -> (r: Self) {
        FjallMorphologyError::Io(value)
    }
}

impl vstd::std_specs::convert::FromSpecImpl<std::io::Error> for FjallMorphologyError {
    open spec fn obeys_from_spec() -> bool {
        true
    }

    open spec fn from_spec(value: std::io::Error) -> Self {
        FjallMorphologyError::Io(value)
    }
}

} // verus!
