//! The two shapes of an analysis: as the lexicon gives it, and as it is
//! stored, with the stored shape's JSON text.

use crate::json::{json_string, json_string_text, literal_is_known};
use vstd::prelude::*;
use vstd::string::*;

verus! {

/// The texts that a list of strings holds.
pub open spec fn texts(items: Seq<String>) -> Seq<Seq<char>> {
    Seq::new(items.len(), |i: int| items[i]@)
}

/// One entry of the lexicon: a word form with its analysis.
#[derive(Debug, Clone)]
pub struct AnalysisRecord {
    /// The surface form; the key under which the analysis is stored.
    pub word: String,
    /// The lemma.
    pub head: String,
    /// The part of speech.
    pub pos: String,
    /// The morphosyntactic description.
    pub param: String,
    /// The inherent features, in order.
    pub inhs: Vec<String>,
    /// The identifier of the lexeme.
    pub id: String,
    /// The identifier of the paradigm.
    pub p: String,
    /// Read from the lexicon and not stored.
    pub attr: String,
}

/// An analysis as the store keeps it.
#[derive(Debug, Clone)]
pub struct StoredAnalysis {
    /// The lemma: the record's `head`.
    pub gf: String,
    /// The identifier of the lexeme.
    pub id: String,
    /// The part of speech.
    pub pos: String,
    /// The inherent features: the record's `inhs`. Written as `is`.
    pub is_: Vec<String>,
    /// The morphosyntactic description: the record's `param`.
    pub msd: String,
    /// The identifier of the paradigm.
    pub p: String,
}

/// What a stored analysis holds, as plain text.
pub struct StoredAnalysisView {
    pub gf: Seq<char>,
    pub id: Seq<char>,
    pub pos: Seq<char>,
    pub is_: Seq<Seq<char>>,
    pub msd: Seq<char>,
    pub p: Seq<char>,
}

impl View for StoredAnalysis {
    type V = StoredAnalysisView;

    open spec fn view(&self) -> StoredAnalysisView {
        StoredAnalysisView {
            gf: self.gf@,
            id: self.id@,
            pos: self.pos@,
            is_: texts(self.is_@),
            msd: self.msd@,
            p: self.p@,
        }
    }
}

impl AnalysisRecord {
    /// The stored shape of this record: the same values under the stored
    /// names, in the stored order, without `word` and `attr`.
    pub open spec fn stored(self) -> StoredAnalysisView {
        StoredAnalysisView {
            gf: self.head@,
            id: self.id@,
            pos: self.pos@,
            is_: texts(self.inhs@),
            msd: self.param@,
            p: self.p@,
        }
    }

    /// Splits the record into its key and its stored analysis.
    pub fn into_entry(self) -> (entry: (String, StoredAnalysis))
        ensures
            entry.0@ == self.word@,
            entry.1@ == self.stored(),
    {
        let AnalysisRecord { word, head, pos, param, inhs, id, p, attr } = self;
        (word, StoredAnalysis { gf: head, id, pos, is_: inhs, msd: param, p })
    }
}

/// The given texts, separated by commas.
pub open spec fn comma_separated(items: Seq<Seq<char>>) -> Seq<char>
    decreases items.len(),
{
    if items.len() == 0 {
        Seq::empty()
    } else if items.len() == 1 {
        items[0]
    } else {
        comma_separated(items.drop_last()) + ","@ + items.last()
    }
}

/// A JSON array whose items are the given texts as they are, without white
/// space.
pub open spec fn list_text(items: Seq<Seq<char>>) -> Seq<char> {
    "["@ + comma_separated(items) + "]"@
}

/// A JSON object with the six members of a stored analysis, in the order
/// `gf`, `id`, `pos`, `is`, `msd`, `p`, whose values are the given texts as
/// they are, without white space.
pub open spec fn object_text(
    gf: Seq<char>,
    id: Seq<char>,
    pos: Seq<char>,
    is_: Seq<char>,
    msd: Seq<char>,
    p: Seq<char>,
) -> Seq<char> {
    "{\"gf\":"@ + gf + ",\"id\":"@ + id + ",\"pos\":"@ + pos + ",\"is\":"@ + is_ + ",\"msd\":"@
        + msd + ",\"p\":"@ + p + "}"@
}

/// The JSON string literals of the given texts.
pub open spec fn literals_of(items: Seq<Seq<char>>) -> Seq<Seq<char>> {
    Seq::new(items.len(), |i: int| json_string_text(items[i]))
}

/// A JSON array of strings.
pub open spec fn json_list_text(items: Seq<Seq<char>>) -> Seq<char> {
    list_text(literals_of(items))
}

/// The JSON object of a stored analysis: its six members, each text as a
/// JSON string and the inherent features as an array of JSON strings.
pub open spec fn stored_analysis_text(analysis: StoredAnalysisView) -> Seq<char> {
    object_text(
        json_string_text(analysis.gf),
        json_string_text(analysis.id),
        json_string_text(analysis.pos),
        json_list_text(analysis.is_),
        json_string_text(analysis.msd),
        json_string_text(analysis.p),
    )
}

/// What is known of the literals of an analysis without asking the
/// serializer: each of its texts that is plain is written between double
/// quotes.
pub open spec fn literals_are_known(analysis: StoredAnalysisView) -> bool {
    &&& literal_is_known(analysis.gf)
    &&& literal_is_known(analysis.id)
    &&& literal_is_known(analysis.pos)
    &&& forall|i: int| 0 <= i < analysis.is_.len() ==> literal_is_known(#[trigger] analysis.is_[i])
    &&& literal_is_known(analysis.msd)
    &&& literal_is_known(analysis.p)
}

/// Appends `text` to `out` as a JSON string literal.
fn push_json_string(out: &mut String, text: &str) -> (r: Result<(), serde_json::Error>)
    ensures
        r is Ok,
        final(out)@ == old(out)@ + json_string_text(text@),
        literal_is_known(text@),
{
    match json_string(text) {
        Ok(literal) => {
            out.append(literal.as_str());
            Ok(())
        },
        Err(err) => Err(err),
    }
}

/// Appends `items` to `out` as a JSON array of strings.
fn push_json_list(out: &mut String, items: &Vec<String>) -> (r: Result<(), serde_json::Error>)
    ensures
        r is Ok,
        final(out)@ == old(out)@ + json_list_text(texts(items@)),
        forall|i: int| 0 <= i < items@.len() ==> literal_is_known(#[trigger] texts(items@)[i]),
{
    let mut literals: Vec<String> = Vec::new();
    let mut i: usize = 0;
    while i < items.len()
        invariant
            i <= items.len(),
            literals@.len() == i,
            out@ == old(out)@,
            forall|j: int|
                0 <= j < i ==> (#[trigger] literals@[j])@ == json_string_text(texts(items@)[j]),
            forall|j: int| 0 <= j < i ==> literal_is_known(#[trigger] texts(items@)[j]),
        decreases items.len() - i,
    {
        let mut literal = String::new();
        match push_json_string(&mut literal, items[i].as_str()) {
            Ok(()) => {},
            Err(err) => {
                return Err(err);
            },
        }
        proof {
            assert(literal@ == json_string_text(texts(items@)[i as int]));
        }
        literals.push(literal);
        i += 1;
    }
    let framed = frame_list(&literals);
    proof {
        assert(texts(literals@) == literals_of(texts(items@)));
    }
    out.append(framed.as_str());
    Ok(())
}

/// Frames the given texts as a JSON array: the texts as they are, which are
/// to be JSON values already, between brackets and separated by commas.
pub fn frame_list(items: &Vec<String>) -> (text: String)
    ensures
        text@ == list_text(texts(items@)),
{
    let mut out = String::new();
    out.append("[");
    let mut i: usize = 0;
    while i < items.len()
        invariant
            i <= items.len(),
            out@ == "["@ + comma_separated(texts(items@).take(i as int)),
        decreases items.len() - i,
    {
        if i > 0 {
            out.append(",");
        }
        out.append(items[i].as_str());
        proof {
            let all = texts(items@);
            assert(all.take(i + 1).drop_last() == all.take(i as int));
            assert(all.take(i + 1).last() == items@[i as int]@);
        }
        i += 1;
    }
    proof {
        assert(texts(items@).take(i as int) == texts(items@));
    }
    out.append("]");
    out
}

/// Frames the six values of a stored analysis as a JSON object: the values as
/// they are, which are to be JSON values already, each after its name.
pub fn frame_analysis(gf: &str, id: &str, pos: &str, is_: &str, msd: &str, p: &str) -> (text:
    String)
    ensures
        text@ == object_text(gf@, id@, pos@, is_@, msd@, p@),
{
    let mut out = String::new();
    out.append("{\"gf\":");
    out.append(gf);
    out.append(",\"id\":");
    out.append(id);
    out.append(",\"pos\":");
    out.append(pos);
    out.append(",\"is\":");
    out.append(is_);
    out.append(",\"msd\":");
    out.append(msd);
    out.append(",\"p\":");
    out.append(p);
    out.append("}");
    out
}

impl StoredAnalysis {
    /// The analysis as JSON text: the object of `stored_analysis_text`. It is
    /// a function of the analysis, and is given for every analysis.
    pub fn to_json(&self) -> (r: Result<String, serde_json::Error>)
        ensures
            r matches Ok(text) && text@ == stored_analysis_text(self@),
            literals_are_known(self@),
    {
        let mut gf = String::new();
        match push_json_string(&mut gf, self.gf.as_str()) {
            Ok(()) => {},
            Err(err) => {
                return Err(err);
            },
        }
        let mut id = String::new();
        match push_json_string(&mut id, self.id.as_str()) {
            Ok(()) => {},
            Err(err) => {
                return Err(err);
            },
        }
        let mut pos = String::new();
        match push_json_string(&mut pos, self.pos.as_str()) {
            Ok(()) => {},
            Err(err) => {
                return Err(err);
            },
        }
        let mut is_ = String::new();
        match push_json_list(&mut is_, &self.is_) {
            Ok(()) => {},
            Err(err) => {
                return Err(err);
            },
        }
        let mut msd = String::new();
        match push_json_string(&mut msd, self.msd.as_str()) {
            Ok(()) => {},
            Err(err) => {
                return Err(err);
            },
        }
        let mut p = String::new();
        match push_json_string(&mut p, self.p.as_str()) {
            Ok(()) => {},
            Err(err) => {
                return Err(err);
            },
        }
        Ok(
            frame_analysis(
                gf.as_str(),
                id.as_str(),
                pos.as_str(),
                is_.as_str(),
                msd.as_str(),
                p.as_str(),
            ),
        )
    }
}

} // verus!
