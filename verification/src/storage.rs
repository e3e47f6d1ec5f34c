//! The persisted form of a store.
//!
//! The backing file holds one JSON object with the single key `context`. Its
//! value is an object from directory paths to flat objects of string keys and
//! string values:
//!
//! ```text
//! {"context": {"/": {"key1": "value1"}, "/dir1": {"key3": "value3"}}}
//! ```
//!
//! Reading and writing the JSON text is left to `serde_json`. What the text
//! means as a store, and which document is written for a store, is decided
//! here.

use std::collections::BTreeMap;
use vstd::prelude::*;
use crate::context::{store_of_listing, Context, ContextData, ContextView, Listing, ListingView, StoreView};
use crate::entries::{distinct_keys, has_key, lemma_map_of_keys, lemma_map_of_last, map_of};
use crate::path::{DirPath, PathView};
use crate::text::{optional_text, text_eq};

verus! {

/// What a backing file holds: the members of its top-level object, each a
/// name with a listing.
pub type Document = Vec<(String, Listing)>;

/// The mathematical value of a `Document`.
pub type DocumentView = Seq<(Seq<char>, ListingView)>;

/// The error of `serde_json`. It is handed through and never looked into.
#[verifier::external_type_specification]
#[verifier::external_body]
pub struct ExJsonError(serde_json::Error);

/// The document that `serde_json::from_str` reads from a text as an object of
/// objects of objects of strings, each object written as the sequence of its
/// members; `None` where it reports an error.
pub uninterp spec fn parsed_document(text: Seq<char>) -> Option<
    Seq<(Seq<char>, Seq<(Seq<char>, Seq<(Seq<char>, Seq<char>)>)>)>,
>;

/// The text that `serde_json::to_string_pretty` writes for a document; `None`
/// where it reports an error.
pub uninterp spec fn rendered_document(
    document: Seq<(Seq<char>, Seq<(Seq<char>, Seq<(Seq<char>, Seq<char>)>)>)>,
) -> Option<Seq<char>>;

/// No name occurs twice at any level of a document.
pub open spec fn well_keyed(document: DocumentView) -> bool {
    &&& distinct_keys(document)
    &&& forall|i: int| 0 <= i < document.len() ==> distinct_keys((#[trigger] document[i]).1)
    &&& forall|i: int, j: int|
        0 <= i < document.len() && 0 <= j < document[i].1.len() ==> distinct_keys(
            (#[trigger] document[i].1[j]).1,
        )
}

/// Calls `serde_json::from_str` to read a text as a JSON object whose members
/// are objects whose members are objects of strings, and hands the members of
/// each object out as a sequence, in the order of their names.
///
/// Not proved, but taken from `serde_json`: that the outcome depends on the
/// text alone, which makes it the one that `parsed_document` names. Nothing
/// is claimed about which texts are read and which are refused.
#[verifier::external_body]
fn parse_document(text: &str) -> (parsed: Result<
    Vec<(String, Vec<(String, Vec<(String, String)>)>)>,
    serde_json::Error,
>)
    ensures
        match parsed {
            Ok(document) => parsed_document(text@) == Some(document.deep_view()),
            Err(_) => parsed_document(text@) is None,
        },
{
    let tree: BTreeMap<String, BTreeMap<String, BTreeMap<String, String>>> = serde_json::from_str(
        text,
    )?;
    Ok(
        tree.into_iter().map(
            |(name, dirs)|
                (name, dirs.into_iter().map(|(dir, values)| (dir, values.into_iter().collect())).collect()),
        ).collect(),
    )
}

/// Calls `serde_json::to_string_pretty` to write a document as a JSON object
/// whose members are objects whose members are objects of strings. No name
/// may occur twice at any level, so that every member is written.
///
/// Not proved, but taken from `serde_json`: that the outcome depends on the
/// document alone, which makes it the one that `rendered_document` names.
/// Nothing is claimed about the text itself, nor that there is one.
#[verifier::external_body]
fn render_document(document: &Vec<(String, Vec<(String, Vec<(String, String)>)>)>) -> (rendered:
    Result<String, serde_json::Error>)
    requires
        well_keyed(document.deep_view()),
    ensures
        match rendered {
            Ok(text) => rendered_document(document.deep_view()) == Some(text@),
            Err(_) => rendered_document(document.deep_view()) is None,
        },
{
    let tree: BTreeMap<&String, BTreeMap<&String, BTreeMap<&String, &String>>> = document.iter().map(
        |(name, dirs)|
            (name, dirs.iter().map(|(dir, values)| (dir, values.iter().map(|(k, v)| (k, v)).collect())).collect()),
    ).collect();
    serde_json::to_string_pretty(&tree)
}

/// The store that a document denotes: the listing under the name `context`,
/// or the empty store where the document has no such member.
pub open spec fn store_of_document(document: DocumentView) -> StoreView {
    if map_of(document).contains_key("context"@) {
        store_of_listing(map_of(document)["context"@])
    } else {
        Map::empty()
    }
}

/// The store to start from when a document was read, or when none was: no
/// document gives the empty store.
pub open spec fn store_of_reading(reading: Option<DocumentView>) -> StoreView {
    match reading {
        None => Map::empty(),
        Some(document) => store_of_document(document),
    }
}

/// The store that the contents of a backing file denote. A file that is not
/// there, and one whose contents are not a document, denote the empty store.
pub open spec fn loaded_store(contents: Option<Seq<char>>) -> StoreView {
    match contents {
        None => Map::empty(),
        Some(text) => store_of_reading(parsed_document(text)),
    }
}

/// The mathematical value of a document that may be missing.
pub open spec fn reading_view(reading: Option<&Document>) -> Option<DocumentView> {
    match reading {
        None => None,
        Some(document) => Some(document.deep_view()),
    }
}

/// Why a store could not be written out.
#[derive(Debug, PartialEq, Eq)]
pub enum SaveError {
    /// The document could not be encoded as JSON.
    Encoding,
}

impl ContextData {
    /// The store that a document denotes.
    pub fn from_document(document: &Document) -> (data: ContextData)
        ensures
            data@ == store_of_document(document.deep_view()),
    {
        let ghost given = document.deep_view();
        let mut i: usize = document.len();
        while i > 0
            invariant
                i <= document.len(),
                given == document.deep_view(),
                forall|j: int| i <= j < given.len() ==> (#[trigger] given[j]).0 != "context"@,
            decreases i,
        {
            i = i - 1;
            if text_eq(document[i].0.as_str(), "context") {
                proof {
                    lemma_map_of_last(given, i as int);
                }
                return ContextData::from_listing(&document[i].1);
            }
        }
        proof {
            lemma_map_of_keys(given);
        }
        ContextData::new()
    }

    /// The document that is written for the store: one member named
    /// `context`, no name twice at any level. Reading it gives the store back.
    pub fn to_document(&self) -> (document: Document)
        ensures
            store_of_document(document.deep_view()) == self@,
            well_keyed(document.deep_view()),
    {
        let listing = self.to_listing();
        let mut document: Document = Vec::new();
        document.push(("context".to_owned(), listing));
        proof {
            let written = document.deep_view();
            lemma_map_of_last(written, 0);
        }
        document
    }
}

impl Context {
    /// Opens a store on the document that was read from its backing file, or
    /// on no document where the file is missing or does not hold one: the
    /// store is then empty.
    pub fn from_reading(
        config_path: String,
        pwd: DirPath,
        reading: Option<&Document>,
    ) -> (context: Context)
        ensures
            context@ == (ContextView {
                data: store_of_reading(reading_view(reading)),
                config_path: config_path@,
                pwd: pwd@,
            }),
    {
        let data = match reading {
            None => ContextData::new(),
            Some(document) => ContextData::from_document(document),
        };
        Context::new(data, config_path, pwd)
    }

    /// Opens a store on what its backing file holds: `None` where there is no
    /// such file. Contents that cannot be read as a document are taken for an
    /// empty store.
    pub fn from_config_props(config_path: String, pwd: DirPath, contents: Option<String>) -> (context:
        Context)
        ensures
            context@ == (ContextView {
                data: loaded_store(optional_text(contents)),
                config_path: config_path@,
                pwd: pwd@,
            }),
    {
        match contents {
            None => Context::from_reading(config_path, pwd, None),
            Some(text) => match parse_document(text.as_str()) {
                Ok(document) => Context::from_reading(config_path, pwd, Some(&document)),
                Err(_) => Context::from_reading(config_path, pwd, None),
            },
        }
    }

    /// The text to write to the backing file: the JSON form of a document
    /// that denotes the whole store, every directory included.
    pub fn to_json(&self) -> (written: Result<String, SaveError>)
        ensures
            exists|document: DocumentView|
                {
                    &&& store_of_document(document) == self@.data
                    &&& well_keyed(document)
                    &&& match written {
                        Ok(text) => #[trigger] rendered_document(document) == Some(text@),
                        Err(_) => rendered_document(document) is None,
                    }
                },
    {
        let document = self.data().to_document();
        match render_document(&document) {
            Ok(text) => Ok(text),
            Err(_) => Err(SaveError::Encoding),
        }
    }
}

} // verus!
