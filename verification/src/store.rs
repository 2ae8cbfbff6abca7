//! The configuration store: the folder pairs as one JSON document.
//!
//! The document is an array with one object per pair, in order:
//! `[{"src": "<path>", "dst": "<path>"}, ...]`. Members other than `src` and
//! `dst` are ignored when reading and never written. The store reads and
//! writes no file: the caller says what it found at the path of the file
//! and writes the text it gets back. Only a file that is not there is ever
//! created; one that is there is replaced only by a successful append.

use crate::config::{valid_pair, valid_pairs, Config, FolderPair, PairView};
use crate::error::{BackupError, ErrorView};
use crate::json::{
    empty_record, json_document, json_member, json_shape, json_shapes, json_text, list_value,
    parse_document, record_insert, record_value, render_document, text_value, value_items,
    value_member, value_text, JsonMembers, JsonTree,
};
use vstd::prelude::*;
use vstd::utf8::encode_utf8;

verus! {

/// The key under which an element holds its source path.
pub open spec fn source_key() -> Seq<char> {
    "src"@
}

/// The key under which an element holds its destination path.
pub open spec fn destination_key() -> Seq<char> {
    "dst"@
}

/// The pair that one element of the document stands for: an object whose
/// `src` and `dst` members are non-empty strings.
pub open spec fn pair_of_tree(tree: JsonTree) -> Option<PairView> {
    match (json_member(tree, source_key()), json_member(tree, destination_key())) {
        (JsonTree::Text(source), JsonTree::Text(destination)) => if valid_pair(
            (source, destination),
        ) {
            Some((source, destination))
        } else {
            None
        },
        _ => None,
    }
}

/// The pairs that a document stands for: it is an array, and every element
/// stands for a pair.
pub open spec fn pairs_of_tree(tree: JsonTree) -> Option<Seq<PairView>> {
    match tree {
        JsonTree::List(items) => if forall|i: int|
            0 <= i < items.len() ==> pair_of_tree(#[trigger] items[i]) is Some {
            Some(items.map_values(|item: JsonTree| pair_of_tree(item).unwrap()))
        } else {
            None
        },
        _ => None,
    }
}

/// The element that stands for `pair`.
pub open spec fn tree_of_pair(pair: PairView) -> JsonTree {
    JsonTree::Record(
        JsonMembers::empty().insert(source_key(), JsonTree::Text(pair.0)).insert(
            destination_key(),
            JsonTree::Text(pair.1),
        ),
    )
}

/// The document that stands for `pairs`.
pub open spec fn tree_of_pairs(pairs: Seq<PairView>) -> JsonTree {
    JsonTree::List(pairs.map_values(|pair: PairView| tree_of_pair(pair)))
}

/// The pairs stored in a file with these bytes, or `None` where the bytes
/// are no JSON or not of the shape above.
pub open spec fn stored_pairs(bytes: Seq<u8>) -> Option<Seq<PairView>> {
    match json_document(bytes) {
        Some(tree) => pairs_of_tree(tree),
        None => None,
    }
}

/// What the caller found at the path of the configuration file.
#[derive(Debug, PartialEq, Eq)]
pub enum Found {
    /// There is no file.
    Missing,
    /// There is a file, and it could not be read.
    Unreadable,
    /// There is a file with these bytes.
    Present(Vec<u8>),
}

/// The mathematical value of a [`Found`].
pub enum FoundView {
    Missing,
    Unreadable,
    Present(Seq<u8>),
}

impl View for Found {
    type V = FoundView;

    open spec fn view(&self) -> FoundView {
        match self {
            Found::Missing => FoundView::Missing,
            Found::Unreadable => FoundView::Unreadable,
            Found::Present(bytes) => FoundView::Present(bytes@),
        }
    }
}

/// The pairs in force given what was found: no file counts as the empty
/// collection, a file that could not be read holds no configuration.
pub open spec fn current_pairs(found: FoundView) -> Option<Seq<PairView>> {
    match found {
        FoundView::Missing => Some(Seq::empty()),
        FoundView::Unreadable => None,
        FoundView::Present(bytes) => stored_pairs(bytes),
    }
}

/// The text that is written for `pairs`.
pub open spec fn text_of_pairs(pairs: Seq<PairView>) -> Seq<char> {
    json_text(tree_of_pairs(pairs))
}

/// What [`load_or_initialize`] found: the configuration and, where the file
/// was missing, the text to create it with.
#[derive(Debug)]
pub struct Loaded {
    pub config: Config,
    pub to_write: Option<String>,
}

/// What [`append`] produced: the new configuration and the text that
/// replaces the file.
#[derive(Debug)]
pub struct Saved {
    pub config: Config,
    pub text: String,
}

fn pair_from_value(item: &serde_json::Value) -> (out: Option<FolderPair>)
    ensures
        match pair_of_tree(json_shape(*item)) {
            Some(pair) => out matches Some(made) && made@ == pair,
            None => out is None,
        },
{
    let source = value_text(value_member(item, "src"));
    let destination = value_text(value_member(item, "dst"));
    match (source, destination) {
        (Some(source), Some(destination)) => FolderPair::new(source, destination),
        _ => None,
    }
}

/// Reads the pairs out of a parsed document. Fails with `ConfigCorrupt`
/// exactly when the document is not an array of pair objects.
pub fn config_from_value(value: &serde_json::Value) -> (out: Result<Config, BackupError>)
    ensures
        match pairs_of_tree(json_shape(*value)) {
            Some(pairs) => out matches Ok(config) && config@ == pairs,
            None => out matches Err(error) && error@ == ErrorView::ConfigCorrupt,
        },
{
    let items = match value_items(value) {
        Some(items) => items,
        None => {
            return Err(BackupError::ConfigCorrupt);
        },
    };
    let ghost trees = json_shapes(items@);
    let mut config = Config::new();
    let mut i: usize = 0;
    while i < items.len()
        invariant
            i <= items.len(),
            trees == json_shapes(items@),
            json_shape(*value) == JsonTree::List(trees),
            config@.len() == i,
            forall|k: int| 0 <= k < i ==> pair_of_tree(trees[k]) == Some(#[trigger] config@[k]),
        decreases items.len() - i,
    {
        match pair_from_value(&items[i]) {
            Some(pair) => {
                config.append(pair);
            },
            None => {
                assert(pair_of_tree(trees[i as int]) is None);
                return Err(BackupError::ConfigCorrupt);
            },
        }
        i += 1;
    }
    assert forall|k: int| 0 <= k < trees.len() implies pair_of_tree(#[trigger] trees[k])
        == Some(config@[k]) by {}
    assert(config@ =~= trees.map_values(|item: JsonTree| pair_of_tree(item).unwrap()));
    Ok(config)
}

/// Builds the document that stands for `config`.
pub fn value_from_config(config: &Config) -> (out: serde_json::Value)
    ensures
        json_shape(out) == tree_of_pairs(config@),
{
    let mut items: Vec<serde_json::Value> = Vec::new();
    let mut i: usize = 0;
    while i < config.len()
        invariant
            i <= config@.len(),
            items@.len() == i,
            forall|k: int|
                0 <= k < i ==> json_shape(#[trigger] items@[k]) == tree_of_pair(config@[k]),
        decreases config@.len() - i,
    {
        let pair = config.entry(i);
        let mut members = empty_record();
        record_insert(&mut members, "src".to_owned(), text_value(pair.source().to_owned()));
        record_insert(&mut members, "dst".to_owned(), text_value(pair.destination().to_owned()));
        items.push(record_value(members));
        i += 1;
    }
    let out = list_value(items);
    assert(json_shapes(items@) =~= config@.map_values(|pair: PairView| tree_of_pair(pair)));
    out
}

/// Reads a configuration from the bytes of its file. Fails with
/// `ConfigCorrupt` exactly when the bytes are no JSON document or the
/// document is not an array of pair objects.
pub fn decode(bytes: &[u8]) -> (out: Result<Config, BackupError>)
    ensures
        match stored_pairs(bytes@) {
            Some(pairs) => out matches Ok(config) && config@ == pairs,
            None => out matches Err(error) && error@ == ErrorView::ConfigCorrupt,
        },
{
    match parse_document(bytes) {
        Ok(value) => config_from_value(&value),
        Err(_) => Err(BackupError::ConfigCorrupt),
    }
}

/// What becomes of an attempt to print a document: the text, or
/// `ConfigWriteFailed` where the printer reported an error.
pub fn rendered(printed: Result<String, serde_json::Error>) -> (out: Result<String, BackupError>)
    ensures
        match printed {
            Ok(text) => out matches Ok(same) && same@ == text@,
            Err(_) => out matches Err(error) && error@ == ErrorView::ConfigWriteFailed,
        },
{
    match printed {
        Ok(text) => Ok(text),
        Err(_) => Err(BackupError::ConfigWriteFailed),
    }
}

/// Prints the whole configuration as the text of its file: the text of the
/// document that stands for the pairs.
pub fn encode(config: &Config) -> (out: Result<String, BackupError>)
    ensures
        out matches Ok(text) && text@ == text_of_pairs(config@),
{
    let value = value_from_config(config);
    rendered(render_document(&value))
}

/// Loads the configuration from what was found at its path, or starts an
/// empty one where no file was found.
///
/// With no file the result is the empty configuration together with the
/// text of the empty collection, which the caller writes to create the
/// file. With a file that was read the result is its pairs, and nothing is
/// to be written; a file that does not hold a configuration, or that is
/// there and could not be read, gives `ConfigCorrupt` and is left as it is.
pub fn load_or_initialize(found: &Found) -> (out: Result<Loaded, BackupError>)
    ensures
        match found@ {
            FoundView::Missing => out matches Ok(loaded) && loaded.to_write matches Some(text)
                && text@ == text_of_pairs(Seq::empty()) && loaded.config@ == Seq::<
                PairView,
            >::empty(),
            _ => match current_pairs(found@) {
                Some(pairs) => out matches Ok(loaded) && loaded.config@ == pairs
                    && loaded.to_write is None,
                None => out matches Err(error) && error@ == ErrorView::ConfigCorrupt,
            },
        },
{
    match found {
        Found::Missing => {
            let config = Config::new();
            match encode(&config) {
                Ok(text) => Ok(Loaded { config, to_write: Some(text) }),
                Err(error) => Err(error),
            }
        },
        Found::Unreadable => Err(BackupError::ConfigCorrupt),
        Found::Present(bytes) => {
            match decode(bytes.as_slice()) {
                Ok(config) => Ok(Loaded { config, to_write: None }),
                Err(error) => Err(error),
            }
        },
    }
}

/// Appends the pair (`source`, `destination`) to the stored configuration
/// and prints the whole collection anew.
///
/// The stored configuration is loaded first: a file that does not hold a
/// configuration, or that could not be read, gives `ConfigCorrupt`, whatever
/// the pair; no file counts as the empty collection. Then the pair is
/// looked at: an empty path gives `ConfigInvalid`. In neither case is there
/// anything to write. Otherwise the call succeeds: the new configuration is
/// the old pairs, unchanged and in order, followed by the new pair, also
/// where that pair is already among them, and the text is that of its
/// document. The paths are not looked at beyond being non-empty.
pub fn append(found: &Found, source: &str, destination: &str) -> (out: Result<Saved, BackupError>)
    ensures
        match current_pairs(found@) {
            None => out matches Err(error) && error@ == ErrorView::ConfigCorrupt,
            Some(pairs) => if valid_pair((source@, destination@)) {
                out matches Ok(saved) && saved.config@ == pairs.push((source@, destination@))
                    && saved.text@ == text_of_pairs(saved.config@)
            } else {
                out matches Err(error) && error@ == (ErrorView::ConfigInvalid {
                    source: source@,
                    destination: destination@,
                })
            },
        },
{
    let mut config = match found {
        Found::Missing => Config::new(),
        Found::Unreadable => {
            return Err(BackupError::ConfigCorrupt);
        },
        Found::Present(bytes) => match decode(bytes.as_slice()) {
            Ok(config) => config,
            Err(error) => {
                return Err(error);
            },
        },
    };
    let pair = match FolderPair::new(source, destination) {
        Some(pair) => pair,
        None => {
            return Err(
                BackupError::ConfigInvalid {
                    source: source.to_owned(),
                    destination: destination.to_owned(),
                },
            );
        },
    };
    config.append(pair);
    match encode(&config) {
        Ok(text) => Ok(Saved { config, text }),
        Err(error) => Err(error),
    }
}

/// Reading inverts writing, document for document: the document that
/// stands for valid pairs stands for exactly those pairs.
pub proof fn reading_inverts_writing(pairs: Seq<PairView>)
    requires
        valid_pairs(pairs),
    ensures
        pairs_of_tree(tree_of_pairs(pairs)) == Some(pairs),
{
    reveal_strlit("src");
    reveal_strlit("dst");
    let items = pairs.map_values(|pair: PairView| tree_of_pair(pair));
    assert forall|i: int| 0 <= i < items.len() implies pair_of_tree(#[trigger] items[i]) == Some(
        pairs[i],
    ) by {
        assert(source_key() != destination_key()) by {
            assert(source_key()[0] == 's');
            assert(destination_key()[0] == 'd');
        }
        assert(valid_pair(pairs[i]));
    }
    assert(items.map_values(|item: JsonTree| pair_of_tree(item).unwrap()) =~= pairs);
}

/// Appending and then loading gives the old pairs, unchanged and in order,
/// followed by the new pair, provided the file is read back as the document
/// that was printed into it.
pub proof fn append_then_load(before: Seq<PairView>, pair: PairView)
    requires
        valid_pairs(before),
        valid_pair(pair),
        json_document(encode_utf8(text_of_pairs(before.push(pair)))) == Some(
            tree_of_pairs(before.push(pair)),
        ),
    ensures
        stored_pairs(encode_utf8(text_of_pairs(before.push(pair)))) == Some(before.push(pair)),
{
    reading_inverts_writing(before.push(pair));
}

} // verus!
