//! What is persisted: the names of the files, the document that holds the
//! components, and the summary that combines the metadata of several runs.

use crate::cli::Arguments;
use crate::config::{DEFAULT_FILENAME, DEFAULT_SAVE_DIR, METADATA_FILE_SUFFIX};
use crate::json::{
    json_array, json_from_str, json_map_insert, json_map_new, json_object, json_parsed,
    json_pointer, json_pretty, json_replace_at, json_replaced, json_to_string_pretty, json_view,
    json_views,
    Json, JsonMap, Members,
};
use crate::response_handler::RESULTS_PATH;
use crate::text::{
    alphanumeric, copy_optional_text, ends_with, eq_ignore_ascii_case, first_occurrence,
    has_suffix, is_alphanumeric, lowercase_of, occurs_at, prefix_before, push_char,
    same_ignoring_ascii_case,
    text_before, text_eq, to_lowercase,
};
use serde_json::Value;
use vstd::prelude::*;
use vstd::string::StringExecFns;

verus! {

/// Why nothing could be persisted.
#[derive(Debug, Clone, Copy, PartialEq, Eq, Structural)]
pub enum DataError {
    /// A metadata file does not hold JSON.
    InvalidJson,
    /// A document could not be written as text.
    Unwritable,
}

/// A character as it stands in a file name: letters and digits stay, any
/// other character becomes an underscore.
pub open spec fn sanitized_char(c: char) -> char {
    if alphanumeric(c) {
        c
    } else {
        '_'
    }
}

/// The characters of a text as they stand in a file name.
pub open spec fn sanitized_chars(s: Seq<char>) -> Seq<char> {
    Seq::new(s.len(), |i: int| sanitized_char(s[i]))
}

/// The file name made from a name: in lower case, with every character
/// that is no letter and no digit replaced by an underscore.
pub open spec fn sanitized(name: Seq<char>) -> Seq<char> {
    sanitized_chars(lowercase_of(name))
}

/// Making a file name from a file name changes nothing, where putting the
/// file name into lower case changes nothing.
pub proof fn lemma_sanitized_twice(name: Seq<char>)
    requires
        lowercase_of(sanitized(name)) == sanitized(name),
    ensures
        sanitized(sanitized(name)) == sanitized(name),
{
    assert(sanitized_chars(sanitized(name)) =~= sanitized(name));
}

/// The stem of the file of a category's components.
pub open spec fn filename_of(category_name: Option<Seq<char>>) -> Seq<char> {
    match category_name {
        Some(name) => sanitized(name),
        None => sanitized(DEFAULT_FILENAME@),
    }
}

/// The path of the file with the given stem in the save directory.
pub open spec fn json_path(stem: Seq<char>) -> Seq<char> {
    DEFAULT_SAVE_DIR@ + "/"@ + stem + ".json"@
}

/// What the stem of a metadata file ends with: an underscore and the
/// metadata suffix.
pub open spec fn metadata_ending() -> Seq<char> {
    "_"@ + METADATA_FILE_SUFFIX@
}

/// The stem of the metadata file that belongs to a stem.
pub open spec fn metadata_stem(stem: Seq<char>) -> Seq<char> {
    stem + metadata_ending()
}

/// Whether a file of the save directory is the metadata of a run: a JSON
/// file whose stem ends with an underscore and the metadata suffix.
pub open spec fn names_metadata(extension: Seq<char>, stem: Seq<char>) -> bool {
    extension == "json"@ && has_suffix(stem, metadata_ending())
}

/// The key of a metadata file in the summary: its stem up to the first
/// underscore that the metadata suffix follows.
pub open spec fn component_type_of(stem: Seq<char>) -> Seq<char> {
    prefix_before(stem, metadata_ending())
}

/// The metadata file that a run writes is taken for a metadata file, and
/// its key in the summary is the stem of the run's own file, where the
/// ending of metadata files does not occur in the name before its end.
pub proof fn lemma_metadata_file_is_recognised(stem: Seq<char>)
    ensures
        names_metadata("json"@, metadata_stem(stem)),
        (forall|j: int|
            0 <= j < stem.len() ==> !occurs_at(metadata_stem(stem), metadata_ending(), j))
            ==> component_type_of(metadata_stem(stem)) == stem,
{
    let whole = metadata_stem(stem);
    let ending = metadata_ending();
    let at = stem.len() as int;
    assert(whole.skip(whole.len() - ending.len()) =~= ending);
    assert(whole.subrange(at, at + ending.len()) =~= ending);
    assert(occurs_at(whole, ending, at));
    if forall|j: int| 0 <= j < stem.len() ==> !occurs_at(whole, ending, j) {
        let first = first_occurrence(whole, ending);
        assert(occurs_at(whole, ending, first) && forall|j: int|
            0 <= j < first ==> !occurs_at(whole, ending, j));
        assert(first == at);
        assert(whole.take(at) =~= stem);
    }
}

/// The members of the summary of some metadata files, given by their stems
/// and their documents: each document under its key, a later file
/// replacing an earlier one of the same key.
pub open spec fn combined(files: Seq<(Seq<char>, Json)>) -> Members
    decreases files.len(),
{
    if files.len() == 0 {
        Members::empty()
    } else {
        combined(files.drop_last()).insert(component_type_of(files.last().0), files.last().1)
    }
}

/// The document that holds the components: the server's metadata with the
/// components in the place of its results, or, without metadata, an
/// object with the components as its `results`.
pub open spec fn serialized(data: Seq<Json>, metadata: Option<Json>) -> Json {
    match metadata {
        Some(meta) => if json_pointer(meta, RESULTS_PATH@) is Some {
            json_replaced(meta, RESULTS_PATH@, Json::Array(data))
        } else {
            meta
        },
        None => Json::Object(Members::empty().insert("results"@, Json::Array(data))),
    }
}

/// Whether an answer to the question of overwriting a file is a yes: the
/// letter `y`, in either case.
pub open spec fn is_yes(answer: Seq<char>) -> bool {
    same_ignoring_ascii_case(answer, "y"@)
}

/// The documents of some files, stem by stem.
pub open spec fn file_views(files: Seq<(String, Value)>) -> Seq<(Seq<char>, Json)> {
    Seq::new(files.len(), |i: int| (files[i].0@, json_view(files[i].1)))
}

/// The documents that the texts of some files hold, if every text is JSON.
pub open spec fn all_parsed(files: Seq<(Seq<char>, Seq<char>)>) -> bool {
    forall|i: int| 0 <= i < files.len() ==> json_parsed((#[trigger] files[i]).1) is Some
}

/// The documents that the texts of some files hold.
pub open spec fn parsed_files(files: Seq<(Seq<char>, Seq<char>)>) -> Seq<(Seq<char>, Json)> {
    Seq::new(files.len(), |i: int| (files[i].0, json_parsed(files[i].1).unwrap()))
}

/// Decides what is written where.
#[derive(Debug)]
pub struct DataManager {
    category_name: Option<String>,
}

impl View for DataManager {
    type V = Option<Seq<char>>;

    /// The name of the category whose components are persisted.
    closed spec fn view(&self) -> Option<Seq<char>> {
        self.category_name.deep_view()
    }
}

impl DataManager {
    /// A manager for the category that the arguments name.
    pub fn new(args: &Arguments) -> (r: DataManager)
        ensures
            r@ == args@.category_name,
    {
        DataManager { category_name: copy_optional_text(&args.category_name) }
    }

    /// The file name made from a name: in lower case, with every character
    /// that is no letter and no digit replaced by an underscore.
    pub fn sanitize_filename(name: &str) -> (r: String)
        ensures
            r@ == sanitized(name@),
    {
        let lower = to_lowercase(name);
        let n = lower.as_str().unicode_len();
        let mut out = String::new();
        let mut i: usize = 0;
        while i < n
            invariant
                i <= n,
                n == lower@.len(),
                out@ == sanitized_chars(lower@).take(i as int),
            decreases n - i,
        {
            let c = lower.as_str().get_char(i);
            if is_alphanumeric(c) {
                push_char(&mut out, c);
            } else {
                push_char(&mut out, '_');
            }
            assert(out@ =~= sanitized_chars(lower@).take(i + 1));
            i = i + 1;
        }
        assert(sanitized_chars(lower@).take(n as int) =~= sanitized_chars(lower@));
        out
    }

    /// The stem of the file of the category's components.
    pub fn filename(&self) -> (r: String)
        ensures
            r@ == filename_of(self@),
    {
        match &self.category_name {
            Some(name) => Self::sanitize_filename(name.as_str()),
            None => Self::sanitize_filename(DEFAULT_FILENAME),
        }
    }

    /// The path of the file with the given stem in the save directory.
    pub fn filepath(stem: &str) -> (r: String)
        ensures
            r@ == json_path(stem@),
    {
        let mut path = DEFAULT_SAVE_DIR.to_owned();
        path.append("/");
        path.append(stem);
        path.append(".json");
        path
    }

    /// The path of the file of the category's components.
    pub fn component_filepath(&self) -> (r: String)
        ensures
            r@ == json_path(filename_of(self@)),
    {
        Self::filepath(self.filename().as_str())
    }

    /// What the stem of a metadata file ends with.
    pub fn metadata_file_ending() -> (r: String)
        ensures
            r@ == metadata_ending(),
    {
        let mut ending = "_".to_owned();
        ending.append(METADATA_FILE_SUFFIX);
        ending
    }

    /// The path of the file of the run's metadata.
    pub fn metadata_filepath(&self) -> (r: String)
        ensures
            r@ == json_path(metadata_stem(filename_of(self@))),
    {
        let mut stem = self.filename();
        stem.append(Self::metadata_file_ending().as_str());
        Self::filepath(stem.as_str())
    }

    /// The path of the summary of the metadata of all runs.
    pub fn combined_metadata_filepath() -> (r: String)
        ensures
            r@ == json_path(metadata_stem("scraper"@)),
    {
        let mut stem = "scraper".to_owned();
        stem.append(Self::metadata_file_ending().as_str());
        Self::filepath(stem.as_str())
    }

    /// The document that holds the components; see [`serialized`].
    pub fn serialize(data: Vec<Value>, metadata: Option<Value>) -> (r: Value)
        ensures
            json_view(r) == serialized(
                json_views(data@),
                match metadata {
                    Some(v) => Some(json_view(v)),
                    None => None,
                },
            ),
    {
        match metadata {
            Some(meta) => {
                let mut doc = meta;
                json_replace_at(&mut doc, RESULTS_PATH, json_array(data));
                doc
            },
            None => {
                let mut members: JsonMap = json_map_new();
                json_map_insert(&mut members, "results".to_owned(), json_array(data));
                json_object(members)
            },
        }
    }

    /// The text of a document as it is written to a file. Every document
    /// has one.
    pub fn render(content: &Value) -> (r: Result<String, DataError>)
        ensures
            r matches Ok(text) && text@ == json_pretty(json_view(*content)),
    {
        match json_to_string_pretty(content) {
            Ok(text) => Ok(text),
            Err(_) => Err(DataError::Unwritable),
        }
    }

    /// Whether an answer to the question of overwriting a file is a yes.
    pub fn confirms_overwrite(answer: &str) -> (r: bool)
        ensures
            r == is_yes(answer@),
    {
        eq_ignore_ascii_case(answer, "y")
    }

    /// Whether a file may be written: a file that does not exist yet
    /// always, one that exists only where the answer to the question of
    /// overwriting it is a yes.
    pub fn may_write(present: bool, answer: &str) -> (r: bool)
        ensures
            r == (!present || is_yes(answer@)),
    {
        !present || Self::confirms_overwrite(answer)
    }

    /// Whether a file of the save directory is the metadata of a run.
    pub fn is_metadata_file(extension: &str, stem: &str) -> (r: bool)
        ensures
            r == names_metadata(extension@, stem@),
    {
        text_eq(extension, "json") && ends_with(stem, Self::metadata_file_ending().as_str())
    }

    /// The key of a metadata file in the summary.
    pub fn component_type(stem: &str) -> (r: String)
        ensures
            r@ == component_type_of(stem@),
    {
        text_before(stem, Self::metadata_file_ending().as_str())
    }

    /// The summary of some metadata files, given by their stems and their
    /// documents: an object with each document under the key of its file.
    pub fn combine_files_contents(files: Vec<(String, Value)>) -> (r: Value)
        ensures
            json_view(r) == Json::Object(combined(file_views(files@))),
    {
        let ghost all = file_views(files@);
        let mut members: JsonMap = json_map_new();
        assert(all.take(0) =~= Seq::<(Seq<char>, Json)>::empty());
        for file in it: files
            invariant
                it.seq() == files@,
                all == file_views(files@),
                crate::json::json_map_view(members) == combined(all.take(it.index() as int)),
        {
            let ghost i = it.index() as int;
            proof {
                assert(all.take(i + 1).drop_last() =~= all.take(i));
                assert(all.take(i + 1).last() == all[i]);
            }
            let (stem, content) = file;
            json_map_insert(&mut members, Self::component_type(stem.as_str()), content);
        }
        assert(all.take(all.len() as int) =~= all);
        json_object(members)
    }

    /// The summary of some metadata files, given by their stems and their
    /// texts. A text that is no JSON is an error.
    pub fn combine_metadata_files(files: &Vec<(String, String)>) -> (r: Result<Value, DataError>)
        ensures
            match r {
                Ok(v) => all_parsed(files.deep_view()) && json_view(v) == Json::Object(
                    combined(parsed_files(files.deep_view())),
                ),
                Err(error) => !all_parsed(files.deep_view()) && error == DataError::InvalidJson,
            },
    {
        let ghost all = files.deep_view();
        let mut parsed: Vec<(String, Value)> = Vec::new();
        let mut i: usize = 0;
        while i < files.len()
            invariant
                i <= files.len(),
                all == files.deep_view(),
                parsed.len() == i,
                forall|j: int| 0 <= j < i ==> json_parsed((#[trigger] all[j]).1) is Some,
                forall|j: int|
                    0 <= j < i ==> (#[trigger] parsed[j]).0@ == all[j].0 && Some(
                        json_view(parsed[j].1),
                    ) == json_parsed(all[j].1),
            decreases files.len() - i,
        {
            match json_from_str(files[i].1.as_str()) {
                Ok(doc) => {
                    parsed.push((crate::text::copy_text(&files[i].0), doc));
                },
                Err(_) => {
                    assert(json_parsed(all[i as int].1) is None);
                    return Err(DataError::InvalidJson);
                },
            }
            i = i + 1;
        }
        assert(file_views(parsed@) =~= parsed_files(all));
        Ok(Self::combine_files_contents(parsed))
    }
}

} // verus!
