//! Front-matter handling: a document whose text holds two `---` delimiters
//! carries a structured metadata block between them; the block is parsed as
//! YAML by an outside crate, and a malformed block counts as empty
//! metadata, never as an error.
use vstd::prelude::*;
use crate::text::{find_at, lemma_find_at};

verus! {

pub open spec fn dashes() -> Seq<char> {
    seq!['-', '-', '-']
}

/// The front-matter block and the body of a document: when two `---`
/// delimiters occur, the text between them and the text after the second;
/// otherwise no front matter, and the whole text as body.
pub open spec fn front_matter_split(s: Seq<char>) -> (Seq<char>, Seq<char>) {
    match find_at(s, 0, dashes()) {
        None => (Seq::empty(), s),
        Some(i) => match find_at(s, i + 3, dashes()) {
            None => (Seq::empty(), s),
            Some(j) => (s.subrange(i + 3, j), s.subrange(j + 3, s.len() as int)),
        },
    }
}

/// Splits a document into its front-matter block and its body.
pub fn split_front_matter(content: &str) -> (r: (&str, &str))
    ensures
        r.0@ == front_matter_split(content@).0,
        r.1@ == front_matter_split(content@).1,
{
    proof {
        reveal_strlit("---");
        assert("---"@ =~= dashes());
    }
    let n = content.unicode_len();
    match crate::text::find_from(content, 0, "---") {
        None => (content.substring_char(0, 0), content),
        Some(i) => {
            proof {
                lemma_find_at(content@, 0, dashes());
            }
            match crate::text::find_from(content, i + 3, "---") {
                None => (content.substring_char(0, 0), content),
                Some(j) => {
                    proof {
                        lemma_find_at(content@, i + 3, dashes());
                    }
                    (content.substring_char(i + 3, j), content.substring_char(j + 3, n))
                },
            }
        },
    }
}

#[verifier::external_type_specification]
#[verifier::external_body]
pub struct ExYamlValue(serde_yaml::Value);

/// The string field named `key` of the YAML document `text`, when the
/// document parses as a mapping carrying a string under that key; a
/// function of the two texts alone.
pub uninterp spec fn yaml_str_field_of(text: Seq<char>, key: Seq<char>) -> Option<Seq<char>>;

/// Relies on serde_yaml::from_str, serde_yaml::Value::get and
/// serde_yaml::Value::as_str: looks up the string field named `key` in the
/// parsed front-matter document; the result depends on the two texts alone.
#[verifier::external_body]
pub(crate) fn yaml_str_field(text: &str, key: &str) -> (r: Option<String>)
    ensures
        match r {
            Some(s) => yaml_str_field_of(text@, key@) == Some(s@),
            None => yaml_str_field_of(text@, key@) is None,
        },
{
    match serde_yaml::from_str::<serde_yaml::Value>(text) {
        Ok(doc) => doc.get(key).and_then(|v| v.as_str()).map(|s| s.to_owned()),
        Err(_) => None,
    }
}

/// The string keys of the YAML document's top-level mapping, in document
/// order, when the document parses as a mapping; a function of the text
/// alone.
pub uninterp spec fn yaml_string_keys_of(text: Seq<char>) -> Seq<Seq<char>>;

/// Relies on serde_yaml::from_str: hands back the entries of the parsed
/// front-matter document's top-level mapping whose keys are strings, in
/// document order; the keys depend on the text alone.
#[verifier::external_body]
pub(crate) fn yaml_mapping_entries(text: &str) -> (r: Vec<(String, serde_yaml::Value)>)
    ensures
        r@.len() == yaml_string_keys_of(text@).len(),
        forall|k: int| #![auto] 0 <= k < r@.len() ==> r@[k].0@ == yaml_string_keys_of(
            text@,
        )[k],
{
    match serde_yaml::from_str::<serde_yaml::Value>(text) {
        Ok(serde_yaml::Value::Mapping(m)) => m
            .into_iter()
            .filter_map(
                |(k, v)| match k {
                    serde_yaml::Value::String(s) => Some((s, v)),
                    _ => None,
                },
            )
            .collect(),
        _ => Vec::new(),
    }
}

} // verus!
