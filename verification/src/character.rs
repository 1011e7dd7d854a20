//! Characters: a parallel entity parsed from documents under the
//! characters grouping. The front matter supplies the display name and a
//! bag of arbitrary properties; the body is the description.
use vstd::prelude::*;
use crate::errors::ParseError;
use crate::front_matter::{
    front_matter_split, split_front_matter, yaml_mapping_entries, yaml_str_field,
    yaml_str_field_of, yaml_string_keys_of,
};
use crate::table::str_eq;
use crate::text::{trim, trim_spec};

verus! {

/// One character entity.
#[derive(Debug)]
pub struct Character {
    pub id: String,
    pub name: String,
    pub description: String,
    pub properties: Vec<(String, serde_yaml::Value)>,
}

/// The mathematical content of a `Character`; property values are opaque
/// outside values, so only their keys appear here.
pub struct CharacterView {
    pub id: Seq<char>,
    pub name: Seq<char>,
    pub description: Seq<char>,
    pub property_keys: Seq<Seq<char>>,
}

impl View for Character {
    type V = CharacterView;

    open spec fn view(&self) -> CharacterView {
        CharacterView {
            id: self.id@,
            name: self.name@,
            description: self.description@,
            property_keys: self.properties@.map_values(
                |p: (String, serde_yaml::Value)| p.0@,
            ),
        }
    }
}

pub open spec fn name_key() -> Seq<char> {
    seq!['n', 'a', 'm', 'e']
}

/// The keys kept as properties: all front-matter keys but `name`, in
/// order.
pub open spec fn keys_without_name(ks: Seq<Seq<char>>) -> Seq<Seq<char>>
    decreases ks.len(),
{
    if ks.len() == 0 {
        Seq::empty()
    } else {
        let pre = keys_without_name(ks.drop_last());
        if ks.last() == name_key() {
            pre
        } else {
            pre.push(ks.last())
        }
    }
}

/// The name a front-matter block gives a character: its `name` string
/// field, or the id when the block is empty or has no such field.
pub open spec fn character_name(id: Seq<char>, fm: Seq<char>) -> Seq<char> {
    if fm.len() == 0 {
        id
    } else {
        match yaml_str_field_of(fm, name_key()) {
            Some(t) => t,
            None => id,
        }
    }
}

/// The property keys a front-matter block gives a character.
pub open spec fn character_property_keys(fm: Seq<char>) -> Seq<Seq<char>> {
    if fm.len() == 0 {
        Seq::empty()
    } else {
        keys_without_name(yaml_string_keys_of(fm))
    }
}

/// The character a document denotes.
pub open spec fn character_spec(id: Seq<char>, content: Seq<char>) -> CharacterView {
    let fm = front_matter_split(content).0;
    let body = front_matter_split(content).1;
    CharacterView {
        id: id,
        name: character_name(id, fm),
        description: trim_spec(body),
        property_keys: character_property_keys(fm),
    }
}

impl Character {
    /// Parses one document into a character. Malformed front matter counts
    /// as empty metadata, so this never fails.
    pub fn from_markdown(id: String, content: &str) -> (r: Result<Character, ParseError>)
        ensures
            r is Ok,
            r is Ok ==> r.unwrap()@ == character_spec(id@, content@),
    {
        proof {
            reveal_strlit("name");
            assert("name"@ =~= name_key());
        }
        let (fm, body) = split_front_matter(content);
        let name = if fm.unicode_len() == 0 {
            id.clone()
        } else {
            match yaml_str_field(fm, "name") {
                Some(t) => t,
                None => id.clone(),
            }
        };
        let mut properties: Vec<(String, serde_yaml::Value)> = Vec::new();
        if fm.unicode_len() != 0 {
            let mut entries = yaml_mapping_entries(fm);
            let ghost all = yaml_string_keys_of(fm@);
            let total = entries.len();
            let mut done: usize = 0;
            while entries.len() > 0
                invariant
                    done + entries@.len() == total,
                    total == all.len(),
                    forall|j: int| #![auto] 0 <= j < entries@.len() ==> entries@[j].0@
                        == all[done + j],
                    properties@.map_values(|p: (String, serde_yaml::Value)| p.0@)
                        == keys_without_name(all.take(done as int)),
                decreases entries@.len(),
            {
                let ghost prev = properties@;
                let p = entries.remove(0);
                let keep = !str_eq(p.0.as_str(), "name");
                if keep {
                    properties.push(p);
                }
                proof {
                    reveal_strlit("name");
                    assert("name"@ =~= name_key());
                    assert(all.take(done + 1).drop_last() =~= all.take(done as int));
                    if keep {
                        assert(properties@.map_values(
                            |p: (String, serde_yaml::Value)| p.0@,
                        ) =~= prev.map_values(|p: (String, serde_yaml::Value)| p.0@).push(
                            all[done as int],
                        ));
                    }
                }
                done += 1;
            }
            proof {
                assert(all.take(total as int) =~= all);
            }
        }
        let description = trim(body).to_owned();
        let character = Character { id, name, description, properties };
        proof {
            assert(character@.property_keys =~= character_property_keys(fm@));
        }
        Ok(character)
    }

    /// The property stored under `key`, if any; the `name` key never
    /// appears among the properties.
    pub fn get_property(&self, key: &str) -> (r: Option<&serde_yaml::Value>)
        ensures
            r is Some <==> self@.property_keys.contains(key@),
    {
        let n = self.properties.len();
        let mut i: usize = 0;
        while i < n
            invariant
                0 <= i <= n,
                n == self.properties@.len(),
                forall|j: int| 0 <= j < i ==> self.properties@[j].0@ != key@,
            decreases n - i,
        {
            if str_eq(self.properties[i].0.as_str(), key) {
                proof {
                    assert(self@.property_keys[i as int] == key@);
                }
                return Some(&self.properties[i].1);
            }
            i += 1;
        }
        proof {
            assert(forall|j: int| 0 <= j < self@.property_keys.len()
                ==> self@.property_keys[j] != key@);
        }
        None
    }
}

} // verus!
