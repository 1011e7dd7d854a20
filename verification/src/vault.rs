//! The vault: an identifier-keyed collection of parsed scenes and
//! characters, built once from a caller-supplied collection of documents.
//! A duplicate identifier silently overwrites (last write wins); loading
//! fails only when no scene document is present at all.
use vstd::prelude::*;
use crate::character::{character_spec, Character, CharacterView};
use crate::errors::LoadError;
use crate::scene::{scene_spec, Scene, SceneView};
use crate::table::{sorted_strings, StrTable};

verus! {

/// One raw document handed to the loader: an identifier derived from the
/// document's location, its text, and whether its location marks it as a
/// character document.
#[derive(Debug)]
pub struct Document {
    pub id: String,
    pub text: String,
    pub is_character: bool,
}

/// The mathematical content of a `Document`.
pub struct DocumentView {
    pub id: Seq<char>,
    pub text: Seq<char>,
    pub is_character: bool,
}

impl View for Document {
    type V = DocumentView;

    open spec fn view(&self) -> DocumentView {
        DocumentView { id: self.id@, text: self.text@, is_character: self.is_character }
    }
}

/// The views of a sequence of documents.
pub open spec fn docs_view(ds: Seq<Document>) -> Seq<DocumentView> {
    ds.map_values(|d: Document| d@)
}

/// The scene collection a document sequence loads to: each non-character
/// document's parse, keyed by id, later documents overwriting earlier ones.
pub open spec fn scenes_map(ds: Seq<DocumentView>) -> Map<Seq<char>, SceneView>
    decreases ds.len(),
{
    if ds.len() == 0 {
        Map::empty()
    } else {
        let m = scenes_map(ds.drop_last());
        let d = ds.last();
        if !d.is_character {
            m.insert(d.id, scene_spec(d.id, d.text))
        } else {
            m
        }
    }
}

/// The character collection a document sequence loads to.
pub open spec fn characters_map(ds: Seq<DocumentView>) -> Map<Seq<char>, CharacterView>
    decreases ds.len(),
{
    if ds.len() == 0 {
        Map::empty()
    } else {
        let m = characters_map(ds.drop_last());
        let d = ds.last();
        if d.is_character {
            m.insert(d.id, character_spec(d.id, d.text))
        } else {
            m
        }
    }
}

/// The scene graph: all scenes and characters, keyed by identifier in two
/// separate namespaces. Built once and read-only thereafter.
pub struct Vault {
    pub scenes: StrTable<Scene>,
    pub characters: StrTable<Character>,
}

impl Vault {
    pub open spec fn wf(&self) -> bool {
        self.scenes.wf() && self.characters.wf()
    }

    /// Builds the vault from raw documents, parsing each one; fails only
    /// when the documents hold no scene at all.
    pub fn load(documents: Vec<Document>) -> (r: Result<Vault, LoadError>)
        ensures
            match r {
                Ok(v) => v.wf() && v.scenes@ == scenes_map(docs_view(documents@))
                    && v.characters@ == characters_map(docs_view(documents@)) && exists|i: int|
                    0 <= i < documents@.len() && !documents@[i].is_character,
                Err(_) => forall|i: int|
                    0 <= i < documents@.len() ==> documents@[i].is_character,
            },
    {
        let ghost dv = docs_view(documents@);
        let mut scenes: StrTable<Scene> = StrTable::new();
        let mut characters: StrTable<Character> = StrTable::new();
        let n = documents.len();
        let mut k: usize = 0;
        while k < n
            invariant
                0 <= k <= n,
                n == documents@.len(),
                dv == docs_view(documents@),
                scenes.wf(),
                characters.wf(),
                scenes@ == scenes_map(dv.take(k as int)),
                characters@ == characters_map(dv.take(k as int)),
                (exists|i: int| 0 <= i < k && !dv[i].is_character) <==> scenes.entries@.len()
                    > 0,
            decreases n - k,
        {
            proof {
                assert(dv.take(k + 1).drop_last() =~= dv.take(k as int));
                assert(dv.take(k + 1).last() == documents@[k as int]@);
            }
            let d = &documents[k];
            if d.is_character {
                let c = match Character::from_markdown(d.id.clone(), d.text.as_str()) {
                    Ok(c) => c,
                    Err(_) => {
                        proof {
                            assert(false);
                        }
                        vstd::pervasive::unreached()
                    },
                };
                characters.insert(d.id.clone(), c);
            } else {
                let s = match Scene::from_markdown(d.id.clone(), d.text.as_str()) {
                    Ok(s) => s,
                    Err(_) => {
                        proof {
                            assert(false);
                        }
                        vstd::pervasive::unreached()
                    },
                };
                scenes.insert(d.id.clone(), s);
            }
            k += 1;
        }
        proof {
            assert(dv.take(n as int) =~= dv);
            if exists|i: int| 0 <= i < n && !dv[i].is_character {
                let i = choose|i: int| 0 <= i < n && !dv[i].is_character;
                assert(!documents@[i].is_character);
            } else {
                assert forall|i: int| 0 <= i < documents@.len() implies documents@[i].is_character by {
                    assert(dv[i].is_character);
                }
            }
        }
        if scenes.len() == 0 {
            Err(LoadError {})
        } else {
            Ok(Vault { scenes, characters })
        }
    }

    /// The scene stored under `id`, if any.
    pub fn get_scene(&self, id: &str) -> (r: Option<&Scene>)
        requires
            self.wf(),
        ensures
            match r {
                Some(s) => self.scenes@.contains_key(id@) && s@ == self.scenes@[id@],
                None => !self.scenes@.contains_key(id@),
            },
    {
        self.scenes.get(id)
    }

    /// All scene ids, sorted lexicographically.
    pub fn list_scenes(&self) -> (r: Vec<String>)
        ensures
            r@.len() == self.scenes.entries@.len(),
            sorted_strings(r@),
            r@.map_values(|s: String| s@).to_multiset() == self.scenes.entries@.map_values(
                |p: (String, Scene)| p.0@,
            ).to_multiset(),
    {
        self.scenes.sorted_keys()
    }

    /// The character stored under `id`, if any.
    pub fn get_character(&self, id: &str) -> (r: Option<&Character>)
        requires
            self.wf(),
        ensures
            match r {
                Some(c) => self.characters@.contains_key(id@) && c@ == self.characters@[id@],
                None => !self.characters@.contains_key(id@),
            },
    {
        self.characters.get(id)
    }

    /// All character ids, sorted lexicographically.
    pub fn list_characters(&self) -> (r: Vec<String>)
        ensures
            r@.len() == self.characters.entries@.len(),
            sorted_strings(r@),
            r@.map_values(|s: String| s@).to_multiset()
                == self.characters.entries@.map_values(
                |p: (String, Character)| p.0@,
            ).to_multiset(),
    {
        self.characters.sorted_keys()
    }
}

} // verus!
