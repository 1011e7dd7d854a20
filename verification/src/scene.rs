//! Scenes and choices. A scene is parsed from one document: front matter
//! supplies the title, and the body is scanned for choices in two forms,
//! `{if: cond}[[target|label]](effects)` and `[[target|label]](effects)`.
//! The two scans run independently over the whole body, so a conditional
//! wikilink also yields an unconditional duplicate; that duplication is
//! part of the observed behaviour and is reproduced deliberately.
use vstd::prelude::*;
use crate::conditions::{parse_condition, parse_condition_spec, Condition, ConditionView};
use crate::dialogue::{
    dialogue_view, scan_dialogue, extract_dialogue, DialogueLine, DialogueLineView,
};
use crate::effects::{parse_effects, parse_effects_spec, Effect, EffectView, effects_view};
use crate::errors::ParseError;
use crate::front_matter::{front_matter_split, split_front_matter, yaml_str_field,
    yaml_str_field_of};
use crate::text::{contains_spec, contains_str, lemma_run_end, matches_at, run_end, until_pred};

verus! {

/// One outgoing edge of a scene.
#[derive(Debug)]
pub struct Choice {
    pub target: String,
    pub label: String,
    pub effects: Vec<Effect>,
    pub condition: Option<Condition>,
}

/// The mathematical content of a `Choice`.
pub struct ChoiceView {
    pub target: Seq<char>,
    pub label: Seq<char>,
    pub effects: Seq<EffectView>,
    pub condition: Option<ConditionView>,
}

impl View for Choice {
    type V = ChoiceView;

    open spec fn view(&self) -> ChoiceView {
        ChoiceView {
            target: self.target@,
            label: self.label@,
            effects: effects_view(self.effects@),
            condition: match self.condition {
                Some(c) => Some(c@),
                None => None,
            },
        }
    }
}

/// The views of a sequence of choices.
pub open spec fn choices_view(cs: Seq<Choice>) -> Seq<ChoiceView> {
    cs.map_values(|c: Choice| c@)
}

/// One narrative node: display text, outgoing choices and extracted
/// dialogue.
#[derive(Debug)]
pub struct Scene {
    pub id: String,
    pub title: String,
    pub content: String,
    pub choices: Vec<Choice>,
    pub dialogue: Vec<DialogueLine>,
}

/// The mathematical content of a `Scene`.
pub struct SceneView {
    pub id: Seq<char>,
    pub title: Seq<char>,
    pub content: Seq<char>,
    pub choices: Seq<ChoiceView>,
    pub dialogue: Seq<DialogueLineView>,
}

impl View for Scene {
    type V = SceneView;

    open spec fn view(&self) -> SceneView {
        SceneView {
            id: self.id@,
            title: self.title@,
            content: self.content@,
            choices: choices_view(self.choices@),
            dialogue: dialogue_view(self.dialogue@),
        }
    }
}

/// The pieces of one choice occurrence in a body, before the condition and
/// effect texts are parsed.
pub struct RawChoice {
    pub cond_text: Option<Seq<char>>,
    pub target: Seq<char>,
    pub label: Seq<char>,
    pub effects_text: Option<Seq<char>>,
}

/// The characters a wikilink target may hold: anything but `|` and `]`.
pub open spec fn target_pred() -> spec_fn(char) -> bool {
    |c: char| c != '|' && c != ']'
}

/// The wikilink standing at position `i`, if one does: `[[`, a non-empty
/// target without `|` or `]`, `|`, a non-empty label without `]`, `]]`,
/// and immediately after it an optional parenthesized effects text without
/// `)`. Yields target, label, effects text and the position after the
/// match.
pub open spec fn link_at(s: Seq<char>, i: int) -> Option<
    (Seq<char>, Seq<char>, Option<Seq<char>>, int),
> {
    if !matches_at(s, i, seq!['[', '[']) {
        None
    } else {
        let te = run_end(s, i + 2, target_pred());
        if te == i + 2 || te >= s.len() || s[te] != '|' {
            None
        } else {
            let le = run_end(s, te + 1, until_pred(']'));
            if le == te + 1 || le + 1 >= s.len() || s[le + 1] != ']' {
                None
            } else {
                let base = le + 2;
                let target = s.subrange(i + 2, te);
                let label = s.subrange(te + 1, le);
                if base < s.len() && s[base] == '(' {
                    let ee = run_end(s, base + 1, until_pred(')'));
                    if ee < s.len() {
                        Some((target, label, Some(s.subrange(base + 1, ee)), ee + 1))
                    } else {
                        Some((target, label, None, base))
                    }
                } else {
                    Some((target, label, None, base))
                }
            }
        }
    }
}

/// A wikilink match starts after `i` and ends within the text.
pub proof fn lemma_link_at_bounds(s: Seq<char>, i: int)
    ensures
        match link_at(s, i) {
            Some(p) => i < p.3 <= s.len(),
            None => true,
        },
{
    if matches_at(s, i, seq!['[', '[']) {
        lemma_run_end(s, i + 2, target_pred());
        let te = run_end(s, i + 2, target_pred());
        if te > i + 2 && te < s.len() {
            lemma_run_end(s, te + 1, until_pred(']'));
            let le = run_end(s, te + 1, until_pred(']'));
            if le > te + 1 && le + 1 < s.len() {
                if le + 2 < s.len() && s[le + 2] == '(' {
                    lemma_run_end(s, le + 3, until_pred(')'));
                }
            }
        }
    }
}

/// The conditional choice standing at position `i`, if one does: `{if:`, a
/// non-empty condition text without `}`, `}`, and immediately a wikilink.
pub open spec fn cond_choice_at(s: Seq<char>, i: int) -> Option<(RawChoice, int)> {
    if !matches_at(s, i, seq!['{', 'i', 'f', ':']) {
        None
    } else {
        let ce = run_end(s, i + 4, until_pred('}'));
        if ce == i + 4 || ce >= s.len() {
            None
        } else {
            match link_at(s, ce + 1) {
                None => None,
                Some((t, l, e, end)) => Some(
                    (
                        RawChoice {
                            cond_text: Some(s.subrange(i + 4, ce)),
                            target: t,
                            label: l,
                            effects_text: e,
                        },
                        end,
                    ),
                ),
            }
        }
    }
}

/// A conditional-choice match starts after `i` and ends within the text.
pub proof fn lemma_cond_choice_at_bounds(s: Seq<char>, i: int)
    ensures
        match cond_choice_at(s, i) {
            Some(p) => i < p.1 <= s.len(),
            None => true,
        },
{
    if matches_at(s, i, seq!['{', 'i', 'f', ':']) {
        lemma_run_end(s, i + 4, until_pred('}'));
        let ce = run_end(s, i + 4, until_pred('}'));
        if ce > i + 4 && ce < s.len() {
            lemma_link_at_bounds(s, ce + 1);
        }
    }
}

/// All conditional choices found scanning from position `i`.
pub open spec fn scan_cond_choices(s: Seq<char>, i: int) -> Seq<RawChoice>
    decreases s.len() - i,
    when 0 <= i
    via scan_cond_choices_decreases
{
    if i >= s.len() {
        Seq::empty()
    } else {
        match cond_choice_at(s, i) {
            Some(p) => seq![p.0] + scan_cond_choices(s, p.1),
            None => scan_cond_choices(s, i + 1),
        }
    }
}

#[via_fn]
proof fn scan_cond_choices_decreases(s: Seq<char>, i: int) {
    lemma_cond_choice_at_bounds(s, i);
}

/// All plain wikilink choices found scanning from position `i`; a match
/// whose text holds `{if:` is passed over, so a conditional choice whose
/// label or effects mention `{if:` is not duplicated.
pub open spec fn scan_plain_choices(s: Seq<char>, i: int) -> Seq<RawChoice>
    decreases s.len() - i,
    when 0 <= i
    via scan_plain_choices_decreases
{
    if i >= s.len() {
        Seq::empty()
    } else {
        match link_at(s, i) {
            Some((t, l, e, end)) => if contains_spec(
                s.subrange(i, end),
                seq!['{', 'i', 'f', ':'],
            ) {
                scan_plain_choices(s, end)
            } else {
                seq![
                    RawChoice { cond_text: None, target: t, label: l, effects_text: e },
                ] + scan_plain_choices(s, end)
            },
            None => scan_plain_choices(s, i + 1),
        }
    }
}

#[via_fn]
proof fn scan_plain_choices_decreases(s: Seq<char>, i: int) {
    lemma_link_at_bounds(s, i);
}

/// The choice a raw occurrence denotes: a condition text that fails to
/// parse is dropped (the choice becomes unconditional), and an effects
/// text that fails to parse yields an empty effects list.
pub open spec fn choice_of_raw(rc: RawChoice) -> ChoiceView {
    ChoiceView {
        target: rc.target,
        label: rc.label,
        effects: match rc.effects_text {
            Some(et) => match parse_effects_spec(et) {
                Some(es) => es,
                None => Seq::empty(),
            },
            None => Seq::empty(),
        },
        condition: match rc.cond_text {
            Some(ct) => parse_condition_spec(ct),
            None => None,
        },
    }
}

/// All choices of a body: the conditional scan's findings first, then the
/// plain scan's, each mapped through `choice_of_raw`.
pub open spec fn body_choices(body: Seq<char>) -> Seq<ChoiceView> {
    scan_cond_choices(body, 0).map_values(|rc: RawChoice| choice_of_raw(rc))
        + scan_plain_choices(body, 0).map_values(|rc: RawChoice| choice_of_raw(rc))
}

/// The scene a document denotes: the body is the text after the front
/// matter, the title is the front matter's `title` string field or the id,
/// and choices and dialogue are scanned from the body.
pub open spec fn scene_spec(id: Seq<char>, content: Seq<char>) -> SceneView {
    let fm = front_matter_split(content).0;
    let body = front_matter_split(content).1;
    SceneView {
        id: id,
        title: scene_title(id, fm),
        content: body,
        choices: body_choices(body),
        dialogue: scan_dialogue(body, 0),
    }
}

/// The title a front-matter block gives a scene: its `title` string field,
/// or the id when the block is empty or has no such field.
pub open spec fn scene_title(id: Seq<char>, fm: Seq<char>) -> Seq<char> {
    if fm.len() == 0 {
        id
    } else {
        match yaml_str_field_of(fm, seq!['t', 'i', 't', 'l', 'e']) {
            Some(t) => t,
            None => id,
        }
    }
}

/// Skips the run of wikilink-target characters starting at `i`.
fn skip_target_chars(s: &str, i: usize) -> (r: usize)
    requires
        i <= s@.len(),
    ensures
        r == run_end(s@, i as int, target_pred()),
        i <= r <= s@.len(),
    decreases s@.len() - i,
{
    let n = s.unicode_len();
    if i < n && ({
        let c = s.get_char(i);
        c != '|' && c != ']'
    }) {
        skip_target_chars(s, i + 1)
    } else {
        i
    }
}

/// The wikilink standing at position `i`, if one does.
fn try_link_at(s: &str, i: usize) -> (r: Option<(String, String, Option<String>, usize)>)
    requires
        i <= s@.len(),
    ensures
        r is Some <==> link_at(s@, i as int) is Some,
        r is Some ==> ({
            let q = link_at(s@, i as int).unwrap();
            let p = r.unwrap();
            &&& p.0@ == q.0
            &&& p.1@ == q.1
            &&& (match (p.2, q.2) {
                (Some(a), Some(b)) => a@ == b,
                (None, None) => true,
                _ => false,
            })
            &&& p.3 as int == q.3
            &&& i < p.3 <= s@.len()
        }),
{
    proof {
        reveal_strlit("[[");
        assert("[["@ =~= seq!['[', '[']);
    }
    if !crate::text::starts_at(s, i, "[[") {
        return None;
    }
    let n = s.unicode_len();
    let te = skip_target_chars(s, i + 2);
    if te == i + 2 || te >= n || s.get_char(te) != '|' {
        return None;
    }
    let le = crate::text::skip_until_char(s, te + 1, ']');
    if le == te + 1 || le >= n || le + 1 >= n || s.get_char(le + 1) != ']' {
        return None;
    }
    let base = le + 2;
    let target = s.substring_char(i + 2, te).to_owned();
    let label = s.substring_char(te + 1, le).to_owned();
    if base < n && s.get_char(base) == '(' {
        let ee = crate::text::skip_until_char(s, base + 1, ')');
        if ee < n {
            let effects_text = s.substring_char(base + 1, ee).to_owned();
            Some((target, label, Some(effects_text), ee + 1))
        } else {
            Some((target, label, None, base))
        }
    } else {
        Some((target, label, None, base))
    }
}

/// The conditional choice standing at position `i`, if one does: yields
/// the condition text, target, label, effects text and end position.
fn try_cond_at(s: &str, i: usize) -> (r: Option<
    (String, String, String, Option<String>, usize),
>)
    requires
        i <= s@.len(),
    ensures
        r is Some <==> cond_choice_at(s@, i as int) is Some,
        r is Some ==> ({
            let q = cond_choice_at(s@, i as int).unwrap();
            let p = r.unwrap();
            &&& q.0.cond_text == Some(p.0@)
            &&& p.1@ == q.0.target
            &&& p.2@ == q.0.label
            &&& (match (p.3, q.0.effects_text) {
                (Some(a), Some(b)) => a@ == b,
                (None, None) => true,
                _ => false,
            })
            &&& p.4 as int == q.1
            &&& i < p.4 <= s@.len()
        }),
{
    proof {
        reveal_strlit("{if:");
        assert("{if:"@ =~= seq!['{', 'i', 'f', ':']);
    }
    if !crate::text::starts_at(s, i, "{if:") {
        return None;
    }
    let n = s.unicode_len();
    let ce = crate::text::skip_until_char(s, i + 4, '}');
    if ce == i + 4 || ce >= n {
        return None;
    }
    match try_link_at(s, ce + 1) {
        None => None,
        Some(p) => {
            let cond_text = s.substring_char(i + 4, ce).to_owned();
            Some((cond_text, p.0, p.1, p.2, p.3))
        },
    }
}

/// Builds the choice a raw occurrence denotes.
fn make_choice(
    cond_text: Option<String>,
    target: String,
    label: String,
    effects_text: Option<String>,
) -> (r: Choice)
    ensures
        r@ == choice_of_raw(
            RawChoice {
                cond_text: match cond_text {
                    Some(ct) => Some(ct@),
                    None => None,
                },
                target: target@,
                label: label@,
                effects_text: match effects_text {
                    Some(et) => Some(et@),
                    None => None,
                },
            },
        ),
{
    let condition: Option<Condition> = match &cond_text {
        Some(ct) => match parse_condition(ct.as_str()) {
            Ok(c) => Some(c),
            Err(_) => None,
        },
        None => None,
    };
    let effects: Vec<Effect> = match &effects_text {
        Some(et) => match parse_effects(et.as_str()) {
            Ok(es) => es,
            Err(_) => Vec::new(),
        },
        None => Vec::new(),
    };
    proof {
        assert(effects_view(Seq::<Effect>::empty()) =~= Seq::<EffectView>::empty());
    }
    Choice { target, label, effects, condition }
}

/// Scans a body for conditional choices, leftmost first.
fn extract_cond_choices(body: &str) -> (r: Vec<Choice>)
    ensures
        choices_view(r@) == scan_cond_choices(body@, 0).map_values(
            |rc: RawChoice| choice_of_raw(rc),
        ),
{
    let n = body.unicode_len();
    let mut r: Vec<Choice> = Vec::new();
    let mut i: usize = 0;
    while i < n
        invariant
            0 <= i <= n,
            n == body@.len(),
            scan_cond_choices(body@, 0).map_values(|rc: RawChoice| choice_of_raw(rc))
                == choices_view(r@) + scan_cond_choices(body@, i as int).map_values(
                |rc: RawChoice| choice_of_raw(rc),
            ),
        decreases n - i,
    {
        match try_cond_at(body, i) {
            Some(p) => {
                let ghost prev = r@;
                let ghost step = scan_cond_choices(body@, i as int);
                let c = make_choice(Some(p.0), p.1, p.2, p.3);
                r.push(c);
                proof {
                    assert(step.map_values(|rc: RawChoice| choice_of_raw(rc)) =~= seq![
                        choice_of_raw(step[0]),
                    ] + scan_cond_choices(body@, p.4 as int).map_values(
                        |rc: RawChoice| choice_of_raw(rc),
                    ));
                    assert(choices_view(r@) =~= choices_view(prev) + seq![r@.last()@]);
                    assert(r@.last()@ == choice_of_raw(step[0]));
                    assert(choices_view(prev) + step.map_values(
                        |rc: RawChoice| choice_of_raw(rc),
                    ) =~= choices_view(r@) + scan_cond_choices(body@, p.4 as int).map_values(
                        |rc: RawChoice| choice_of_raw(rc),
                    ));
                }
                i = p.4;
            },
            None => {
                i += 1;
            },
        }
    }
    proof {
        assert(scan_cond_choices(body@, 0).map_values(|rc: RawChoice| choice_of_raw(rc))
            =~= choices_view(r@));
    }
    r
}

/// Scans a body for plain wikilink choices, passing over a match whose
/// text holds `{if:`.
fn extract_plain_choices(body: &str) -> (r: Vec<Choice>)
    ensures
        choices_view(r@) == scan_plain_choices(body@, 0).map_values(
            |rc: RawChoice| choice_of_raw(rc),
        ),
{
    proof {
        reveal_strlit("{if:");
        assert("{if:"@ =~= seq!['{', 'i', 'f', ':']);
    }
    let n = body.unicode_len();
    let mut r: Vec<Choice> = Vec::new();
    let mut i: usize = 0;
    while i < n
        invariant
            0 <= i <= n,
            n == body@.len(),
            scan_plain_choices(body@, 0).map_values(|rc: RawChoice| choice_of_raw(rc))
                == choices_view(r@) + scan_plain_choices(body@, i as int).map_values(
                |rc: RawChoice| choice_of_raw(rc),
            ),
        decreases n - i,
    {
        proof {
            reveal_strlit("{if:");
            assert("{if:"@ =~= seq!['{', 'i', 'f', ':']);
        }
        match try_link_at(body, i) {
            Some(p) => {
                let ghost step = scan_plain_choices(body@, i as int);
                let span = body.substring_char(i, p.3);
                if contains_str(span, "{if:") {
                    proof {
                        assert(step.map_values(|rc: RawChoice| choice_of_raw(rc))
                            =~= scan_plain_choices(body@, p.3 as int).map_values(
                            |rc: RawChoice| choice_of_raw(rc),
                        ));
                    }
                    i = p.3;
                } else {
                    let ghost prev = r@;
                    let c = make_choice(None, p.0, p.1, p.2);
                    r.push(c);
                    proof {
                        assert(step.map_values(|rc: RawChoice| choice_of_raw(rc)) =~= seq![
                            choice_of_raw(step[0]),
                        ] + scan_plain_choices(body@, p.3 as int).map_values(
                            |rc: RawChoice| choice_of_raw(rc),
                        ));
                        assert(choices_view(r@) =~= choices_view(prev) + seq![
                            r@.last()@,
                        ]);
                        assert(r@.last()@ == choice_of_raw(step[0]));
                        assert(choices_view(prev) + step.map_values(
                            |rc: RawChoice| choice_of_raw(rc),
                        ) =~= choices_view(r@) + scan_plain_choices(
                            body@,
                            p.3 as int,
                        ).map_values(|rc: RawChoice| choice_of_raw(rc)));
                    }
                    i = p.3;
                }
            },
            None => {
                i += 1;
            },
        }
    }
    proof {
        assert(scan_plain_choices(body@, 0).map_values(|rc: RawChoice| choice_of_raw(rc))
            =~= choices_view(r@));
    }
    r
}

/// The text with every wikilink (and its effects suffix) removed, scanning
/// from position `i`.
pub open spec fn strip_links_from(s: Seq<char>, i: int) -> Seq<char>
    decreases s.len() - i,
    when 0 <= i
    via strip_links_decreases
{
    if i >= s.len() {
        Seq::empty()
    } else {
        match link_at(s, i) {
            Some(p) => strip_links_from(s, p.3),
            None => seq![s[i]] + strip_links_from(s, i + 1),
        }
    }
}

#[via_fn]
proof fn strip_links_decreases(s: Seq<char>, i: int) {
    lemma_link_at_bounds(s, i);
}

/// Removes every wikilink, with its optional effects suffix, from the
/// content.
pub fn strip_wikilinks(content: &str) -> (r: String)
    ensures
        r@ == strip_links_from(content@, 0),
{
    let n = content.unicode_len();
    let mut r = String::new();
    let mut i: usize = 0;
    while i < n
        invariant
            0 <= i <= n,
            n == content@.len(),
            strip_links_from(content@, 0) == r@ + strip_links_from(content@, i as int),
        decreases n - i,
    {
        match try_link_at(content, i) {
            Some(p) => {
                i = p.3;
            },
            None => {
                let piece = content.substring_char(i, i + 1);
                r.append(piece);
                proof {
                    assert(piece@ =~= seq![content@[i as int]]);
                }
                i += 1;
            },
        }
    }
    proof {
        assert(strip_links_from(content@, i as int) =~= Seq::<char>::empty());
        assert(r@ =~= strip_links_from(content@, 0));
    }
    r
}

impl Scene {
    /// Parses one document into a scene. Malformed inline markup degrades
    /// gracefully, so this never fails.
    pub fn from_markdown(id: String, content: &str) -> (r: Result<Scene, ParseError>)
        ensures
            r is Ok,
            r is Ok ==> r.unwrap()@ == scene_spec(id@, content@),
    {
        proof {
            reveal_strlit("title");
            assert("title"@ =~= seq!['t', 'i', 't', 'l', 'e']);
        }
        let (fm, body) = split_front_matter(content);
        let title = if fm.unicode_len() == 0 {
            id.clone()
        } else {
            match yaml_str_field(fm, "title") {
                Some(t) => t,
                None => id.clone(),
            }
        };
        let mut choices = extract_cond_choices(body);
        let mut plain = extract_plain_choices(body);
        let ghost cond_part = choices@;
        let ghost plain_part = plain@;
        choices.append(&mut plain);
        let dialogue = extract_dialogue(body);
        let scene = Scene { id, title, content: body.to_owned(), choices, dialogue };
        proof {
            assert(choices_view(scene.choices@) =~= choices_view(cond_part)
                + choices_view(plain_part));
            assert(scene@.choices =~= body_choices(body@));
        }
        Ok(scene)
    }
}

} // verus!
