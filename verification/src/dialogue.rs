//! Dialogue lines embedded in scene text: `**Character**: utterance`, the
//! utterance running to the end of the line, with matching surrounding
//! quotes stripped.
use vstd::prelude::*;
use crate::text::{lemma_run_end, matches_at, run_end, space_pred, until_pred};

verus! {

/// One spoken line extracted from a scene body.
#[derive(Debug)]
pub struct DialogueLine {
    pub character: String,
    pub text: String,
}

/// The mathematical content of a `DialogueLine`.
pub struct DialogueLineView {
    pub character: Seq<char>,
    pub text: Seq<char>,
}

impl View for DialogueLine {
    type V = DialogueLineView;

    open spec fn view(&self) -> DialogueLineView {
        DialogueLineView { character: self.character@, text: self.text@ }
    }
}

/// The views of a sequence of dialogue lines.
pub open spec fn dialogue_view(ds: Seq<DialogueLine>) -> Seq<DialogueLineView> {
    ds.map_values(|d: DialogueLine| d@)
}

/// The dialogue line starting at position `i`, if one stands there:
/// `**`, a non-empty name without `*`, `**:`, optional whitespace, then a
/// non-empty utterance running to the end of the line. The returned
/// position is just past the line's newline, or the end of the text.
pub open spec fn dialogue_at(s: Seq<char>, i: int) -> Option<(Seq<char>, Seq<char>, int)> {
    if !matches_at(s, i, seq!['*', '*']) {
        None
    } else {
        let ne = run_end(s, i + 2, until_pred('*'));
        if ne == i + 2 {
            None
        } else if !matches_at(s, ne, seq!['*', '*', ':']) {
            None
        } else {
            let ts = run_end(s, ne + 3, space_pred());
            let te = run_end(s, ts, until_pred('\n'));
            if te == ts {
                None
            } else {
                let end = if te < s.len() {
                    te + 1
                } else {
                    te
                };
                Some((s.subrange(i + 2, ne), s.subrange(ts, te), end))
            }
        }
    }
}

/// A dialogue match starts after `i` and ends within the text.
pub proof fn lemma_dialogue_at_bounds(s: Seq<char>, i: int)
    ensures
        match dialogue_at(s, i) {
            Some(p) => i < p.2 <= s.len(),
            None => true,
        },
{
    if matches_at(s, i, seq!['*', '*']) {
        lemma_run_end(s, i + 2, until_pred('*'));
        let ne = run_end(s, i + 2, until_pred('*'));
        if ne > i + 2 && matches_at(s, ne, seq!['*', '*', ':']) {
            lemma_run_end(s, ne + 3, space_pred());
            let ts = run_end(s, ne + 3, space_pred());
            lemma_run_end(s, ts, until_pred('\n'));
        }
    }
}

/// The utterance with one pair of matching surrounding quotes removed.
pub open spec fn strip_quotes_spec(t: Seq<char>) -> Seq<char> {
    if t.len() >= 2 && ((t[0] == '"' && t.last() == '"') || (t[0] == '\'' && t.last()
        == '\'')) {
        t.subrange(1, t.len() - 1)
    } else {
        t
    }
}

/// All dialogue lines found scanning from position `i`, leftmost first and
/// non-overlapping.
pub open spec fn scan_dialogue(s: Seq<char>, i: int) -> Seq<DialogueLineView>
    decreases s.len() - i,
    when 0 <= i
    via scan_dialogue_decreases
{
    if i >= s.len() {
        Seq::empty()
    } else {
        match dialogue_at(s, i) {
            Some(p) => seq![
                DialogueLineView { character: p.0, text: strip_quotes_spec(p.1) },
            ] + scan_dialogue(s, p.2),
            None => scan_dialogue(s, i + 1),
        }
    }
}

#[via_fn]
proof fn scan_dialogue_decreases(s: Seq<char>, i: int) {
    lemma_dialogue_at_bounds(s, i);
}

/// The text with every dialogue line removed, scanning from position `i`.
pub open spec fn strip_dialogue_from(s: Seq<char>, i: int) -> Seq<char>
    decreases s.len() - i,
    when 0 <= i
    via strip_dialogue_decreases
{
    if i >= s.len() {
        Seq::empty()
    } else {
        match dialogue_at(s, i) {
            Some(p) => strip_dialogue_from(s, p.2),
            None => seq![s[i]] + strip_dialogue_from(s, i + 1),
        }
    }
}

#[via_fn]
proof fn strip_dialogue_decreases(s: Seq<char>, i: int) {
    lemma_dialogue_at_bounds(s, i);
}

/// The dialogue line starting at position `i`, if one stands there.
fn dialogue_try_at(s: &str, i: usize) -> (r: Option<(String, String, usize)>)
    requires
        i <= s@.len(),
    ensures
        r is Some <==> dialogue_at(s@, i as int) is Some,
        r is Some ==> ({
            let q = dialogue_at(s@, i as int).unwrap();
            let p = r.unwrap();
            p.0@ == q.0 && p.1@ == strip_quotes_spec(q.1) && p.2 as int == q.2 && i
                < p.2 <= s@.len()
        }),
{
    proof {
        reveal_strlit("**");
        reveal_strlit("**:");
        assert("**"@ =~= seq!['*', '*']);
        assert("**:"@ =~= seq!['*', '*', ':']);
    }
    if !crate::text::starts_at(s, i, "**") {
        return None;
    }
    let n = s.unicode_len();
    let ne = crate::text::skip_until_char(s, i + 2, '*');
    if ne == i + 2 {
        return None;
    }
    if !crate::text::starts_at(s, ne, "**:") {
        return None;
    }
    let ts = crate::text::skip_spaces(s, ne + 3);
    let te = crate::text::skip_until_char(s, ts, '\n');
    if te == ts {
        return None;
    }
    let end = if te < n {
        te + 1
    } else {
        te
    };
    let character = s.substring_char(i + 2, ne).to_owned();
    let raw = s.substring_char(ts, te);
    let m = te - ts;
    let quoted = m >= 2 && ((raw.get_char(0) == '"' && raw.get_char(m - 1) == '"') || (
    raw.get_char(0) == '\'' && raw.get_char(m - 1) == '\''));
    let text = if quoted {
        s.substring_char(ts + 1, te - 1).to_owned()
    } else {
        raw.to_owned()
    };
    proof {
        if quoted {
            assert(s@.subrange(ts + 1, te - 1) =~= strip_quotes_spec(
                s@.subrange(ts as int, te as int),
            ));
        }
    }
    Some((character, text, end))
}

/// Extracts every dialogue line from the content, in order of appearance.
pub fn extract_dialogue(content: &str) -> (r: Vec<DialogueLine>)
    ensures
        dialogue_view(r@) == scan_dialogue(content@, 0),
{
    let n = content.unicode_len();
    let mut r: Vec<DialogueLine> = Vec::new();
    let mut i: usize = 0;
    while i < n
        invariant
            0 <= i <= n,
            n == content@.len(),
            scan_dialogue(content@, 0) == dialogue_view(r@) + scan_dialogue(
                content@,
                i as int,
            ),
        decreases n - i,
    {
        match dialogue_try_at(content, i) {
            Some(p) => {
                let ghost prev = r@;
                r.push(DialogueLine { character: p.0, text: p.1 });
                proof {
                    assert(dialogue_view(r@) =~= dialogue_view(prev) + seq![r@.last()@]);
                    assert(dialogue_view(prev) + scan_dialogue(content@, i as int)
                        =~= dialogue_view(r@) + scan_dialogue(content@, p.2 as int));
                }
                i = p.2;
            },
            None => {
                i += 1;
            },
        }
    }
    proof {
        assert(scan_dialogue(content@, 0) =~= dialogue_view(r@));
    }
    r
}

/// Removes every dialogue line from the content, including its trailing
/// newline.
pub fn strip_dialogue(content: &str) -> (r: String)
    ensures
        r@ == strip_dialogue_from(content@, 0),
{
    let n = content.unicode_len();
    let mut r = String::new();
    let mut i: usize = 0;
    while i < n
        invariant
            0 <= i <= n,
            n == content@.len(),
            strip_dialogue_from(content@, 0) == r@ + strip_dialogue_from(
                content@,
                i as int,
            ),
        decreases n - i,
    {
        match dialogue_try_at(content, i) {
            Some(p) => {
                i = p.2;
            },
            None => {
                let piece = content.substring_char(i, i + 1);
                r.append(piece);
                proof {
                    assert(piece@ =~= seq![content@[i as int]]);
                }
                i += 1;
            },
        }
    }
    proof {
        assert(strip_dialogue_from(content@, i as int) =~= Seq::<char>::empty());
        assert(r@ =~= strip_dialogue_from(content@, 0));
    }
    r
}

} // verus!
