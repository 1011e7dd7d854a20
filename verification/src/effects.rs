//! The effect mini-language: `variable op literal` clauses separated by
//! semicolons, where the operator is `=`, `+=` or `-=`.
use vstd::prelude::*;
use crate::errors::ParseError;
use crate::text::{
    is_ident_start, is_ident_start_char, ident_pred, space_pred, matches_at, run_end,
    split_on, split_spec, trim, trim_spec,
};

verus! {

/// One mutation of the variable store.
#[derive(Debug)]
pub struct Effect {
    pub variable: String,
    pub operation: String,
    pub value: String,
}

/// The mathematical content of an `Effect`.
pub struct EffectView {
    pub variable: Seq<char>,
    pub operation: Seq<char>,
    pub value: Seq<char>,
}

impl View for Effect {
    type V = EffectView;

    open spec fn view(&self) -> EffectView {
        EffectView { variable: self.variable@, operation: self.operation@, value: self.value@ }
    }
}

/// The views of a sequence of effects.
pub open spec fn effects_view(es: Seq<Effect>) -> Seq<EffectView> {
    es.map_values(|e: Effect| e@)
}

pub open spec fn op_assign() -> Seq<char> {
    seq!['=']
}

pub open spec fn op_add() -> Seq<char> {
    seq!['+', '=']
}

pub open spec fn op_sub() -> Seq<char> {
    seq!['-', '=']
}

/// The assignment operator standing at position `i`, trying the two-character
/// operators before the bare `=`.
pub open spec fn assign_op_at(s: Seq<char>, i: int) -> Option<Seq<char>> {
    if matches_at(s, i, op_add()) {
        Some(op_add())
    } else if matches_at(s, i, op_sub()) {
        Some(op_sub())
    } else if matches_at(s, i, op_assign()) {
        Some(op_assign())
    } else {
        None
    }
}

/// The effect denoted by one clause: after trimming, an identifier, optional
/// whitespace, an assignment operator, optional whitespace, and a non-empty
/// literal running to the end.
pub open spec fn parse_effect_spec(s: Seq<char>) -> Option<EffectView> {
    let t = trim_spec(s);
    if t.len() == 0 || !is_ident_start(t[0]) {
        None
    } else {
        let ve = run_end(t, 1, ident_pred());
        let i = run_end(t, ve, space_pred());
        match assign_op_at(t, i) {
            None => None,
            Some(op) => {
                let j = run_end(t, i + op.len(), space_pred());
                if j < t.len() {
                    Some(
                        EffectView {
                            variable: t.subrange(0, ve),
                            operation: op,
                            value: t.subrange(j, t.len() as int),
                        },
                    )
                } else {
                    None
                }
            },
        }
    }
}

/// The effects denoted by a sequence of semicolon-separated clauses; clauses
/// that trim to nothing are skipped, and one malformed clause fails the
/// whole batch.
pub open spec fn parse_effects_list(segs: Seq<Seq<char>>) -> Option<Seq<EffectView>>
    decreases segs.len(),
{
    if segs.len() == 0 {
        Some(Seq::empty())
    } else if trim_spec(segs[0]).len() == 0 {
        parse_effects_list(segs.drop_first())
    } else {
        match parse_effect_spec(segs[0]) {
            None => None,
            Some(e) => match parse_effects_list(segs.drop_first()) {
                None => None,
                Some(es) => Some(seq![e] + es),
            },
        }
    }
}

/// The effects denoted by an effect string.
pub open spec fn parse_effects_spec(s: Seq<char>) -> Option<Seq<EffectView>> {
    parse_effects_list(split_spec(s, seq![';']))
}

/// Parses one `variable op literal` clause.
fn parse_effect(seg: &str) -> (r: Result<Effect, ParseError>)
    ensures
        match r {
            Ok(e) => parse_effect_spec(seg@) == Some(e@),
            Err(_) => parse_effect_spec(seg@) is None,
        },
{
    let t = trim(seg);
    let n = t.unicode_len();
    if n == 0 || !is_ident_start_char(t.get_char(0)) {
        return Err(ParseError {});
    }
    let ve = crate::text::skip_ident_chars(t, 1);
    let i = crate::text::skip_spaces(t, ve);
    let (op, op_len): (&str, usize) = if crate::text::starts_at(t, i, "+=") {
        ("+=", 2)
    } else if crate::text::starts_at(t, i, "-=") {
        ("-=", 2)
    } else if crate::text::starts_at(t, i, "=") {
        ("=", 1)
    } else {
        proof {
            reveal_strlit("+=");
            reveal_strlit("-=");
            reveal_strlit("=");
            assert("+="@ =~= op_add());
            assert("-="@ =~= op_sub());
            assert("="@ =~= op_assign());
        }
        return Err(ParseError {});
    };
    proof {
        reveal_strlit("+=");
        reveal_strlit("-=");
        reveal_strlit("=");
        assert("+="@ =~= op_add());
        assert("-="@ =~= op_sub());
        assert("="@ =~= op_assign());
    }
    let j = crate::text::skip_spaces(t, i + op_len);
    if j < n {
        let variable = t.substring_char(0, ve).to_owned();
        let value = t.substring_char(j, n).to_owned();
        Ok(Effect { variable, operation: op.to_owned(), value })
    } else {
        Err(ParseError {})
    }
}

fn parse_segments(segs: &Vec<String>, k: usize) -> (r: Result<Vec<Effect>, ParseError>)
    requires
        k <= segs@.len(),
    ensures
        match r {
            Ok(es) => parse_effects_list(segs@.map_values(|x: String| x@).skip(k as int))
                == Some(effects_view(es@)),
            Err(_) => parse_effects_list(segs@.map_values(|x: String| x@).skip(k as int))
                is None,
        },
    decreases segs@.len() - k,
{
    let ghost tail = segs@.map_values(|x: String| x@).skip(k as int);
    if k == segs.len() {
        proof {
            assert(tail =~= Seq::<Seq<char>>::empty());
            assert(effects_view(Seq::<Effect>::empty()) =~= Seq::<EffectView>::empty());
        }
        return Ok(Vec::new());
    }
    proof {
        assert(tail.drop_first() =~= segs@.map_values(|x: String| x@).skip(k + 1));
        assert(tail[0] == segs@[k as int]@);
    }
    let t = trim(segs[k].as_str());
    if t.unicode_len() == 0 {
        return parse_segments(segs, k + 1);
    }
    match parse_effect(segs[k].as_str()) {
        Err(e) => Err(e),
        Ok(eff) => match parse_segments(segs, k + 1) {
            Err(e) => Err(e),
            Ok(mut es) => {
                es.insert(0, eff);
                proof {
                    assert(effects_view(es@) =~= seq![es@[0]@] + effects_view(
                        es@.drop_first(),
                    ));
                }
                Ok(es)
            },
        },
    }
}

/// Parses a semicolon-separated batch of effect clauses; clauses that trim
/// to nothing are skipped and any malformed clause fails the whole batch.
pub fn parse_effects(effects_str: &str) -> (r: Result<Vec<Effect>, ParseError>)
    ensures
        match r {
            Ok(es) => parse_effects_spec(effects_str@) == Some(effects_view(es@)),
            Err(_) => parse_effects_spec(effects_str@) is None,
        },
{
    proof {
        reveal_strlit(";");
        assert(";"@ =~= seq![';']);
    }
    let segs = split_on(effects_str, ";");
    proof {
        assert(segs@.map_values(|x: String| x@).skip(0) =~= segs@.map_values(
            |x: String| x@,
        ));
        assert(segs@.map_values(|x: String| x@) =~= split_spec(effects_str@, seq![';']));
    }
    parse_segments(&segs, 0)
}

} // verus!
