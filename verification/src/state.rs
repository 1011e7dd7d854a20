//! The variable store: a mapping from dotted variable names to typed
//! values, mutated only by applying effects.
use vstd::prelude::*;
use crate::effects::{op_add, op_assign, op_sub, Effect, EffectView, effects_view};
use crate::errors::EvalError;
use crate::numbers::{parse_i64, parse_i64_spec};
use crate::table::StrTable;
use crate::value::{StoreValue, ValueView};

verus! {

/// The value a literal coerces to on plain assignment: an integer when it
/// parses as one, a boolean for exactly `true` or `false`, a string
/// otherwise.
pub open spec fn coerce_literal(v: Seq<char>) -> ValueView {
    match parse_i64_spec(v) {
        Some(n) => ValueView::Int(n),
        None => if v == seq!['t', 'r', 'u', 'e'] {
            ValueView::Bool(true)
        } else if v == seq!['f', 'a', 'l', 's', 'e'] {
            ValueView::Bool(false)
        } else {
            ValueView::Str(v)
        },
    }
}

/// Two's-complement wrap of an integer into the `i64` range, matching the
/// wrapping arithmetic the increment and decrement operations use.
pub open spec fn wrap_i64(x: int) -> int {
    if x > i64::MAX {
        x - 0x1_0000_0000_0000_0000
    } else if x < i64::MIN {
        x + 0x1_0000_0000_0000_0000
    } else {
        x
    }
}

/// The integer read for an increment or decrement: the stored integer, or
/// zero when the variable is absent or holds a non-integer.
pub open spec fn stored_int(m: Map<Seq<char>, ValueView>, key: Seq<char>) -> int {
    if m.contains_key(key) {
        match m[key] {
            ValueView::Int(n) => n,
            _ => 0,
        }
    } else {
        0
    }
}

/// How one effect transforms the store: `=` coerces and assigns and cannot
/// fail; `+=` and `-=` require an integer literal and wrap on overflow; any
/// other operator is an error. A failed effect leaves the store unchanged.
pub open spec fn apply_effect_spec(m: Map<Seq<char>, ValueView>, e: EffectView) -> Result<
    Map<Seq<char>, ValueView>,
    EvalError,
> {
    if e.operation == op_assign() {
        Ok(m.insert(e.variable, coerce_literal(e.value)))
    } else if e.operation == op_add() || e.operation == op_sub() {
        match parse_i64_spec(e.value) {
            None => Err(EvalError::BadLiteral),
            Some(d) => {
                let cur = stored_int(m, e.variable);
                let nv = if e.operation == op_add() {
                    wrap_i64(cur + d)
                } else {
                    wrap_i64(cur - d)
                };
                Ok(m.insert(e.variable, ValueView::Int(nv)))
            },
        }
    } else {
        Err(EvalError::UnknownOperator)
    }
}

/// How a sequence of effects transforms the store, stopping at the first
/// failure; on failure the store already holds the effects applied so far.
pub open spec fn apply_effects_spec(m: Map<Seq<char>, ValueView>, es: Seq<EffectView>) -> Result<
    Map<Seq<char>, ValueView>,
    (Map<Seq<char>, ValueView>, EvalError),
>
    decreases es.len(),
{
    if es.len() == 0 {
        Ok(m)
    } else {
        match apply_effect_spec(m, es[0]) {
            Err(e) => Err((m, e)),
            Ok(m2) => match apply_effects_spec(m2, es.drop_first()) {
                Ok(m3) => Ok(m3),
                Err(pe) => Err(pe),
            },
        }
    }
}

/// The variable store. Keys are dotted names treated as opaque strings.
#[derive(Debug)]
pub struct State {
    pub variables: StrTable<StoreValue>,
}

impl View for State {
    type V = Map<Seq<char>, ValueView>;

    open spec fn view(&self) -> Map<Seq<char>, ValueView> {
        self.variables@
    }
}

impl State {
    pub open spec fn wf(&self) -> bool {
        self.variables.wf()
    }

    /// An empty store.
    pub fn new() -> (r: State)
        ensures
            r@ == Map::<Seq<char>, ValueView>::empty(),
            r.wf(),
    {
        State { variables: StrTable::new() }
    }

    /// Stores `value` under `key`, replacing any earlier binding.
    pub fn set(&mut self, key: &str, value: StoreValue)
        requires
            old(self).wf(),
        ensures
            final(self).wf(),
            final(self)@ == old(self)@.insert(key@, value@),
    {
        self.variables.insert(key.to_owned(), value);
    }

    /// The value stored under `key`, if any.
    pub fn get(&self, key: &str) -> (r: Option<&StoreValue>)
        requires
            self.wf(),
        ensures
            match r {
                Some(v) => self@.contains_key(key@) && v@ == self@[key@],
                None => !self@.contains_key(key@),
            },
    {
        self.variables.get(key)
    }

    fn apply_effect(&mut self, effect: &Effect) -> (r: Result<(), EvalError>)
        requires
            old(self).wf(),
        ensures
            final(self).wf(),
            match apply_effect_spec(old(self)@, effect@) {
                Ok(m) => r is Ok && final(self)@ == m,
                Err(e) => r == Err::<(), EvalError>(e) && final(self)@ == old(self)@,
            },
    {
        proof {
            reveal_strlit("=");
            reveal_strlit("+=");
            reveal_strlit("-=");
            reveal_strlit("true");
            reveal_strlit("false");
            assert("="@ =~= op_assign());
            assert("+="@ =~= op_add());
            assert("-="@ =~= op_sub());
            assert("true"@ =~= seq!['t', 'r', 'u', 'e']);
            assert("false"@ =~= seq!['f', 'a', 'l', 's', 'e']);
        }
        let op = effect.operation.as_str();
        if crate::table::str_eq(op, "=") {
            match parse_i64(effect.value.as_str()) {
                Some(n) => {
                    self.set(effect.variable.as_str(), StoreValue::Int(n));
                },
                None => {
                    if crate::table::str_eq(effect.value.as_str(), "true") {
                        self.set(effect.variable.as_str(), StoreValue::Bool(true));
                    } else if crate::table::str_eq(effect.value.as_str(), "false") {
                        self.set(effect.variable.as_str(), StoreValue::Bool(false));
                    } else {
                        self.set(effect.variable.as_str(), StoreValue::Str(effect.value.clone()));
                    }
                },
            }
            Ok(())
        } else if crate::table::str_eq(op, "+=") || crate::table::str_eq(op, "-=") {
            match parse_i64(effect.value.as_str()) {
                None => Err(EvalError::BadLiteral),
                Some(d) => {
                    let cur: i64 = match self.get(effect.variable.as_str()) {
                        Some(v) => match v.as_i64() {
                            Some(n) => n,
                            None => 0,
                        },
                        None => 0,
                    };
                    let nv: i64 = if crate::table::str_eq(op, "+=") {
                        cur.wrapping_add(d)
                    } else {
                        cur.wrapping_sub(d)
                    };
                    self.set(effect.variable.as_str(), StoreValue::Int(nv));
                    Ok(())
                },
            }
        } else {
            Err(EvalError::UnknownOperator)
        }
    }

    fn apply_from(&mut self, effects: &Vec<Effect>, k: usize) -> (r: Result<(), EvalError>)
        requires
            old(self).wf(),
            k <= effects@.len(),
        ensures
            final(self).wf(),
            match apply_effects_spec(old(self)@, effects_view(effects@).skip(k as int)) {
                Ok(m) => r is Ok && final(self)@ == m,
                Err((m, e)) => r == Err::<(), EvalError>(e) && final(self)@ == m,
            },
        decreases effects@.len() - k,
    {
        let ghost tail = effects_view(effects@).skip(k as int);
        if k == effects.len() {
            proof {
                assert(tail =~= Seq::<EffectView>::empty());
            }
            return Ok(());
        }
        proof {
            assert(tail.drop_first() =~= effects_view(effects@).skip(k + 1));
            assert(tail[0] == effects@[k as int]@);
        }
        match self.apply_effect(&effects[k]) {
            Err(e) => Err(e),
            Ok(()) => self.apply_from(effects, k + 1),
        }
    }

    /// Applies the effects in order, stopping at the first failure; effects
    /// already applied stay applied.
    pub fn apply_effects(&mut self, effects: &Vec<Effect>) -> (r: Result<(), EvalError>)
        requires
            old(self).wf(),
        ensures
            final(self).wf(),
            match apply_effects_spec(old(self)@, effects_view(effects@)) {
                Ok(m) => r is Ok && final(self)@ == m,
                Err((m, e)) => r == Err::<(), EvalError>(e) && final(self)@ == m,
            },
    {
        proof {
            assert(effects_view(effects@).skip(0) =~= effects_view(effects@));
        }
        self.apply_from(effects, 0)
    }
}

} // verus!
