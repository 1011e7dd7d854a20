//! The navigation state machine: a cursor into a borrowed vault plus the
//! variable store, exposing the currently available choices and performing
//! validated, effect-applying transitions.
use vstd::prelude::*;
use crate::conditions::eval_condition_spec;
use crate::errors::{ChooseError, EvalError, InitError};
use crate::scene::{Choice, ChoiceView, Scene};
use crate::state::{apply_effects_spec, State};
use crate::value::ValueView;
use crate::vault::Vault;

verus! {

/// A choice is available when it has no condition or its condition
/// evaluates to true; a condition that fails to evaluate makes the choice
/// unavailable rather than an error.
pub open spec fn choice_available(c: ChoiceView, m: Map<Seq<char>, ValueView>) -> bool {
    match c.condition {
        None => true,
        Some(cond) => eval_condition_spec(cond, m) == Ok::<bool, EvalError>(true),
    }
}

/// The available choices from index `i` on, each paired with its original
/// index in the full choice list.
pub open spec fn available_from(
    cs: Seq<ChoiceView>,
    i: int,
    m: Map<Seq<char>, ValueView>,
) -> Seq<(int, ChoiceView)>
    decreases cs.len() - i,
{
    if i < 0 || i >= cs.len() {
        Seq::empty()
    } else if choice_available(cs[i], m) {
        seq![(i, cs[i])] + available_from(cs, i + 1, m)
    } else {
        available_from(cs, i + 1, m)
    }
}

/// The ordered subsequence of available choices, with original indices.
pub open spec fn available_spec(cs: Seq<ChoiceView>, m: Map<Seq<char>, ValueView>) -> Seq<
    (int, ChoiceView),
> {
    available_from(cs, 0, m)
}

/// The availability filter keeps exactly the choices whose condition is
/// absent or evaluates to true: every returned pair carries a kept
/// choice under its original index, original relative order is preserved
/// (indices strictly increase), and every kept index appears.
pub proof fn lemma_available_from(cs: Seq<ChoiceView>, i0: int, m: Map<Seq<char>, ValueView>)
    requires
        0 <= i0,
    ensures
        forall|k: int| #![auto] 0 <= k < available_from(cs, i0, m).len() ==> i0
            <= available_from(cs, i0, m)[k].0 < cs.len() && available_from(cs, i0, m)[k].1
            == cs[available_from(cs, i0, m)[k].0] && choice_available(
            cs[available_from(cs, i0, m)[k].0],
            m,
        ),
        forall|k1: int, k2: int|
            #![trigger available_from(cs, i0, m)[k1], available_from(cs, i0, m)[k2]]
            0 <= k1 < k2 < available_from(cs, i0, m).len() ==> available_from(cs, i0, m)[k1].0
                < available_from(cs, i0, m)[k2].0,
        forall|i: int| #![auto] i0 <= i < cs.len() && choice_available(cs[i], m)
            ==> exists|k: int|
            0 <= k < available_from(cs, i0, m).len() && available_from(cs, i0, m)[k].0 == i,
    decreases cs.len() - i0,
{
    if i0 < cs.len() {
        lemma_available_from(cs, i0 + 1, m);
        let a = available_from(cs, i0, m);
        let rest = available_from(cs, i0 + 1, m);
        if choice_available(cs[i0], m) {
            assert(a[0] == (i0, cs[i0]));
            assert(forall|k: int| 1 <= k < a.len() ==> a[k] == rest[k - 1]);
            assert forall|i: int| i0 <= i < cs.len() && choice_available(cs[i], m) implies
                exists|k: int| 0 <= k < a.len() && #[trigger] a[k].0 == i by {
                if i == i0 {
                    assert(a[0].0 == i);
                } else {
                    let k = choose|k: int| 0 <= k < rest.len() && rest[k].0 == i;
                    assert(a[k + 1].0 == i);
                }
            }
        } else {
            assert forall|i: int| i0 <= i < cs.len() && choice_available(cs[i], m) implies
                exists|k: int| 0 <= k < a.len() && #[trigger] a[k].0 == i by {
                let k = choose|k: int| 0 <= k < rest.len() && rest[k].0 == i;
                assert(a[k].0 == i);
            }
        }
    }
}

/// The views of the index/choice pairs an availability query returns.
pub open spec fn avail_pairs_view(ps: Seq<(usize, &Choice)>) -> Seq<(int, ChoiceView)> {
    ps.map_values(|p: (usize, &Choice)| (p.0 as int, p.1@))
}

/// The live navigation session: a borrowed scene graph, the current scene
/// id, and the variable store. The current id always names a scene of the
/// graph; every transition is validated before it is committed.
pub struct Runtime<'a> {
    pub vault: &'a Vault,
    pub current_scene_id: String,
    pub state: State,
}

impl<'a> Runtime<'a> {
    pub open spec fn wf(&self) -> bool {
        self.vault.wf() && self.vault.scenes@.contains_key(self.current_scene_id@)
            && self.state.wf()
    }

    /// Starts a session at `start_scene`, with an empty store; fails when
    /// the start scene is absent from the vault.
    pub fn new(vault: &'a Vault, start_scene: &str) -> (r: Result<Runtime<'a>, InitError>)
        requires
            vault.wf(),
        ensures
            match r {
                Ok(rt) => vault.scenes@.contains_key(start_scene@) && rt.wf() && rt.vault
                    == vault && rt.current_scene_id@ == start_scene@ && rt.state@
                    == Map::<Seq<char>, ValueView>::empty(),
                Err(_) => !vault.scenes@.contains_key(start_scene@),
            },
    {
        if vault.get_scene(start_scene).is_none() {
            return Err(InitError {});
        }
        Ok(
            Runtime {
                vault,
                current_scene_id: start_scene.to_owned(),
                state: State::new(),
            },
        )
    }

    /// The scene the cursor stands on; always present once constructed.
    pub fn current_scene(&self) -> (r: &'a Scene)
        requires
            self.wf(),
        ensures
            r@ == self.vault.scenes@[self.current_scene_id@],
    {
        let vault = self.vault;
        match vault.get_scene(self.current_scene_id.as_str()) {
            Some(s) => s,
            None => {
                proof {
                    assert(false);
                }
                vstd::pervasive::unreached()
            },
        }
    }

    /// The id of the scene the cursor stands on.
    pub fn current_scene_id(&self) -> (r: &str)
        ensures
            r@ == self.current_scene_id@,
    {
        self.current_scene_id.as_str()
    }

    /// A read-only view of the variable store.
    pub fn state(&self) -> (r: &State)
        ensures
            *r == self.state,
    {
        &self.state
    }

    /// The current scene's choices whose condition is absent or evaluates
    /// to true, in their original order and with their original indices.
    /// Reading them never mutates the session.
    pub fn available_choices(&self) -> (r: Vec<(usize, &'a Choice)>)
        requires
            self.wf(),
        ensures
            avail_pairs_view(r@) == available_spec(
                self.vault.scenes@[self.current_scene_id@].choices,
                self.state@,
            ),
    {
        let scene = self.current_scene();
        let ghost cs = self.vault.scenes@[self.current_scene_id@].choices;
        let n = scene.choices.len();
        let mut r: Vec<(usize, &'a Choice)> = Vec::new();
        let mut i: usize = 0;
        while i < n
            invariant
                0 <= i <= n,
                n == scene.choices@.len(),
                cs == crate::scene::choices_view(scene.choices@),
                self.wf(),
                self.state.wf(),
                available_spec(cs, self.state@) == avail_pairs_view(r@) + available_from(
                    cs,
                    i as int,
                    self.state@,
                ),
            decreases n - i,
        {
            proof {
                assert(cs[i as int] == scene.choices@[i as int]@);
            }
            let choice = &scene.choices[i];
            let keep = match &choice.condition {
                None => true,
                Some(cond) => match cond.evaluate(&self.state) {
                    Ok(b) => b,
                    Err(_) => false,
                },
            };
            if keep {
                let ghost prev = r@;
                r.push((i, choice));
                proof {
                    assert(avail_pairs_view(r@) =~= avail_pairs_view(prev) + seq![
                        (i as int, cs[i as int]),
                    ]);
                    assert(avail_pairs_view(prev) + available_from(cs, i as int, self.state@)
                        =~= avail_pairs_view(r@) + available_from(
                        cs,
                        i + 1,
                        self.state@,
                    ));
                }
            }
            i += 1;
        }
        proof {
            assert(available_spec(cs, self.state@) =~= avail_pairs_view(r@));
        }
        r
    }

    /// Takes the choice at `choice_index` into the full choice list of the
    /// current scene: validates the index and the target scene before any
    /// mutation, then applies the choice's effects in order and moves the
    /// cursor. On an out-of-range index or a missing target nothing
    /// changes; on a failing effect the already-applied prefix stays and
    /// the cursor does not move.
    pub fn select_choice(&mut self, choice_index: usize) -> (r: Result<(), ChooseError>)
        requires
            old(self).wf(),
        ensures
            final(self).wf(),
            final(self).vault == old(self).vault,
            ({
                let scene = old(self).vault.scenes@[old(self).current_scene_id@];
                let m = old(self).state@;
                if choice_index >= scene.choices.len() {
                    &&& r == Err::<(), ChooseError>(ChooseError::ChoiceError)
                    &&& final(self).current_scene_id@ == old(self).current_scene_id@
                    &&& final(self).state@ == m
                } else {
                    let ch = scene.choices[choice_index as int];
                    if !old(self).vault.scenes@.contains_key(ch.target) {
                        &&& r == Err::<(), ChooseError>(ChooseError::SceneNotFoundError)
                        &&& final(self).current_scene_id@ == old(self).current_scene_id@
                        &&& final(self).state@ == m
                    } else {
                        match apply_effects_spec(m, ch.effects) {
                            Ok(m2) => r is Ok && final(self).state@ == m2
                                && final(self).current_scene_id@ == ch.target,
                            Err((m2, e)) => r == Err::<(), ChooseError>(
                                ChooseError::EffectError(e),
                            ) && final(self).state@ == m2 && final(self).current_scene_id@
                                == old(self).current_scene_id@,
                        }
                    }
                }
            }),
    {
        let vault = self.vault;
        let scene = self.current_scene();
        if choice_index >= scene.choices.len() {
            return Err(ChooseError::ChoiceError);
        }
        proof {
            assert(crate::scene::choices_view(scene.choices@)[choice_index as int]
                == scene.choices@[choice_index as int]@);
        }
        let choice = &scene.choices[choice_index];
        if vault.get_scene(choice.target.as_str()).is_none() {
            return Err(ChooseError::SceneNotFoundError);
        }
        match self.state.apply_effects(&choice.effects) {
            Err(e) => Err(ChooseError::EffectError(e)),
            Ok(()) => {
                self.current_scene_id = choice.target.clone();
                Ok(())
            },
        }
    }
}

} // verus!
