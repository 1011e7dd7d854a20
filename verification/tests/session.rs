use packard::{ChooseError, Document, Runtime, StoreValue, Vault};

fn doc(id: &str, text: &str) -> Document {
    Document { id: id.to_string(), text: text.to_string(), is_character: false }
}

fn sample_vault() -> Vault {
    Vault::load(vec![
        doc(
            "start",
            "The road forks.\n[[left|Take the left path]](steps += 1)\n[[right|Take the right path]]\n[[nowhere|Step into the void]]",
        ),
        doc("left", "A quiet forest. [[start|Return]]"),
        doc("right", "A riverbank. [[start|Return]]"),
        doc("back", "You see your footprints."),
        Document {
            id: "guide".to_string(),
            text: "---\nname: The Guide\n---\nAlways watching.".to_string(),
            is_character: true,
        },
    ])
    .unwrap()
}

#[test]
fn test_load_requires_a_scene() {
    assert!(Vault::load(vec![]).is_err());
    assert!(Vault::load(vec![Document {
        id: "only".to_string(),
        text: "---\nname: Only\n---\n".to_string(),
        is_character: true,
    }])
    .is_err());
}

#[test]
fn test_load_last_write_wins() {
    let vault = Vault::load(vec![doc("s", "First body"), doc("s", "Second body")]).unwrap();
    assert_eq!(vault.get_scene("s").unwrap().content, "Second body");
}

#[test]
fn test_list_scenes_sorted() {
    let vault = Vault::load(vec![doc("zeta", "z"), doc("alpha", "a"), doc("mid", "m")]).unwrap();
    assert_eq!(vault.list_scenes(), vec!["alpha", "mid", "zeta"]);
    assert!(vault.list_characters().is_empty());
}

#[test]
fn test_vault_lookup() {
    let vault = sample_vault();
    assert!(vault.get_scene("start").is_some());
    assert!(vault.get_scene("guide").is_none());
    assert!(vault.get_character("guide").is_some());
    assert_eq!(vault.get_character("guide").unwrap().name, "The Guide");
    assert_eq!(vault.list_characters(), vec!["guide"]);
}

#[test]
fn test_runtime_new_missing_start_scene() {
    let vault = sample_vault();
    assert!(Runtime::new(&vault, "missing").is_err());
    assert!(Runtime::new(&vault, "start").is_ok());
}

#[test]
fn test_runtime_choose_out_of_range() {
    let vault = sample_vault();
    let mut runtime = Runtime::new(&vault, "start").unwrap();
    let n = runtime.current_scene().choices.len();
    assert_eq!(runtime.select_choice(n), Err(ChooseError::ChoiceError));
    assert_eq!(runtime.current_scene_id(), "start");
    assert_eq!(runtime.state().variables.len(), 0);
}

#[test]
fn test_runtime_choose_missing_target() {
    let vault = sample_vault();
    let mut runtime = Runtime::new(&vault, "start").unwrap();
    // The last choice targets "nowhere", which no document defines.
    let n = runtime.current_scene().choices.len();
    assert_eq!(
        runtime.select_choice(n - 1),
        Err(ChooseError::SceneNotFoundError)
    );
    assert_eq!(runtime.current_scene_id(), "start");
    assert_eq!(runtime.state().variables.len(), 0);
}

#[test]
fn test_runtime_choose_applies_effects_and_moves() {
    let vault = sample_vault();
    let mut runtime = Runtime::new(&vault, "start").unwrap();
    runtime.select_choice(0).unwrap();
    assert_eq!(runtime.current_scene_id(), "left");
    assert_eq!(runtime.state().get("steps").unwrap().as_i64(), Some(1));
    runtime.select_choice(0).unwrap();
    assert_eq!(runtime.current_scene_id(), "start");
}

#[test]
fn test_available_choices_filtering_and_indices() {
    // Conditional-scan choices come before plain-scan ones, and the known
    // duplication gives the conditional wikilink an unconditional twin.
    let vault = Vault::load(vec![
        doc(
            "start",
            "{if: steps > 0}[[back|Look back]]\n[[left|Go]](steps += 1)\n[[home|Stay]]",
        ),
        doc("back", "You see your footprints."),
        doc("left", "A quiet forest. [[start|Return]]"),
        doc("home", "Home again."),
    ])
    .unwrap();
    let mut runtime = Runtime::new(&vault, "start").unwrap();
    // Choice 0 is the conditional "Look back"; "steps" is unset, so its
    // condition errors and it is excluded. 1..3 are the plain choices.
    let available = runtime.available_choices();
    let indices: Vec<usize> = available.iter().map(|p| p.0).collect();
    assert_eq!(indices, vec![1, 2, 3]);
    assert_eq!(available[1].1.label, "Go");

    // After going left and returning, steps > 0 holds and index 0 appears.
    runtime.select_choice(2).unwrap();
    runtime.select_choice(0).unwrap();
    let available = runtime.available_choices();
    let indices: Vec<usize> = available.iter().map(|p| p.0).collect();
    assert_eq!(indices, vec![0, 1, 2, 3]);
    assert_eq!(available[0].1.label, "Look back");
}

#[test]
fn test_queries_are_idempotent() {
    let vault = sample_vault();
    let mut runtime = Runtime::new(&vault, "start").unwrap();
    runtime.select_choice(0).unwrap();
    let id_one = runtime.current_scene_id().to_string();
    let title_one = runtime.current_scene().title.clone();
    let avail_one: Vec<(usize, String)> = runtime
        .available_choices()
        .iter()
        .map(|p| (p.0, p.1.label.clone()))
        .collect();
    let steps_one = runtime.state().get("steps").unwrap().as_i64();
    let id_two = runtime.current_scene_id().to_string();
    let title_two = runtime.current_scene().title.clone();
    let avail_two: Vec<(usize, String)> = runtime
        .available_choices()
        .iter()
        .map(|p| (p.0, p.1.label.clone()))
        .collect();
    let steps_two = runtime.state().get("steps").unwrap().as_i64();
    assert_eq!(id_one, id_two);
    assert_eq!(title_one, title_two);
    assert_eq!(avail_one, avail_two);
    assert_eq!(steps_one, steps_two);
}

#[test]
fn test_effect_failure_keeps_prefix_and_cursor() {
    let vault = Vault::load(vec![
        doc("start", "[[next|Go]](a = 1; b += oops; c = 2)"),
        doc("next", "There."),
    ])
    .unwrap();
    let mut runtime = Runtime::new(&vault, "start").unwrap();
    let result = runtime.select_choice(0);
    assert!(matches!(result, Err(ChooseError::EffectError(_))));
    assert_eq!(runtime.current_scene_id(), "start");
    assert_eq!(runtime.state().get("a").unwrap().as_i64(), Some(1));
    assert!(runtime.state().get("c").is_none());
}

#[test]
fn test_terminal_scene_has_no_choices() {
    let vault = sample_vault();
    let runtime = Runtime::new(&vault, "back").unwrap();
    assert!(runtime.available_choices().is_empty());
    assert!(runtime.current_scene().choices.is_empty());
}

#[test]
fn test_store_values_survive_transitions() {
    let vault = Vault::load(vec![
        doc("start", "[[next|Go]](mood = curious; hope = true)"),
        doc("next", "[[start|Back]](visits += 1)"),
    ])
    .unwrap();
    let mut runtime = Runtime::new(&vault, "start").unwrap();
    runtime.select_choice(0).unwrap();
    runtime.select_choice(0).unwrap();
    match runtime.state().get("mood") {
        Some(StoreValue::Str(s)) => assert_eq!(s, "curious"),
        other => panic!("expected string, got {:?}", other),
    }
    assert!(matches!(
        runtime.state().get("hope"),
        Some(StoreValue::Bool(true))
    ));
    assert_eq!(runtime.state().get("visits").unwrap().as_i64(), Some(1));
}
