use packard::{extract_dialogue, strip_dialogue, strip_wikilinks, Character, Scene};

#[test]
fn test_extract_dialogue() {
    let content = "Some scene text.\n\n**Alice**: \"Hello there!\"\n**Bob**: \"How are you?\"\n\nMore text.";

    let lines = extract_dialogue(content);
    assert_eq!(lines.len(), 2);
    assert_eq!(lines[0].character, "Alice");
    assert_eq!(lines[0].text, "Hello there!");
    assert_eq!(lines[1].character, "Bob");
    assert_eq!(lines[1].text, "How are you?");
}

#[test]
fn test_strip_dialogue() {
    let content = "Some text.\n**Alice**: \"Hello!\"\nMore text.";

    let stripped = strip_dialogue(content);
    assert!(!stripped.contains("**Alice**"));
    assert!(stripped.contains("Some text"));
}

#[test]
fn test_dialogue_single_quotes_stripped() {
    let lines = extract_dialogue("**Eve**: 'hi there'");
    assert_eq!(lines.len(), 1);
    assert_eq!(lines[0].text, "hi there");
}

#[test]
fn test_scene_duplicate_conditional_choice() {
    // The conditional and the plain scanner both run over the whole body,
    // so a conditional wikilink yields a second, unconditional choice.
    let scene =
        Scene::from_markdown("test".to_string(), "Text {if: flag == 1}[[next|Go]](flag = 0) more")
            .unwrap();
    assert_eq!(scene.choices.len(), 2);
    assert_eq!(scene.choices[0].target, "next");
    assert_eq!(scene.choices[0].label, "Go");
    assert!(scene.choices[0].condition.is_some());
    assert_eq!(scene.choices[0].effects.len(), 1);
    assert_eq!(scene.choices[0].effects[0].variable, "flag");
    assert_eq!(scene.choices[1].target, "next");
    assert_eq!(scene.choices[1].label, "Go");
    assert!(scene.choices[1].condition.is_none());
    assert_eq!(scene.choices[1].effects.len(), 1);
}

#[test]
fn test_scene_title_from_front_matter() {
    let scene = Scene::from_markdown(
        "intro".to_string(),
        "---\ntitle: The Beginning\n---\nOnce upon a time.",
    )
    .unwrap();
    assert_eq!(scene.title, "The Beginning");
    assert_eq!(scene.content, "\nOnce upon a time.");
}

#[test]
fn test_scene_title_defaults_to_id() {
    let scene = Scene::from_markdown("intro".to_string(), "No front matter here.").unwrap();
    assert_eq!(scene.title, "intro");
    assert_eq!(scene.content, "No front matter here.");

    let scene = Scene::from_markdown("intro".to_string(), "---\nnote: no title\n---\nBody").unwrap();
    assert_eq!(scene.title, "intro");
}

#[test]
fn test_scene_malformed_front_matter_is_ignored() {
    let scene = Scene::from_markdown(
        "broken".to_string(),
        "---\n: [ : not yaml ::\n---\nBody text.",
    )
    .unwrap();
    assert_eq!(scene.title, "broken");
    assert_eq!(scene.content, "\nBody text.");
}

#[test]
fn test_scene_plain_choice_without_effects() {
    let scene = Scene::from_markdown("s".to_string(), "Go [[east|East]] or [[west|West]](w = 1)")
        .unwrap();
    assert_eq!(scene.choices.len(), 2);
    assert_eq!(scene.choices[0].target, "east");
    assert!(scene.choices[0].effects.is_empty());
    assert_eq!(scene.choices[1].target, "west");
    assert_eq!(scene.choices[1].effects.len(), 1);
}

#[test]
fn test_scene_bad_condition_text_degrades_to_unconditional() {
    let scene = Scene::from_markdown("s".to_string(), "{if: ???}[[next|Go]]").unwrap();
    // The conditional scan drops the unparsable condition, and the plain
    // scan still adds its usual duplicate: two unconditional choices.
    assert_eq!(scene.choices.len(), 2);
    assert!(scene.choices[0].condition.is_none());
    assert!(scene.choices[1].condition.is_none());
    assert_eq!(scene.choices[0].target, "next");
}

#[test]
fn test_scene_bad_effects_text_degrades_to_empty() {
    let scene = Scene::from_markdown("s".to_string(), "[[next|Go]](not valid effects)").unwrap();
    assert_eq!(scene.choices.len(), 1);
    assert!(scene.choices[0].effects.is_empty());
}

#[test]
fn test_strip_wikilinks() {
    let out = strip_wikilinks("Go [[east|East]](e = 1) now [[west|West]] end");
    assert_eq!(out, "Go  now  end");
}

#[test]
fn test_character_from_markdown() {
    let character = Character::from_markdown(
        "alice".to_string(),
        "---\nname: Alice Liddell\nage: 10\nrole: protagonist\n---\n  A curious child.  ",
    )
    .unwrap();
    assert_eq!(character.name, "Alice Liddell");
    assert_eq!(character.description, "A curious child.");
    assert_eq!(character.properties.len(), 2);
    assert_eq!(
        character.get_property("age").and_then(|v| v.as_i64()),
        Some(10)
    );
    assert_eq!(
        character.get_property("role").and_then(|v| v.as_str()),
        Some("protagonist")
    );
    assert!(character.get_property("name").is_none());
    assert!(character.get_property("missing").is_none());
}

#[test]
fn test_character_defaults() {
    let character = Character::from_markdown("bob".to_string(), "Just a description.").unwrap();
    assert_eq!(character.name, "bob");
    assert_eq!(character.description, "Just a description.");
    assert!(character.properties.is_empty());
}
