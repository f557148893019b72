use sounding::craft_library::craft_library_input;
use sounding::craft_library::draw_craft_library_overlay;
use sounding::craft_library::is_valid_name;
use sounding::craft_library::CraftEntry;
use sounding::craft_library::CraftLibraryModal;
use sounding::craft_library::CurrentCraftName;
use sounding::craft_library::LibraryRequest;
use sounding::craft_library::Typed;
use sounding::craft_library::TypedEvent;
use sounding::craft_library::MAX_NAME_LEN;
use sounding::input::KeyCode;
use sounding::input::Keyboard;

fn press(key: KeyCode) -> Keyboard {
    let mut keys = Keyboard::new();
    keys.press(key);
    keys
}

fn typed(text: &str) -> TypedEvent {
    TypedEvent {
        key: Typed::Character(text.to_string()),
        pressed: true,
    }
}

#[test]
fn modal_open_state() {
    assert!(!CraftLibraryModal::Closed.is_open());
    assert!(CraftLibraryModal::Naming {
        buffer: String::new(),
        rejected: false
    }
    .is_open());
    assert!(CraftLibraryModal::Browsing {
        entries: Vec::new(),
        selected: 0
    }
    .is_open());
}

#[test]
fn current_name_defaults_nonblank() {
    assert!(is_valid_name(&CurrentCraftName::default().0));
}

#[test]
fn a_typed_name_is_saved_on_enter() {
    let mut modal = CraftLibraryModal::Naming {
        buffer: "ro".to_string(),
        rejected: false,
    };
    let current = CurrentCraftName::default();
    let mut keys = press(KeyCode::Enter);
    let mut events = vec![
        typed("v"),
        TypedEvent {
            key: Typed::Enter,
            pressed: true,
        },
    ];
    let request = craft_library_input(&mut modal, &current, &mut keys, &mut events);
    assert_eq!(request, LibraryRequest::Save("rov".to_string()));
    assert!(!keys.just_pressed(KeyCode::Enter), "enter does not leak");
}

#[test]
fn a_blank_name_is_rejected() {
    assert!(!is_valid_name("   "));
    let mut modal = CraftLibraryModal::Naming {
        buffer: "  ".to_string(),
        rejected: false,
    };
    let current = CurrentCraftName::default();
    let mut keys = press(KeyCode::Enter);
    let mut events = vec![TypedEvent {
        key: Typed::Enter,
        pressed: true,
    }];
    let request = craft_library_input(&mut modal, &current, &mut keys, &mut events);
    assert_eq!(request, LibraryRequest::Nothing);
    assert_eq!(
        modal,
        CraftLibraryModal::Naming {
            buffer: "  ".to_string(),
            rejected: true
        }
    );
}

#[test]
fn a_name_stays_within_the_cap() {
    let mut modal = CraftLibraryModal::Naming {
        buffer: "x".repeat(MAX_NAME_LEN),
        rejected: false,
    };
    let current = CurrentCraftName::default();
    let mut keys = Keyboard::new();
    let mut events = vec![typed("y")];
    craft_library_input(&mut modal, &current, &mut keys, &mut events);
    match modal {
        CraftLibraryModal::Naming { buffer, .. } => assert_eq!(buffer, "x".repeat(MAX_NAME_LEN)),
        other => panic!("{other:?}"),
    }
}

#[test]
fn escape_closes_the_prompt() {
    let mut modal = CraftLibraryModal::Naming {
        buffer: "a".to_string(),
        rejected: false,
    };
    let current = CurrentCraftName::default();
    let mut keys = press(KeyCode::Escape);
    let mut events = Vec::new();
    craft_library_input(&mut modal, &current, &mut keys, &mut events);
    assert_eq!(modal, CraftLibraryModal::Closed);
}

#[test]
fn browsing_moves_and_loads() {
    let entry = |n: &str| CraftEntry {
        name: n.to_string(),
        path: format!("saves/{n}.json"),
    };
    let mut modal = CraftLibraryModal::Browsing {
        entries: vec![entry("a"), entry("b")],
        selected: 0,
    };
    let current = CurrentCraftName::default();
    let mut keys = press(KeyCode::ArrowDown);
    let request = craft_library_input(&mut modal, &current, &mut keys, &mut Vec::new());
    assert_eq!(request, LibraryRequest::Nothing);
    let text = draw_craft_library_overlay(&modal).unwrap();
    assert!(text.contains('a') && text.contains('b'));
    let mut keys = press(KeyCode::Enter);
    let request = craft_library_input(&mut modal, &current, &mut keys, &mut Vec::new());
    assert_eq!(request, LibraryRequest::Load("saves/b.json".to_string()));
}

#[test]
fn a_save_names_the_craft_and_closes() {
    let mut modal = CraftLibraryModal::Naming {
        buffer: "dart".to_string(),
        rejected: false,
    };
    let mut current = CurrentCraftName::default();
    modal.saved(&mut current, "dart", true);
    assert_eq!(current.0, "dart");
    assert_eq!(modal, CraftLibraryModal::Closed);
    assert_eq!(draw_craft_library_overlay(&modal), None);
}

#[test]
fn typing_brings_no_control_character_into_a_name() {
    let long = "x".repeat(MAX_NAME_LEN + 2);
    for (start, words, want) in [
        ("a", vec!["\u{7}b\u{85}", "\n"], "ab".to_string()),
        (long.as_str(), vec!["y"], long.clone()),
    ] {
        let mut modal = CraftLibraryModal::Naming {
            buffer: start.to_string(),
            rejected: false,
        };
        let mut events = words.into_iter().map(typed).collect();
        let current = CurrentCraftName::default();
        craft_library_input(&mut modal, &current, &mut Keyboard::new(), &mut events);
        match modal {
            CraftLibraryModal::Naming { buffer, .. } => assert_eq!(buffer, want),
            other => panic!("{other:?}"),
        }
    }
}
