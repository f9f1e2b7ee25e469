use c2z::craft_files::{CraftDocs, FileData, NoteType};
use c2z::errors::ConvertError;
use c2z::paths::{create_input_path, slugify_path, strip_emoji, strip_input_dir};
use c2z::text::{chars_to_string, str_to_chars};

#[test]
fn slug_path_is_deterministic() {
    let p = String::from("Joinery Techniques/Dovetail Joint");
    let a = slugify_path(&p);
    let b = slugify_path(&p);
    assert_eq!(a, "joinery-techniques/dovetail-joint");
    assert_eq!(a, b);
}

#[test]
fn slug_path_is_idempotent() {
    let p = String::from("My Test String!!!1!1/You & Me");
    let once = slugify_path(&p);
    assert_eq!(once, "my-test-string-1-1/you-me");
    let twice = slugify_path(&once);
    assert_eq!(once, twice);
}

#[test]
fn slug_path_transliterates_and_lowercases() {
    let p = String::from("Cryptography/TLS");
    assert_eq!(slugify_path(&p), "cryptography/tls");
    let q = String::from("Expatriation/Dutch-American Friendship Treaty");
    assert_eq!(slugify_path(&q), "expatriation/dutch-american-friendship-treaty");
}

#[test]
fn strip_emoji_removes_emoji_graphemes_only() {
    let p = String::from("\u{1F680} Rocket Space Ship");
    assert_eq!(strip_emoji(&p), " Rocket Space Ship");
    let q = String::from("Aerospace Engineering/\u{1F680} Space Ship");
    assert_eq!(strip_emoji(&q), "Aerospace Engineering/ Space Ship");
}

#[test]
fn set_paths_derives_key_and_slug() {
    let input_dir = String::from("/in/notes");
    let mut fd = FileData::new(
        String::from("/in/notes/\u{1F332} Woodworking/Joinery Techniques/Dovetail Joint.md"),
        String::from("2023-01-01T00:00:00Z"),
        String::from("2023-01-02T00:00:00Z"),
    )
    .unwrap();
    fd.set_paths(&input_dir).unwrap();
    assert_eq!(fd.path_rel, "\u{1F332} Woodworking/Joinery Techniques/Dovetail Joint");
    assert_eq!(fd.path_slug, "woodworking/joinery-techniques/dovetail-joint.md");
    assert_eq!(fd.name, "Dovetail Joint");
}

#[test]
fn set_paths_rejects_foreign_roots() {
    let input_dir = String::from("/in/notes");
    let mut fd = FileData::new(
        String::from("/elsewhere/A.md"),
        String::from("c"),
        String::from("m"),
    )
    .unwrap();
    let e = fd.set_paths(&input_dir).unwrap_err();
    assert!(matches!(
        e,
        ConvertError::NotUnderInputDir { ref path, ref input_dir }
            if path == "/elsewhere/A.md" && input_dir == "/in/notes"
    ));
}

#[test]
fn file_data_new_rejects_missing_file_name() {
    let e = FileData::new(String::from("/"), String::from("c"), String::from("m")).unwrap_err();
    assert!(matches!(e, ConvertError::MissingFileName { ref path } if path == "/"));
}

#[test]
fn strip_input_dir_handles_equal_and_nested_paths() {
    let dir = String::from("/in/notes");
    assert_eq!(strip_input_dir(&String::from("/in/notes"), &dir).unwrap(), "");
    assert_eq!(strip_input_dir(&String::from("/in/notes/a/b.md"), &dir).unwrap(), "a/b.md");
    assert!(strip_input_dir(&String::from("/in/notebook/a.md"), &dir).is_err());
}

#[test]
fn strip_input_dir_ignores_trailing_separators_on_the_directory() {
    let dir = String::from("/in/notes/");
    assert_eq!(strip_input_dir(&String::from("/in/notes"), &dir).unwrap(), "");
    assert_eq!(strip_input_dir(&String::from("/in/notes/a/b.md"), &dir).unwrap(), "a/b.md");
    let joined = create_input_path(&dir, &String::from("a/b.assets"));
    assert_eq!(joined, "/in/notes/a/b.assets");
    assert_eq!(strip_input_dir(&joined, &dir).unwrap(), "a/b.assets");
}

#[test]
fn create_input_path_joins_under_directory() {
    assert_eq!(
        create_input_path(&String::from("/in/notes"), &String::from("a/b.assets")),
        "/in/notes/a/b.assets"
    );
}

#[test]
fn classification_tests_markers_in_priority_order() {
    assert_eq!(NoteType::from_name("\u{1F332} Forest"), NoteType::Evergreen);
    assert_eq!(NoteType::from_name("\u{1FAB4} Potted"), NoteType::Potted);
    assert_eq!(NoteType::from_name("\u{1F331} Seedling"), NoteType::Seedling);
    assert_eq!(NoteType::from_name("Plain"), NoteType::Unmarked);
    // first marker in priority order wins, whatever its position in the name
    assert_eq!(NoteType::from_name("\u{1FAB4} then \u{1F332}"), NoteType::Evergreen);
    assert_eq!(NoteType::from_name("\u{1F331}\u{1FAB4}"), NoteType::Potted);
}

#[test]
fn weights_and_glyphs_follow_classification() {
    assert_eq!(NoteType::Evergreen.to_weight(), '1');
    assert_eq!(NoteType::Potted.to_weight(), '2');
    assert_eq!(NoteType::Seedling.to_weight(), '3');
    assert_eq!(NoteType::Unmarked.to_weight(), '4');
    assert_eq!(NoteType::Evergreen.as_emoji(), '\u{1F332}');
    assert_eq!(NoteType::Potted.as_emoji(), '\u{1FAB4}');
    assert_eq!(NoteType::Seedling.as_emoji(), '\u{1F331}');
    assert_eq!(NoteType::Unmarked.as_emoji(), ' ');
    assert_eq!(NoteType::default(), NoteType::Unmarked);
}

#[test]
fn char_vector_round_trip_preserves_unicode() {
    let s = "h\u{e9}llo \u{1F332} world";
    let v = str_to_chars(s);
    assert_eq!(v.len(), s.chars().count());
    assert_eq!(chars_to_string(&v), s);
}

#[test]
fn craft_docs_new_takes_directory_name() {
    let c = CraftDocs::new(String::from("/in/Garden"));
    assert_eq!(c.input_dir, "/in/Garden");
    assert_eq!(c.input_dir_name, "Garden");
    assert!(c.files.is_empty());
    assert!(c.directories.is_empty());
}
