use c2z::craft_files::CraftDocs;
use c2z::errors::ConvertError;
use c2z::zola_files::ZolaFiles;

fn garden_with_doc(path: &str) -> CraftDocs {
    let mut c = CraftDocs::new(String::from("/in/Garden"));
    c.set_file(&String::from(path), String::from("c1"), String::from("m1")).unwrap();
    c
}

#[test]
fn indexing_a_document_records_key_and_slug() {
    let c = garden_with_doc("/in/Garden/Crypto/AES.md");
    assert_eq!(c.files.len(), 1);
    assert_eq!(c.files[0].path_rel, "Crypto/AES");
    assert_eq!(c.files[0].path_slug, "crypto/aes.md");
    assert_eq!(c.files[0].name, "AES");
    assert_eq!(c.files[0].created_at, "c1");
    assert_eq!(c.files[0].modified_at, "m1");
    assert!(c.files[0].assets.is_none());
    assert!(c.files[0].assets_dir.is_none());
}

#[test]
fn media_directory_binding_rewrites_slug_to_index_form() {
    let mut c = garden_with_doc("/in/Garden/Crypto/AES.md");
    c.set_directory(&String::from("/in/Garden/Crypto/AES.assets")).unwrap();
    assert_eq!(c.files[0].path_slug, "crypto/aes/index.md");
    assert_eq!(c.files[0].assets_dir.as_deref(), Some("/in/Garden/Crypto/AES.assets"));
    // the key is untouched by binding
    assert_eq!(c.files[0].path_rel, "Crypto/AES");
}

#[test]
fn orphan_media_directory_fails_the_run() {
    let mut c = garden_with_doc("/in/Garden/Crypto/AES.md");
    let e = c.set_directory(&String::from("/in/Garden/Solo.assets")).unwrap_err();
    assert!(matches!(e, ConvertError::OrphanMediaDir { ref dir } if dir == "Solo.assets"));
}

#[test]
fn loose_assets_bind_to_their_owner_in_discovery_order() {
    let mut c = garden_with_doc("/in/Garden/Crypto/AES.md");
    c.set_file(
        &String::from("/in/Garden/Crypto/AES.assets/pic.jpeg"),
        String::from("c"),
        String::from("m"),
    )
    .unwrap();
    c.set_file(
        &String::from("/in/Garden/Crypto/AES.assets/chart.gif"),
        String::from("c"),
        String::from("m"),
    )
    .unwrap();
    let assets = c.files[0].assets.as_ref().unwrap();
    assert_eq!(assets.len(), 2);
    assert_eq!(assets[0], "pic.jpeg");
    assert_eq!(assets[1], "chart.gif");
}

#[test]
fn binary_payloads_and_foreign_previews_are_discarded() {
    let mut c = garden_with_doc("/in/Garden/Crypto/AES.md");
    // the binary container itself is never kept
    c.set_file(
        &String::from("/in/Garden/Crypto/AES.assets/raw.bin"),
        String::from("c"),
        String::from("m"),
    )
    .unwrap();
    // a preview of a non-binary asset is redundant
    c.set_file(
        &String::from("/in/Garden/Crypto/AES.assets/shot.png"),
        String::from("c"),
        String::from("m"),
    )
    .unwrap();
    assert!(c.files[0].assets.is_none());
    // only the preview of a binary payload is the renderable representative
    c.set_file(
        &String::from("/in/Garden/Crypto/AES.assets/model_bin_preview.png"),
        String::from("c"),
        String::from("m"),
    )
    .unwrap();
    let assets = c.files[0].assets.as_ref().unwrap();
    assert_eq!(assets.len(), 1);
    assert_eq!(assets[0], "model_bin_preview.png");
}

#[test]
fn orphan_asset_file_fails_the_run() {
    let mut c = garden_with_doc("/in/Garden/Crypto/AES.md");
    let e = c
        .set_file(
            &String::from("/in/Garden/Nope.assets/x.jpeg"),
            String::from("c"),
            String::from("m"),
        )
        .unwrap_err();
    assert!(matches!(
        e,
        ConvertError::OrphanAssetFile { ref file } if file == "/in/Garden/Nope.assets/x.jpeg"
    ));
}

#[test]
fn file_without_extension_fails_the_run() {
    let mut c = CraftDocs::new(String::from("/in/Garden"));
    let e = c
        .set_file(&String::from("/in/Garden/noext"), String::from("c"), String::from("m"))
        .unwrap_err();
    assert!(matches!(e, ConvertError::MissingExtension { ref path } if path == "/in/Garden/noext"));
}

#[test]
fn reindexing_a_key_replaces_the_record() {
    let mut c = garden_with_doc("/in/Garden/Crypto/AES.md");
    c.set_file(&String::from("/in/Garden/Crypto/AES.md"), String::from("c2"), String::from("m2"))
        .unwrap();
    assert_eq!(c.files.len(), 1);
    assert_eq!(c.files[0].created_at, "c2");
}

#[test]
fn process_entry_routes_and_skips() {
    let mut c = CraftDocs::new(String::from("/in/Garden"));
    // the input directory itself is skipped
    c.process_entry(&String::from("/in/Garden"), true, false, String::new(), String::new())
        .unwrap();
    // the operating system's metadata artifact is skipped
    c.process_entry(
        &String::from("/in/Garden/.DS_Store"),
        false,
        true,
        String::new(),
        String::new(),
    )
    .unwrap();
    assert!(c.files.is_empty());
    assert!(c.directories.is_empty());
    // a plain directory is recorded once
    c.process_entry(&String::from("/in/Garden/Crypto"), true, false, String::new(), String::new())
        .unwrap();
    c.process_entry(&String::from("/in/Garden/Crypto"), true, false, String::new(), String::new())
        .unwrap();
    assert_eq!(c.directories.len(), 1);
    assert_eq!(c.directories[0], "Crypto");
    // a document file is indexed
    c.process_entry(
        &String::from("/in/Garden/Crypto/AES.md"),
        false,
        true,
        String::from("c"),
        String::from("m"),
    )
    .unwrap();
    assert_eq!(c.files.len(), 1);
    // a directory with a non-media extension is an ordinary directory
    c.process_entry(
        &String::from("/in/Garden/Odd.bak"),
        true,
        false,
        String::new(),
        String::new(),
    )
    .unwrap();
    assert_eq!(c.directories.len(), 2);
    assert_eq!(c.directories[1], "Odd.bak");
}

#[test]
fn trailing_separator_on_the_input_directory_is_ignored() {
    let mut c = CraftDocs::new(String::from("/in/Garden/"));
    assert_eq!(c.input_dir_name, "Garden");
    c.set_file(&String::from("/in/Garden/Crypto/AES.md"), String::from("c"), String::from("m"))
        .unwrap();
    assert_eq!(c.files[0].path_rel, "Crypto/AES");
    assert_eq!(c.files[0].path_slug, "crypto/aes.md");
    c.set_directory(&String::from("/in/Garden/Crypto/AES.assets")).unwrap();
    assert_eq!(c.files[0].assets_dir.as_deref(), Some("/in/Garden/Crypto/AES.assets"));
}

#[test]
fn output_paths_land_under_the_output_directory() {
    let z = ZolaFiles::new(String::from("/out/content"));
    assert_eq!(z.output_dir, "/out/content");
    assert_eq!(z.create_output_path(&String::from("crypto/aes/index.md")), "/out/content/crypto/aes/index.md");
}
