use c2z::craft_files::CraftDocs;
use c2z::errors::ConvertError;

fn garden() -> CraftDocs {
    CraftDocs::new(String::from("/in/Garden"))
}

fn add_doc(c: &mut CraftDocs, path: &str, body: &str) {
    c.set_file(&String::from(path), String::from("2023-01-01T00:00:00Z"), String::from("2023-01-02T00:00:00Z"))
        .unwrap();
    let i = c.files.len() - 1;
    c.set_contents(i, String::from(body));
}

fn frontmatter(title: &str, weight: char, glyph: char) -> String {
    format!(
        "---\ntitle: \"{}\"\ndate: 2023-01-01T00:00:00Z\nupdated: 2023-01-02T00:00:00Z\nweight: {}\nextra:\n  note_type: {}\n---\n",
        title, weight, glyph
    )
}

#[test]
fn heading_is_replaced_by_metadata_block() {
    let mut c = garden();
    add_doc(&mut c, "/in/Garden/Notes/Plain.md", "# Plain\nBody text.\n");
    c.format_markdown().unwrap();
    let expected = format!("{}Body text.\n", frontmatter("Plain", '4', ' '));
    assert_eq!(c.files[0].contents, expected);
}

#[test]
fn classification_reaches_weight_and_glyph() {
    let mut c = garden();
    add_doc(&mut c, "/in/Garden/Notes/\u{1F332} Forest.md", "# T\nx");
    c.format_markdown().unwrap();
    let expected = format!("{}x", frontmatter("\u{1F332} Forest", '1', '\u{1F332}'));
    assert_eq!(c.files[0].contents, expected);
}

#[test]
fn wiki_reference_with_anchor_and_heading_resolves_by_key_alone() {
    let mut c = garden();
    add_doc(&mut c, "/in/Garden/Topic/Sub.md", "# Sub\ntarget");
    add_doc(
        &mut c,
        "/in/Garden/Notes/Src.md",
        "# Src\nSee [[Topic/Sub#^AAAAAAAA-BBBB-4CCC-8DDD-EEEEFFFF0000#Some Heading]] now.\n",
    );
    c.format_markdown().unwrap();
    let expected = format!(
        "{}See [Sub](@/garden/topic/sub.md#some-heading) now.\n",
        frontmatter("Src", '4', ' ')
    );
    assert_eq!(c.files[1].contents, expected);
}

#[test]
fn wiki_reference_uses_final_slug_of_media_owning_document() {
    let mut c = garden();
    add_doc(&mut c, "/in/Garden/Crypto/AES.md", "# AES\nbody");
    c.set_directory(&String::from("/in/Garden/Crypto/AES.assets")).unwrap();
    add_doc(&mut c, "/in/Garden/Notes/Src.md", "# Src\n[[Crypto/AES]]");
    c.format_markdown().unwrap();
    let expected = format!("{}[AES](@/garden/crypto/aes/index.md)", frontmatter("Src", '4', ' '));
    assert_eq!(c.files[1].contents, expected);
}

#[test]
fn unresolved_wiki_reference_names_file_and_reference() {
    let mut c = garden();
    add_doc(&mut c, "/in/Garden/Notes/Src.md", "# Src\nSee [[Missing/Doc]].\n");
    let e = c.format_markdown().unwrap_err();
    assert!(matches!(
        e,
        ConvertError::UnresolvedWikiLink { ref file, ref reference }
            if file == "/in/Garden/Notes/Src.md" && reference == "[[Missing/Doc]]"
    ));
    // nothing was committed
    assert_eq!(c.files[0].contents, "# Src\nSee [[Missing/Doc]].\n");
}

#[test]
fn calendar_pseudo_link_becomes_inert_display_text() {
    let mut c = garden();
    add_doc(&mut c, "/in/Garden/Notes/Day.md", "# D\nOn [Mon, Dec 3](day://2023.12.03) it rained.\n");
    c.format_markdown().unwrap();
    let expected = format!(
        "{}On [Sun, Dec 3 '23](javascript:;) it rained.\n",
        frontmatter("Day", '4', ' ')
    );
    assert_eq!(c.files[0].contents, expected);
}

#[test]
fn calendar_link_with_impossible_date_fails_the_run() {
    let mut c = garden();
    add_doc(&mut c, "/in/Garden/Notes/Day.md", "# D\n[d](day://2023.13.05)\n");
    let e = c.format_markdown().unwrap_err();
    assert!(matches!(
        e,
        ConvertError::InvalidDayDate { ref file, ref link }
            if file == "/in/Garden/Notes/Day.md" && link == "[d](day://2023.13.05)"
    ));
}

#[test]
fn leap_day_is_a_real_date() {
    let mut c = garden();
    add_doc(&mut c, "/in/Garden/Notes/Leap.md", "# L\n[x](day://2024.02.29)");
    c.format_markdown().unwrap();
    let expected = format!("{}[Thu, Feb 29 '24](javascript:;)", frontmatter("Leap", '4', ' '));
    assert_eq!(c.files[0].contents, expected);
    let mut c2 = garden();
    add_doc(&mut c2, "/in/Garden/Notes/NoLeap.md", "# L\n[x](day://2023.02.29)");
    assert!(c2.format_markdown().is_err());
}

#[test]
fn media_image_reference_flattens_to_bare_name() {
    let mut c = garden();
    add_doc(
        &mut c,
        "/in/Garden/Notes/Pic.md",
        "# P\n![pic](Notes On Something.assets/pic.jpeg)\n",
    );
    c.format_markdown().unwrap();
    let expected = format!("{}![pic](pic.jpeg)\n", frontmatter("Pic", '4', ' '));
    assert_eq!(c.files[0].contents, expected);
}

#[test]
fn foreign_fence_tag_becomes_bare_fence() {
    let mut c = garden();
    add_doc(&mut c, "/in/Garden/Notes/Code.md", "# C\n```other\nlet x = 1\n```\n");
    c.format_markdown().unwrap();
    let expected = format!("{}```\nlet x = 1\n```\n", frontmatter("Code", '4', ' '));
    assert_eq!(c.files[0].contents, expected);
}

#[test]
fn block_address_reference_aborts_the_whole_run() {
    let mut c = garden();
    add_doc(&mut c, "/in/Garden/Notes/Good.md", "# G\nfine");
    add_doc(
        &mut c,
        "/in/Garden/Notes/Bad.md",
        "# B\n[x](craftdocs://open?blockID=b&spaceID=s)\n",
    );
    add_doc(&mut c, "/in/Garden/Notes/Also.md", "# A\nfine too");
    let e = c.format_markdown().unwrap_err();
    assert!(matches!(
        e,
        ConvertError::CraftBlockLink { ref file, ref link }
            if file == "/in/Garden/Notes/Bad.md"
                && link == "[x](craftdocs://open?blockID=b&spaceID=s)"
    ));
    // the whole run aborted: no document, however sound, was rewritten
    assert_eq!(c.files[0].contents, "# G\nfine");
    assert_eq!(c.files[2].contents, "# A\nfine too");
}

#[test]
fn empty_body_gets_metadata_block_alone() {
    let mut c = garden();
    add_doc(&mut c, "/in/Garden/Notes/Empty.md", "");
    c.format_markdown().unwrap();
    assert_eq!(c.files[0].contents, frontmatter("Empty", '4', ' '));
}

#[test]
fn heading_without_newline_is_kept() {
    let mut c = garden();
    add_doc(&mut c, "/in/Garden/Notes/Stub.md", "# Only a heading");
    c.format_markdown().unwrap();
    let expected = format!("{}# Only a heading", frontmatter("Stub", '4', ' '));
    assert_eq!(c.files[0].contents, expected);
}

#[test]
fn wiki_reference_with_anchor_alone_drops_the_anchor() {
    let mut c = garden();
    add_doc(&mut c, "/in/Garden/Topic/Sub.md", "# Sub\ntarget");
    add_doc(
        &mut c,
        "/in/Garden/Notes/Src.md",
        "# Src\n[[Topic/Sub#^AAAAAAAA-BBBB-4CCC-8DDD-EEEEFFFF0000]]",
    );
    c.format_markdown().unwrap();
    let expected = format!("{}[Sub](@/garden/topic/sub.md)", frontmatter("Src", '4', ' '));
    assert_eq!(c.files[1].contents, expected);
}

#[test]
fn wiki_reference_with_heading_alone_slugifies_the_fragment() {
    let mut c = garden();
    add_doc(&mut c, "/in/Garden/Topic/Sub.md", "# Sub\ntarget");
    add_doc(&mut c, "/in/Garden/Notes/Src.md", "# Src\n[[Topic/Sub#Deep Dive]]");
    c.format_markdown().unwrap();
    let expected =
        format!("{}[Sub](@/garden/topic/sub.md#deep-dive)", frontmatter("Src", '4', ' '));
    assert_eq!(c.files[1].contents, expected);
}

#[test]
fn rewrite_is_committed_for_every_document_or_none() {
    let mut c = garden();
    add_doc(&mut c, "/in/Garden/A/One.md", "# One\n[[B/Two]]");
    add_doc(&mut c, "/in/Garden/B/Two.md", "# Two\n[[A/One]]");
    c.format_markdown().unwrap();
    let e1 = format!("{}[Two](@/garden/b/two.md)", frontmatter("One", '4', ' '));
    let e2 = format!("{}[One](@/garden/a/one.md)", frontmatter("Two", '4', ' '));
    assert_eq!(c.files[0].contents, e1);
    assert_eq!(c.files[1].contents, e2);
}
