use std::io::Write;

use dst_update_publisher::error::AppError;
use dst_update_publisher::po_file::po_text_safe;
use dst_update_publisher::po_search::{build_index_from_po_contents, split_and_filter, PoFileIndex};
use dst_update_publisher::po_zip::po_index_from_zip;
use dst_update_publisher::variants::generate_variants;

const PO: &str = r#"msgid ""
msgstr ""
"Content-Type: text/plain; charset=UTF-8\n"

#. STRINGS.NAMES.WARG
msgctxt "STRINGS.NAMES.WARG"
msgid "Varg"
msgstr "座狼"

msgctxt "STRINGS.NAMES.HOUND"
msgid "Hound"
msgstr "猎犬"

msgctxt "STRINGS.NAMES.NIGHTMAREFUEL"
msgid "Nightmare Fuel"
msgstr "噩梦燃料"

msgctxt "STRINGS.NAMES.MOLE"
msgid "Moleworm"
msgstr "鼹鼠"

msgctxt "STRINGS.CHARACTERS.WILSON.DESCRIBE.WARG"
msgid "Varg"
msgstr "一句台词"

#, fuzzy
msgctxt "STRINGS.NAMES.FUZZ"
msgid "Fuzzy Thing"
msgstr "模糊"

msgctxt "STRINGS.NAMES.LONG"
msgid "one two three four five six"
msgstr "太长"

msgctxt "STRINGS.NAMES.EMPTY"
msgid "Empty"
msgstr ""
"#;

fn index() -> PoFileIndex {
    assert!(po_text_safe(PO));
    build_index_from_po_contents(&[PO.to_string()]).ok().expect("index builds")
}

fn pairs(ix: &PoFileIndex, term: &str) -> Vec<(String, String)> {
    ix.search_terms(&[term])[0]
        .candidates
        .iter()
        .map(|c| (c.original.clone(), c.translation.clone()))
        .collect()
}

#[test]
fn index_keeps_accepted_messages_only() {
    assert_eq!(index().len(), 4);
}

#[test]
fn search_ignores_case() {
    let ix = index();
    assert_eq!(pairs(&ix, "VARG"), vec![("Varg".to_string(), "座狼".to_string())]);
}

#[test]
fn search_by_words() {
    let ix = index();
    assert_eq!(
        pairs(&ix, "fuel of the nightmare"),
        vec![("Nightmare Fuel".to_string(), "噩梦燃料".to_string())]
    );
}

#[test]
fn search_finds_nothing_for_rejected_messages() {
    let ix = index();
    assert!(pairs(&ix, "Fuzzy Thing").is_empty());
    assert!(pairs(&ix, "Empty").is_empty());
    assert!(pairs(&ix, "one two three four five six").is_empty());
}

#[test]
fn terms_split_without_stop_words() {
    assert_eq!(
        split_and_filter("The Fuel of a Nightmare"),
        vec!["fuel".to_string(), "nightmare".to_string()]
    );
}

#[test]
fn variants_of_plural_and_singular() {
    let v: Vec<String> =
        generate_variants(b"hounds").into_iter().map(|b| String::from_utf8(b).unwrap()).collect();
    assert_eq!(v, vec!["hounds".to_string(), "hound".to_string()]);
    let v: Vec<String> =
        generate_variants(b"wolf").into_iter().map(|b| String::from_utf8(b).unwrap()).collect();
    assert_eq!(v, vec!["wolf".to_string(), "wolfs".to_string(), "wolves".to_string()]);
    let v = generate_variants(b"ox");
    assert_eq!(v, vec![b"ox".to_vec()]);
}

fn zip_of(files: &[(&str, &[u8])]) -> Vec<u8> {
    let mut w = zip::ZipWriter::new(std::io::Cursor::new(Vec::new()));
    for (name, body) in files {
        w.start_file(*name, zip::write::SimpleFileOptions::default()).unwrap();
        w.write_all(body).unwrap();
    }
    w.finish().unwrap().into_inner()
}

#[test]
fn zip_index_skips_missing_members() {
    let bytes = zip_of(&[("scripts/languages/chinese_s.po", PO.as_bytes())]);
    let files = vec!["missing.po".to_string(), "scripts/languages/chinese_s.po".to_string()];
    let ix = po_index_from_zip("scripts.zip", &bytes, &files).unwrap().ok().unwrap();
    assert_eq!(ix.len(), 4);
}

#[test]
fn zip_index_reads_members_in_order() {
    let bytes = zip_of(&[("a.po", PO.as_bytes()), ("b.po", PO.as_bytes())]);
    let files = vec!["a.po".to_string(), "b.po".to_string()];
    let ix = po_index_from_zip("scripts.zip", &bytes, &files).unwrap().ok().unwrap();
    assert_eq!(ix.len(), 8);
}

#[test]
fn zip_index_bad_archive() {
    match po_index_from_zip("scripts.zip", b"not a zip", &["a.po".to_string()]) {
        Some(Err(AppError::ZipProcessing(m))) => assert!(m.starts_with("failed to read ZIP 'scripts.zip': ")),
        _ => panic!("expected a ZIP error"),
    }
}

#[test]
fn zip_index_unreadable_member() {
    let bytes = zip_of(&[("bad.po", &[0xff, 0xfe, 0x00])]);
    match po_index_from_zip("scripts.zip", &bytes, &["bad.po".to_string()]) {
        Some(Err(AppError::PoProcessing(m))) => assert!(m.starts_with("failed to read 'bad.po': ")),
        _ => panic!("expected a PO error"),
    }
}

#[test]
fn search_gives_at_most_five_distinct_candidates() {
    let mut po = String::from("msgid \"\"\nmsgstr \"\"\n\"Content-Type: text/plain; charset=UTF-8\\n\"\n");
    for (ctx, tr) in [("A", "木头"), ("B", "木头"), ("C", "原木"), ("D", "木材"), ("E", "圆木"), ("F", "树干"), ("G", "柴")] {
        po.push_str(&format!("\nmsgctxt \"STRINGS.NAMES.{}\"\nmsgid \"Log\"\nmsgstr \"{}\"\n", ctx, tr));
    }
    assert!(po_text_safe(&po));
    let ix = build_index_from_po_contents(&[po]).ok().unwrap();
    let found = pairs(&ix, "log");
    assert_eq!(
        found,
        vec![
            ("Log".to_string(), "木头".to_string()),
            ("Log".to_string(), "原木".to_string()),
            ("Log".to_string(), "木材".to_string()),
            ("Log".to_string(), "圆木".to_string()),
            ("Log".to_string(), "树干".to_string()),
        ]
    );
}

#[test]
fn zip_index_accepts_long_lines() {
    let mut po = String::from(
        "msgid \"\"\nmsgstr \"\"\n\"Content-Type: text/plain; charset=UTF-8\\n\"\n\nmsgctxt \"STRINGS.NAMES.LONG\"\nmsgid \"Long\"\nmsgstr \"",
    );
    po.push_str(&"x".repeat(70000));
    po.push_str("\"\n");
    assert!(po_text_safe(&po));
    let bytes = zip_of(&[("long.po", po.as_bytes())]);
    let ix = po_index_from_zip("scripts.zip", &bytes, &["long.po".to_string()])
        .expect("a long line is no shape that stops the parse")
        .ok()
        .expect("index builds");
    assert_eq!(ix.len(), 1);
}

#[test]
fn search_case_of_ascii_terms_does_not_matter() {
    let ix = index();
    for (a, b) in [("nightmare fuel", "NIGHTMARE FUEL"), ("fuel of the nightmare", "Fuel Of The NightMare"), ("moleworm", "MoleWorm")] {
        assert_eq!(pairs(&ix, a), pairs(&ix, b));
    }
}

#[test]
fn plural_and_singular_reach_each_other() {
    let v = generate_variants(b"rock");
    assert!(v.contains(&b"rocks".to_vec()));
    let v = generate_variants(b"rocks");
    assert!(v.contains(&b"rock".to_vec()));
}

#[test]
fn word_search_ranks_by_score() {
    let mut po = String::from("msgid \"\"\nmsgstr \"\"\n\"Content-Type: text/plain; charset=UTF-8\\n\"\n");
    for (ctx, id, tr) in [
        ("A", "Red Gem", "红宝石"),
        ("B", "Red Blue Gem Stone", "红蓝宝石"),
        ("C", "Blue Gem", "蓝宝石"),
        ("D", "Stone Wall", "石墙"),
    ] {
        po.push_str(&format!("\nmsgctxt \"STRINGS.NAMES.{}\"\nmsgid \"{}\"\nmsgstr \"{}\"\n", ctx, id, tr));
    }
    let ix = build_index_from_po_contents(&[po]).ok().unwrap();
    let found = pairs(&ix, "blue gem stone");
    assert_eq!(
        found,
        vec![
            ("Red Blue Gem Stone".to_string(), "红蓝宝石".to_string()),
            ("Blue Gem".to_string(), "蓝宝石".to_string()),
            ("Red Gem".to_string(), "红宝石".to_string()),
            ("Stone Wall".to_string(), "石墙".to_string()),
        ]
    );
    assert!(pairs(&ix, "the of").is_empty());
}

#[test]
fn po_index_e2e_build_and_search() {
    let index = index();

    let results = index.search_terms(&["Varg", "Nightmare Fuel", "Moleworm"]);

    let varg_result = &results[0];
    assert_eq!(varg_result.term, "Varg");
    assert!(!varg_result.candidates.is_empty());
    assert!(varg_result.candidates.iter().any(|c| c.original == "Varg" && c.translation == "座狼"));

    let nf_result = &results[1];
    assert_eq!(nf_result.term, "Nightmare Fuel");
    assert!(nf_result
        .candidates
        .iter()
        .any(|c| c.original == "Nightmare Fuel" && c.translation == "噩梦燃料"));

    let mole_result = &results[2];
    assert_eq!(mole_result.term, "Moleworm");
    assert!(mole_result.candidates.iter().any(|c| c.translation == "鼹鼠"));
}

#[test]
fn po_index_e2e_variant_matching() {
    let index = index();

    let results = index.search_terms(&["Vargs", "Hounds"]);

    let vargs_result = &results[0];
    assert!(!vargs_result.candidates.is_empty(), "Vargs should find via variant");
    assert!(vargs_result.candidates.iter().any(|c| c.original == "Varg"));

    let hounds_result = &results[1];
    assert!(!hounds_result.candidates.is_empty(), "Hounds should find results");
}

#[test]
fn line_piece_that_splits_a_character_is_an_error_not_a_panic() {
    let mut po = String::from("msgid \"Long\"\nmsgstr \"");
    let head = 65536 - "msgstr \"".len() - 1;
    po.push_str(&"x".repeat(head));
    po.push_str("座\"\n");
    assert!(po_text_safe(&po));
    match build_index_from_po_contents(&[po]) {
        Err(AppError::PoProcessing(_)) => {}
        _ => panic!("expected a PO error"),
    }
}
