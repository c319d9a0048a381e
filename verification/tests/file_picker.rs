//! The file picker.

use codexl::json::Json;
use codexl::json_text::parse_json;
use codexl::remote::file_picker::{
    default_web_file_picker_path, dispatch_web_file_picker_message, is_web_file_picker_message,
    normalize_web_file_picker_path, web_file_picker_answer, web_file_picker_directory_payload,
    web_file_picker_entry, web_file_picker_entry_kind, web_file_picker_path_is_image,
    web_file_picker_payload, web_file_picker_root, Directory, DirectoryEntry, EntryMetadata,
    EntryType, Listing, WebFilePickerEntryKind, WebFilePickerMode, WebFilePickerPath,
};
use codexl::remote::listing_order::{listing_order, SortKey};

const LIST: &str = "web-file-picker-list";

fn parsed(text: &str) -> Json {
    parse_json(text).expect("valid JSON")
}

fn entry(entry_type: EntryType, name: &str, len: Option<u64>) -> Option<DirectoryEntry> {
    Some(DirectoryEntry {
        entry_type,
        metadata: len.map(|len| EntryMetadata { is_dir: false, is_file: true, len }),
        name: name.to_string(),
        path: format!("/d/{}", name),
    })
}

fn directory(listing: Listing) -> Directory {
    Directory { path: "/d".to_string(), parent: Some("/".to_string()), listing }
}

fn names(payload: &Json) -> Vec<String> {
    payload
        .get_array("entries")
        .expect("entries")
        .iter()
        .map(|entry| entry.get_str("name").expect("name").to_string())
        .collect()
}

fn sample() -> Directory {
    directory(Listing::Entries(vec![
        entry(EntryType::File, "zeta.PNG", Some(5)),
        entry(EntryType::Directory, "beta", None),
        None,
        entry(EntryType::File, "Alpha.txt", None),
        entry(EntryType::Directory, "Alpha", None),
        entry(EntryType::Other, "socket", None),
        entry(EntryType::Directory, ".git", None),
        entry(EntryType::Directory, "alpha", None),
        entry(EntryType::Unknown, "lost", Some(1)),
        entry(EntryType::File, "", Some(1)),
        entry(EntryType::File, "alpha.txt", Some(0)),
    ]))
}

#[test]
fn directories_come_before_files_and_names_are_sorted() {
    let payload = web_file_picker_payload(&sample(), WebFilePickerMode::File, false, 100)
        .expect("payload");
    assert_eq!(
        names(&payload),
        vec![".git", "Alpha", "alpha", "beta", "Alpha.txt", "alpha.txt", "zeta.PNG"]
    );
    assert_eq!(payload.get("truncated"), Some(&Json::Bool(false)));
    assert_eq!(payload.get_str("path"), Some("/d"));
    assert_eq!(payload.get_str("parent"), Some("/"));
    let entries = payload.get_array("entries").expect("entries");
    assert_eq!(
        entries[0],
        parsed(r#"{"hidden": true, "kind": "directory", "name": ".git", "path": "/d/.git"}"#)
    );
    assert_eq!(entries[4].get_str("kind"), Some("file"));
    assert!(entries[4].get("sizeBytes").is_none());
    assert_eq!(entries[5].get("sizeBytes").and_then(|v| v.as_u64()), Some(0));
    assert_eq!(entries[6].get("sizeBytes").and_then(|v| v.as_u64()), Some(5));
    assert_eq!(entries[6].get("hidden"), Some(&Json::Bool(false)));
}

#[test]
fn only_what_can_be_picked_is_offered() {
    let payload = web_file_picker_directory_payload(&sample(), 100).expect("payload");
    assert_eq!(names(&payload), vec![".git", "Alpha", "alpha", "beta"]);
    let payload = web_file_picker_payload(&sample(), WebFilePickerMode::File, true, 100)
        .expect("payload");
    assert_eq!(names(&payload), vec![".git", "Alpha", "alpha", "beta", "zeta.PNG"]);
    let payload = web_file_picker_payload(&sample(), WebFilePickerMode::Directory, true, 100)
        .expect("payload");
    assert_eq!(names(&payload), vec![".git", "Alpha", "alpha", "beta"]);
}

#[test]
fn a_listing_is_cut_off_at_its_limit() {
    let shown = |limit: usize| {
        let payload = web_file_picker_directory_payload(&sample(), limit).expect("payload");
        (names(&payload).len(), payload.get("truncated").and_then(|v| v.as_bool()))
    };
    assert_eq!(shown(5), (4, Some(false)));
    assert_eq!(shown(4), (4, Some(false)));
    assert_eq!(shown(3), (3, Some(true)));
    assert_eq!(shown(0), (0, Some(true)));
}

#[test]
fn names_are_compared_in_small_letters_of_every_script() {
    let listing = Listing::Entries(vec![
        entry(EntryType::Directory, "éb", None),
        entry(EntryType::Directory, "Éa", None),
        entry(EntryType::Directory, "z", None),
        entry(EntryType::Directory, "Z", None),
    ]);
    let payload = web_file_picker_directory_payload(&directory(listing), 100).expect("payload");
    assert_eq!(names(&payload), vec!["Z", "z", "Éa", "éb"]);
}

#[test]
fn a_root_directory_has_no_parent() {
    let root = Directory {
        path: "/".to_string(),
        parent: None,
        listing: Listing::Entries(Vec::new()),
    };
    let payload = web_file_picker_directory_payload(&root, 10).expect("payload");
    assert_eq!(
        payload,
        parsed_in_order(&[
            ("entries", "[]"),
            ("parent", "null"),
            ("path", "\"/\""),
            ("truncated", "false"),
        ])
    );
}

fn parsed_in_order(fields: &[(&str, &str)]) -> Json {
    Json::Object(
        fields.iter().map(|(name, text)| (name.to_string(), parsed(text))).collect(),
    )
}

#[test]
fn a_directory_that_cannot_be_listed_is_refused_with_the_reason() {
    let refused = |listing: Listing| {
        web_file_picker_directory_payload(&directory(listing), 10).unwrap_err()
    };
    assert_eq!(
        refused(Listing::CannotOpen("no such file".to_string())),
        "cannot open /d: no such file"
    );
    assert_eq!(refused(Listing::NotADirectory), "not a directory: /d");
    assert_eq!(
        refused(Listing::CannotRead("denied".to_string())),
        "cannot read /d: denied"
    );
}

#[test]
fn entries_are_what_the_file_system_says() {
    let kind = |entry_type: EntryType, metadata: Option<EntryMetadata>| {
        web_file_picker_entry_kind(&DirectoryEntry {
            entry_type,
            metadata,
            name: "n".to_string(),
            path: "p".to_string(),
        })
    };
    let metadata = |is_dir: bool, is_file: bool| Some(EntryMetadata { is_dir, is_file, len: 9 });
    assert_eq!(
        kind(EntryType::Directory, metadata(false, true)),
        Some((WebFilePickerEntryKind::Directory, None))
    );
    assert_eq!(
        kind(EntryType::File, metadata(false, true)),
        Some((WebFilePickerEntryKind::File, Some(9)))
    );
    assert_eq!(kind(EntryType::File, None), Some((WebFilePickerEntryKind::File, None)));
    assert_eq!(
        kind(EntryType::Symlink, metadata(true, false)),
        Some((WebFilePickerEntryKind::Directory, None))
    );
    assert_eq!(
        kind(EntryType::Symlink, metadata(false, true)),
        Some((WebFilePickerEntryKind::File, Some(9)))
    );
    assert_eq!(kind(EntryType::Symlink, metadata(false, false)), None);
    assert_eq!(kind(EntryType::Symlink, None), None);
    assert_eq!(kind(EntryType::Other, metadata(true, true)), None);
    assert_eq!(kind(EntryType::Unknown, metadata(true, true)), None);
    assert_eq!(WebFilePickerEntryKind::File.as_str(), "file");
    assert_eq!(WebFilePickerEntryKind::Directory.as_str(), "directory");
    assert!(
        WebFilePickerEntryKind::Directory.sort_rank() < WebFilePickerEntryKind::File.sort_rank()
    );
    assert!(web_file_picker_entry(&None, WebFilePickerMode::File, false).is_none());
}

#[test]
fn images_are_known_by_their_extension() {
    for extension in [
        "avif", "bmp", "gif", "heic", "heif", "jpeg", "jpg", "png", "svg", "tif", "tiff", "webp",
    ] {
        assert!(web_file_picker_path_is_image(&format!("a.{}", extension)));
        assert!(web_file_picker_path_is_image(&format!("a.b.{}", extension.to_uppercase())));
        assert!(!web_file_picker_path_is_image(&format!(".{}", extension)));
        assert!(!web_file_picker_path_is_image(extension));
        assert!(!web_file_picker_path_is_image(&format!("a.{}.txt", extension)));
    }
    assert!(web_file_picker_path_is_image("..png"));
    assert!(!web_file_picker_path_is_image("a.png."));
    assert!(!web_file_picker_path_is_image("/a/.png"));
    assert!(web_file_picker_path_is_image("/a/b.png"));
    assert!(web_file_picker_path_is_image("x.png/"));
    assert!(web_file_picker_path_is_image("x.png//."));
    assert!(!web_file_picker_path_is_image("x.png/.."));
    assert!(!web_file_picker_path_is_image("x.png/a"));
    assert!(!web_file_picker_path_is_image("/"));
    assert!(!web_file_picker_path_is_image(""));
}

#[test]
fn extensions_are_those_of_the_standard_library() {
    let pieces = ["", ".", "..", ".png", "a.png", "..png", "a", "a.png.", "a.txt"];
    for first in pieces {
        for second in pieces {
            for third in pieces {
                for path in [
                    format!("{}/{}/{}", first, second, third),
                    format!("{}/{}", first, second),
                    first.to_string(),
                ] {
                    let expected = std::path::Path::new(&path)
                        .extension()
                        .and_then(|extension| extension.to_str())
                        == Some("png");
                    assert_eq!(web_file_picker_path_is_image(&path), expected);
                }
            }
        }
    }
}

#[test]
fn messages_are_told_apart_by_their_type() {
    let list = parsed(&format!(
        r#"{{"type": "{}", "path": "/x", "mode": "file", "imagesOnly": true}}"#,
        LIST
    ));
    assert!(is_web_file_picker_message(&list, LIST));
    let request = dispatch_web_file_picker_message(&list, LIST).expect("request");
    assert_eq!(request.path.as_deref(), Some("/x"));
    assert_eq!(request.mode, WebFilePickerMode::File);
    assert!(request.images_only);

    let plain = parsed(&format!(r#"{{"type": "{}", "mode": "other", "imagesOnly": 1}}"#, LIST));
    let request = dispatch_web_file_picker_message(&plain, LIST).expect("request");
    assert_eq!(request.path, None);
    assert_eq!(request.mode, WebFilePickerMode::Directory);
    assert!(!request.images_only);

    let other = parsed(r#"{"type": "else"}"#);
    assert!(!is_web_file_picker_message(&other, LIST));
    assert_eq!(
        dispatch_web_file_picker_message(&other, LIST).unwrap_err(),
        "unsupported web file picker request: else"
    );
    for text in ["{}", r#"{"type": 1}"#, "[]"] {
        assert!(!is_web_file_picker_message(&parsed(text), LIST));
        assert_eq!(
            dispatch_web_file_picker_message(&parsed(text), LIST).unwrap_err(),
            "missing web file picker request type"
        );
    }
}

#[test]
fn an_answer_holds_the_payload() {
    let answer = web_file_picker_answer(Ok(Json::Bool(true))).expect("answer");
    assert_eq!(answer, parsed_in_order(&[("messages", "[]"), ("value", "true")]));
    assert_eq!(web_file_picker_answer(Err("why".to_string())).unwrap_err(), "why");
}

#[test]
fn paths_lead_from_the_home_where_it_is_known() {
    let path = |text: Option<&str>, home: bool| normalize_web_file_picker_path(text, home);
    for text in [None, Some(""), Some("  "), Some("~"), Some(" ~ ")] {
        assert!(matches!(path(text, true), WebFilePickerPath::Home));
        assert!(matches!(path(text, false), WebFilePickerPath::Root));
    }
    assert!(matches!(path(Some(" ~/a b "), true), WebFilePickerPath::InHome(p) if p == "a b"));
    assert!(matches!(path(Some("~/"), true), WebFilePickerPath::InHome(p) if p.is_empty()));
    assert!(matches!(path(Some("~/a"), false), WebFilePickerPath::Literal(p) if p == "~/a"));
    assert!(matches!(path(Some("~a"), true), WebFilePickerPath::Literal(p) if p == "~a"));
    assert!(matches!(path(Some(" /etc "), true), WebFilePickerPath::Literal(p) if p == "/etc"));
    assert!(matches!(default_web_file_picker_path(true), WebFilePickerPath::Home));
    assert!(matches!(default_web_file_picker_path(false), WebFilePickerPath::Root));
    assert_eq!(web_file_picker_root(false), "/");
    assert_eq!(web_file_picker_root(true), "C:\\");
}

#[test]
fn entries_with_equal_keys_keep_their_places() {
    let key = |rank: u8, name: &str| SortKey {
        rank,
        lowered: name.to_lowercase(),
        name: name.to_string(),
    };
    let keys = vec![key(1, "b"), key(0, "b"), key(1, "B"), key(1, "b"), key(0, "a"), key(1, "b")];
    assert_eq!(listing_order(&keys), vec![4, 1, 2, 0, 3, 5]);
    assert!(listing_order(&Vec::new()).is_empty());
    let many: Vec<SortKey> = (0..1000).map(|i| key(0, &format!("{}", i * 7919 % 1000))).collect();
    let order = listing_order(&many);
    let mut expected: Vec<usize> = (0..1000).collect();
    expected.sort_by(|a, b| many[*a].name.cmp(&many[*b].name));
    assert_eq!(order, expected);
}
