use file_organizer::category::{category_of_extension, category_of_extension_bytes, category_of_lowercase, category_rows};
use file_organizer::extension::extension_of;
use file_organizer::organizer::{decide, organize, action_for, Action, Entry, OrganizeError, Organizer};

fn file(name: &str) -> Entry {
    Entry { name: name.as_bytes().to_vec(), parent: Vec::new(), is_dir: false }
}

fn dir(name: &str) -> Entry {
    Entry { name: name.as_bytes().to_vec(), parent: Vec::new(), is_dir: true }
}

fn moved_to(a: &Action) -> Option<String> {
    match a {
        Action::Move { category } => Some(category.clone()),
        _ => None,
    }
}

#[test]
fn table_rows_map_each_extension() {
    let rows = category_rows();
    let expected = [
        ("jpg", "Images"), ("png", "Images"), ("mp4", "Videos"), ("mkv", "Videos"),
        ("mp3", "Audio"), ("wav", "Audio"), ("pdf", "Documents"), ("docx", "Documents"),
        ("xlsx", "Documents"), ("pptx", "Documents"), ("csv", "Documents"), ("doc", "Documents"),
        ("zip", "Compressed"), ("rar", "Compressed"), ("7z", "Compressed"), ("exe", "Programs"),
        ("msi", "Programs"),
    ];
    assert_eq!(rows.len(), expected.len());
    for (row, (ext, cat)) in rows.iter().zip(expected.iter()) {
        assert_eq!(row.0, *ext);
        assert_eq!(row.1, *cat);
        assert_eq!(category_of_lowercase(&ext.to_string()), *cat);
    }
}

#[test]
fn lowercase_category_of_unknown_is_itself() {
    assert_eq!(category_of_lowercase(&"unknownext".to_string()), "unknownext");
    assert_eq!(category_of_lowercase(&"".to_string()), "No Extension");
}

#[test]
fn extension_in_any_case_maps_to_table_category() {
    assert_eq!(category_of_extension("JPG"), "Images");
    assert_eq!(category_of_extension("Png"), "Images");
    assert_eq!(category_of_extension("mKv"), "Videos");
    assert_eq!(category_of_extension("WAV"), "Audio");
    assert_eq!(category_of_extension("PDF"), "Documents");
    assert_eq!(category_of_extension("7Z"), "Compressed");
    assert_eq!(category_of_extension("Msi"), "Programs");
}

#[test]
fn unknown_extension_is_lowercased() {
    assert_eq!(category_of_extension("UnknownExt"), "unknownext");
    assert_eq!(category_of_extension("ÉTÉ"), "été");
    assert_eq!(category_of_extension(""), "No Extension");
}

#[test]
fn extension_bytes_that_are_not_text() {
    assert_eq!(category_of_extension_bytes(&[0xff, 0x41]), None);
    assert_eq!(category_of_extension_bytes(b"Mp3"), Some("Audio".to_string()));
}

#[test]
fn extension_follows_the_last_dot() {
    assert_eq!(extension_of(b"photo.JPG"), Some(b"JPG".to_vec()));
    assert_eq!(extension_of(b"a.tar.gz"), Some(b"gz".to_vec()));
    assert_eq!(extension_of(b"README"), None);
    assert_eq!(extension_of(b".hidden"), None);
    assert_eq!(extension_of(b"notes."), Some(Vec::new()));
    assert_eq!(extension_of(b""), None);
}

#[test]
fn directory_is_skipped() {
    assert!(matches!(decide(&dir("Images")), Ok(Action::SkipDirectory)));
    assert!(matches!(decide(&dir("folder.pdf")), Ok(Action::SkipDirectory)));
}

#[test]
fn file_with_no_extension_goes_to_no_extension() {
    assert_eq!(moved_to(&decide(&file("README")).unwrap()), Some("No Extension".to_string()));
    assert_eq!(moved_to(&decide(&file("notes.")).unwrap()), Some("No Extension".to_string()));
}

#[test]
fn dot_prefixed_name_has_no_extension() {
    assert_eq!(moved_to(&decide(&file(".hidden")).unwrap()), Some("No Extension".to_string()));
}

#[test]
fn file_already_in_its_category_is_skipped() {
    let e = Entry { name: b"photo.JPG".to_vec(), parent: vec!["Images".to_string()], is_dir: false };
    assert!(matches!(decide(&e), Ok(Action::SkipOrganized)));
    let e = Entry { name: b"photo.JPG".to_vec(), parent: vec!["Videos".to_string()], is_dir: false };
    assert_eq!(moved_to(&decide(&e).unwrap()), Some("Images".to_string()));
}

#[test]
fn action_for_compares_parent_with_category() {
    assert!(matches!(action_for(&vec!["pdf".to_string()], "pdf".to_string()), Action::SkipOrganized));
    let nested = vec!["a".to_string(), "pdf".to_string()];
    assert_eq!(moved_to(&action_for(&nested, "pdf".to_string())), Some("pdf".to_string()));
    assert_eq!(moved_to(&action_for(&Vec::new(), "pdf".to_string())), Some("pdf".to_string()));
}

#[test]
fn non_text_extension_stops_the_run() {
    let bad = Entry { name: vec![b'a', b'.', 0xff], parent: Vec::new(), is_dir: false };
    assert!(matches!(decide(&bad), Err(OrganizeError::ExtensionNotText)));
    let entries = vec![file("a.pdf"), bad, file("b.png")];
    assert!(matches!(organize(&entries), Err(OrganizeError::ExtensionNotText)));
}

#[test]
fn organizer_counts_moves_only() {
    let mut run = Organizer::new();
    assert_eq!(run.processed(), 0);
    assert!(matches!(run.step(&dir("Images")), Ok(Action::SkipDirectory)));
    assert_eq!(run.processed(), 0);
    assert_eq!(moved_to(&run.step(&file("a.docx")).unwrap()), Some("Documents".to_string()));
    assert_eq!(run.processed(), 1);
    let organized = Entry { name: b"b.docx".to_vec(), parent: vec!["Documents".to_string()], is_dir: false };
    assert!(matches!(run.step(&organized), Ok(Action::SkipOrganized)));
    assert_eq!(run.processed(), 1);
}

#[test]
fn first_run_sorts_five_files() {
    let entries = vec![
        file("photo.JPG"),
        file("video.mkv"),
        file("notes.pdf"),
        file("archive.unknownext"),
        file("README"),
    ];
    let report = organize(&entries).unwrap();
    assert_eq!(report.processed, 5);
    let cats: Vec<Option<String>> = report.actions.iter().map(moved_to).collect();
    assert_eq!(
        cats,
        vec![
            Some("Images".to_string()),
            Some("Videos".to_string()),
            Some("Documents".to_string()),
            Some("unknownext".to_string()),
            Some("No Extension".to_string()),
        ]
    );
}

#[test]
fn second_run_moves_nothing() {
    let listing = vec![dir("Images"), dir("Videos"), dir("Documents"), dir("unknownext"), dir("No Extension")];
    let report = organize(&listing).unwrap();
    assert_eq!(report.processed, 0);
    assert!(report.actions.iter().all(|a| matches!(a, Action::SkipDirectory)));
    let placed = [
        ("photo.JPG", "Images"),
        ("video.mkv", "Videos"),
        ("notes.pdf", "Documents"),
        ("archive.unknownext", "unknownext"),
        ("README", "No Extension"),
    ];
    let mut skipped = 0;
    for (name, cat) in placed.iter() {
        let e = Entry { name: name.as_bytes().to_vec(), parent: vec![cat.to_string()], is_dir: false };
        if matches!(decide(&e), Ok(Action::SkipOrganized)) {
            skipped += 1;
        }
    }
    assert_eq!(skipped, 5);
}

#[test]
fn directories_mixed_with_files_are_left_alone() {
    let entries = vec![dir("Images"), file("x.png"), dir("projects"), file("y.zip")];
    let report = organize(&entries).unwrap();
    assert_eq!(report.processed, 2);
    assert!(matches!(report.actions[0], Action::SkipDirectory));
    assert_eq!(moved_to(&report.actions[1]), Some("Images".to_string()));
    assert!(matches!(report.actions[2], Action::SkipDirectory));
    assert_eq!(moved_to(&report.actions[3]), Some("Compressed".to_string()));
}

#[test]
fn empty_listing_moves_nothing() {
    let report = organize(&Vec::new()).unwrap();
    assert_eq!(report.processed, 0);
    assert!(report.actions.is_empty());
}
