use watson::extract_tags;
use watson::notes::{note_file_name, note_file_text, sanitize_filename};

#[test]
fn test_extract_tags() {
    assert_eq!(extract_tags("hello #world"), vec!["world"]);
    assert_eq!(extract_tags("#one #two #three"), vec!["one", "three", "two"]);
    assert_eq!(extract_tags("no tags here"), Vec::<String>::new());
    assert_eq!(extract_tags("#Work meeting notes"), vec!["work"]);
    assert_eq!(extract_tags("# not a tag"), Vec::<String>::new());
}

#[test]
fn tags_are_deduplicated_and_trimmed() {
    assert_eq!(extract_tags("#a, #A! ##a #b-\n#b"), vec!["a", "b"]);
    assert_eq!(extract_tags("#!!! #rust2024."), vec!["rust2024"]);
    assert_eq!(extract_tags("x#y #Zoë\t#zoë"), vec!["zoë"]);
    assert_eq!(extract_tags(""), Vec::<String>::new());
}

#[test]
fn sanitize_filename_replaces_and_cuts() {
    assert_eq!(sanitize_filename("My Note: v1_2-3"), "My-Note--v1_2-3");
    let long = "a".repeat(80);
    assert_eq!(sanitize_filename(&long), "a".repeat(50));
    assert_eq!(sanitize_filename("été/ü"), "été-ü");
    assert_eq!(sanitize_filename(""), "");
}

#[test]
fn note_file_name_and_text() {
    assert_eq!(note_file_name("note:1700000000000", "Plan: Q1"), "1700000000000-Plan--Q1.md");
    assert_eq!(note_file_text("Title", "body"), "# Title\n\nbody");
}

#[test]
fn tags_split_on_unicode_space() {
    assert_eq!(extract_tags("#a\u{2003}#b\u{3000}#c"), vec!["a", "b", "c"]);
}
