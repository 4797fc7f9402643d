use hallucinator_core::library::{
    has_any_wav, has_matching_descendant, is_wav_extension, name_matches, order_entries, sort_entries, str_contains,
    LibEntry,
};
use std::path::PathBuf;

fn file(name: &str) -> LibEntry {
    LibEntry { name: name.to_string(), path: PathBuf::from(name), children: Vec::new(), is_dir: false }
}

fn dir(name: &str, children: Vec<LibEntry>) -> LibEntry {
    LibEntry { name: name.to_string(), path: PathBuf::from(name), children, is_dir: true }
}

#[test]
fn contains_on_bytes() {
    assert!(str_contains("kick_808.wav", "808"));
    assert!(str_contains("abc", ""));
    assert!(!str_contains("ab", "abc"));
    assert!(!str_contains("snare", "kick"));
    assert!(str_contains("héllo", "él"));
    assert!(name_matches("hi hat open.wav", "hat"));
}

#[test]
fn wav_presence_in_tree() {
    assert!(!has_any_wav(&vec![]));
    assert!(!has_any_wav(&vec![dir("empty", vec![]), dir("nested", vec![dir("deeper", vec![])])]));
    assert!(has_any_wav(&vec![dir("a", vec![]), dir("b", vec![dir("c", vec![file("x.wav")])])]));
    assert!(has_any_wav(&vec![file("top.wav")]));
}

#[test]
fn search_filter_matches_descendants() {
    let tree = dir("kits", vec![dir("808", vec![file("Kick.WAV"), file("Snare.wav")]), file("Clap.wav")]);
    assert!(has_matching_descendant(&tree, "kick"));
    assert!(has_matching_descendant(&tree, "clap"));
    assert!(!has_matching_descendant(&tree, "tom"));
    // folder names themselves do not match
    assert!(!has_matching_descendant(&tree, "808"));
}

#[test]
fn entries_listed_by_lowercase_name() {
    let sorted = sort_entries(vec![file("b.wav"), file("A.wav"), file("c.wav"), file("a.wav")]);
    let names: Vec<&str> = sorted.iter().map(|e| e.name.as_str()).collect();
    // "A.wav" and "a.wav" compare equal and keep their order
    assert_eq!(names, vec!["A.wav", "a.wav", "b.wav", "c.wav"]);
    let listing = order_entries(vec![dir("Zeta", vec![]), dir("alpha", vec![])], vec![file("Beat.wav"), file("amb.wav")]);
    let names: Vec<&str> = listing.iter().map(|e| e.name.as_str()).collect();
    assert_eq!(names, vec!["alpha", "Zeta", "amb.wav", "Beat.wav"]);
}

#[test]
fn wav_extension_in_any_case() {
    assert!(is_wav_extension("wav"));
    assert!(is_wav_extension("WAV"));
    assert!(is_wav_extension("Wav"));
    assert!(!is_wav_extension("mp3"));
    assert!(!is_wav_extension("wave"));
    assert!(!is_wav_extension(""));
}
