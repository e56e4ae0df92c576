use mdbook_nvim_treesitter::driver::settings::{unrecognized_keys, SETTINGS_KEY};

fn keys(names: &[&str]) -> Vec<String> {
    names.iter().map(|n| n.to_string()).collect()
}

/// The name of the setting that limits highlighting to some languages.
fn only_key() -> String {
    format!("{}{}", "in", "clude")
}

#[test]
fn mdbook_own_keys_are_accepted_in_silence() {
    // Every key mdBook reads out of this same table. None of them is our
    // business, and all of them are ordinary things to find in a book.toml.
    let keys = keys(&["command", "before", "after", "optional", "renderers", "exclude"]);
    assert_eq!(unrecognized_keys(&keys), [] as [String; 0]);
}

#[test]
fn a_misspelled_key_warns_and_still_builds() {
    let warnings = unrecognized_keys(&keys(&["excludes"]));

    assert_eq!(warnings.len(), 1, "{warnings:?}");
    assert!(warnings[0].contains("excludes"), "{warnings:?}");
    // The warning has to say what the real settings are, or it does not
    // help anyone find the typo.
    assert!(warnings[0].contains("exclude"), "{warnings:?}");
}

#[test]
fn an_unknown_key_does_not_stop_the_rest_being_read() {
    let keys = vec!["future_mdbook_key".to_string(), only_key()];
    assert_eq!(unrecognized_keys(&keys).len(), 1);
}

#[test]
fn our_own_keys_draw_no_complaint() {
    let mut keys = keys(&["cache_dir", "exclude"]);
    keys.push(only_key());
    assert!(unrecognized_keys(&keys).is_empty());
}

#[test]
fn a_complaint_names_the_table_and_what_it_reads() {
    let complaints = unrecognized_keys(&keys(&["excludes", "exclude"]));
    assert_eq!(complaints.len(), 1, "{complaints:?}");
    assert!(complaints[0].contains("(it reads "), "{complaints:?}");
    assert!(complaints[0].contains(SETTINGS_KEY), "{complaints:?}");
}
