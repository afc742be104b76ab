use mechanix_home::desktop::{desktop_exec, strip_field_codes};
use mechanix_home::text::{char_is_space, is_blank, to_chars, trim_range};

#[test]
fn field_codes_are_dropped_and_words_respaced() {
    assert_eq!(strip_field_codes("gtk4-demo %U"), "gtk4-demo");
    assert_eq!(strip_field_codes("  app   --flag  %f  x "), "app --flag x");
    assert_eq!(strip_field_codes("%u"), "");
    assert_eq!(strip_field_codes(""), "");
    assert_eq!(strip_field_codes("a\t%F\tb"), "a b");
}

#[test]
fn percent_inside_a_word_is_kept() {
    assert_eq!(strip_field_codes("run 50%"), "run 50%");
}

#[test]
fn exec_comes_from_the_desktop_entry_group() {
    let text = "[Desktop Entry]\nName=Demo\nExec=gtk4-demo %U\n\n[Desktop Action new]\nExec=gtk4-demo --new\n";
    assert_eq!(desktop_exec(text), "gtk4-demo");
}

#[test]
fn last_exec_wins_and_case_of_header_is_ignored() {
    let text = "  [desktop entry]  \r\nExec=first\r\n   Exec=second  %f\r\n";
    assert_eq!(desktop_exec(text), "second");
}

#[test]
fn exec_outside_the_group_is_ignored() {
    assert_eq!(desktop_exec("Exec=orphan\n[Other]\nExec=other\n"), "");
    assert_eq!(desktop_exec(""), "");
    assert_eq!(desktop_exec("[Desktop Entry]\nExecute=nope\n"), "");
}

#[test]
fn text_helpers() {
    assert!(char_is_space('\u{3000}'));
    assert!(!char_is_space('x'));
    assert!(is_blank(" \t\n"));
    assert!(!is_blank(" a "));
    let v = to_chars("  ab c ");
    assert_eq!(trim_range(&v, 0, v.len()), (2, 6));
    assert_eq!(trim_range(&v, 0, 2), (2, 2));
}
