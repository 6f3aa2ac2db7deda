use spectrix_histoer::naming::{
    cut_1d_base_name, default_2d_cut_name, next_1d_cut_name, next_2d_cut_name, next_cut_name,
    prefixed_name,
    sanitize_histogram_file_name_component,
    sanitized_cut_1d_file_name, sanitized_cut_2d_file_name,
};

#[test]
fn the_next_cut_name_takes_the_first_free_index() {
    let base = cut_1d_base_name("X1");
    assert_eq!(base, "X1 1D Cut");
    assert_eq!(next_cut_name(&base, &Vec::new()), "X1 1D Cut 1");
    let existing = vec!["X1 1D Cut 1".to_owned(), "X1 1D Cut 3".to_owned()];
    assert_eq!(next_cut_name(&base, &existing), "X1 1D Cut 2");
    let existing = vec!["X1 1D Cut 2".to_owned(), "X1 1D Cut 1".to_owned()];
    assert_eq!(next_cut_name(&base, &existing), "X1 1D Cut 3");
}

#[test]
fn the_default_2d_cut_name_puts_y_before_x() {
    assert_eq!(default_2d_cut_name("X1", "X2"), "X2 v X1 Cut");
}

#[test]
fn histogram_file_names_lose_path_characters() {
    assert_eq!(sanitize_histogram_file_name_component("  S1/Ring 0: a*b  "), "S1_Ring_0_a_b");
    assert_eq!(sanitize_histogram_file_name_component(" /// "), "histogram");
    assert_eq!(sanitize_histogram_file_name_component("a__b"), "a_b");
    assert_eq!(sanitize_histogram_file_name_component("é-ok"), "é-ok");
}

#[test]
fn cut_file_names_keep_ascii_letters_digits_and_dashes() {
    assert_eq!(sanitized_cut_1d_file_name(" X1 > 3 & é "), "X1_3");
    assert_eq!(sanitized_cut_1d_file_name("   "), "1d_cut");
    assert_eq!(sanitized_cut_1d_file_name("***"), "1d_cut");
    assert_eq!(sanitized_cut_1d_file_name("a-b"), "a-b");
    assert_eq!(sanitized_cut_2d_file_name("", "X1", "X2"), "X2_v_X1_Cut");
    assert_eq!(sanitized_cut_2d_file_name(" my cut ", "X1", "X2"), "my_cut");
    assert_eq!(sanitized_cut_2d_file_name("!!", "X1", "X2"), "cut");
}

#[test]
fn prefixes_put_a_histogram_under_a_folder() {
    assert_eq!(prefixed_name("run1", "X1"), "run1/X1");
}

#[test]
fn new_cuts_of_a_histogram_are_numbered() {
    let existing = vec!["X1 1D Cut 1".to_owned()];
    assert_eq!(next_1d_cut_name("X1", &existing), "X1 1D Cut 2");
    assert_eq!(next_2d_cut_name("X1", "X2", &Vec::new()), "X2 v X1 Cut 1");
}

#[test]
fn histogram_file_name_components_are_stable() {
    for name in ["a  b__c", " _x_:_y_ ", "///", "Energy v Time", "__"] {
        let once = sanitize_histogram_file_name_component(name);
        assert!(!once.contains("__"));
        assert_eq!(sanitize_histogram_file_name_component(&once), once);
    }
    assert_eq!(sanitize_histogram_file_name_component("a  b__c"), "a_b_c");
}
