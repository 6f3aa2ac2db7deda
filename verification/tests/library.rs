use spectrix_histoer::colormaps::{reversed_colors, ColorMap, ColormapOptions};
use spectrix_histoer::decimal::{parse_decimal, to_decimal};
use spectrix_histoer::expressions::{
    is_left_associative, precedence, split_top_level_additive_terms, trim_wrapping_parentheses,
    ComputedColumnTermSign,
};
use spectrix_histoer::float_literal::check_float_literal;
use spectrix_histoer::group_tokens::{
    derive_group_name_tokens, extract_middle_token, longest_common_prefix, longest_common_suffix,
};
use spectrix_histoer::identifiers::{
    expanded_computed_column_alias, is_valid_computed_column_alias, is_valid_identifier_name,
    sanitize_computed_column_alias, sanitize_identifier_fragment,
    sanitize_identifier_name, summarize_column_expression_line,
};
use spectrix_histoer::markers::{
    add_peak_id, ensure_peak_ids, markers_dragging, peak_marker_name, peak_marker_names, BackgroundPair, GuessSource, PeakDragState,
    VerticalMarker,
};
use spectrix_histoer::names::{fill_pairs_for_merge, normalize_names, normalized_axis_columns, ColumnGroup};
use spectrix_histoer::scripter::columns;
use spectrix_histoer::rebin::{possible_axis_rebin_factors, possible_rebin_factors, rebin_counts};
use spectrix_histoer::reorder::reorder_vec_item;
use spectrix_histoer::sorting::sort_names;
use spectrix_histoer::sources::{
    build_source_group_resolver_for_columns, checked_expand_pattern_source_selection, expand_pattern_source_selection,
    groups_fit_against, selection_fits,
};

fn strings(values: &[&str]) -> Vec<String> {
    values.iter().map(|value| (*value).to_owned()).collect()
}

fn chars(text: &str) -> Vec<char> {
    text.chars().collect()
}

#[test]
fn color_map_defaults() {
    assert_eq!(ColorMap::default(), ColorMap::Viridis);
    let options = ColormapOptions::default();
    assert!(options.log_norm);
    assert!(!options.reverse);
    assert!(!options.custom_display_range);
    assert_eq!(options.display_min, 0);
    assert_eq!(options.display_max, u64::MAX);
}

#[test]
fn zero_counts_are_transparent_on_a_log_scale() {
    let mut options = ColormapOptions::default();
    assert!(options.is_transparent(0));
    assert!(!options.is_transparent(3));
    options.log_norm = false;
    assert!(!options.is_transparent(0));
    assert_eq!(options.min_display_value(), 0);
}

#[test]
fn the_display_range_follows_the_custom_setting() {
    let mut options = ColormapOptions::default();
    assert_eq!(options.display_range(2, 90), (2, 90));
    options.custom_display_range = true;
    options.display_min = 5;
    options.display_max = 50;
    assert_eq!(options.display_range(2, 90), (5, 50));
}

#[test]
fn reversing_keeps_stops_and_reverses_colors() {
    let data = vec![(0.0f32, 1, 2, 3), (0.5f32, 4, 5, 6), (1.0f32, 7, 8, 9)];
    let reversed = reversed_colors(&data);
    assert_eq!(reversed, vec![(0.0f32, 7, 8, 9), (0.5f32, 4, 5, 6), (1.0f32, 1, 2, 3)]);
    assert_eq!(reversed_colors(&reversed), data);
}

#[test]
fn decimals_round_trip() {
    assert_eq!(to_decimal(0), vec!['0']);
    assert_eq!(to_decimal(907), chars("907"));
    let digits = chars("x1234y");
    assert_eq!(parse_decimal(&digits, 1, 5), 1234);
}

#[test]
fn operator_precedence_and_grouping() {
    assert_eq!(precedence("+"), 1);
    assert_eq!(precedence("/"), 2);
    assert_eq!(precedence("**"), 3);
    assert_eq!(precedence("("), 0);
    assert!(is_left_associative("-"));
    assert!(!is_left_associative("**"));
}

#[test]
fn additive_terms_split_at_top_level_signs() {
    let terms = split_top_level_additive_terms(" -a*(b+c) + d - (e) ");
    assert_eq!(
        terms,
        vec![
            (ComputedColumnTermSign::Subtract, "a*(b+c)".to_owned()),
            (ComputedColumnTermSign::Add, "d".to_owned()),
            (ComputedColumnTermSign::Subtract, "(e)".to_owned()),
        ]
    );
    assert_eq!(trim_wrapping_parentheses(" ((a + b)) "), "a + b");
    assert_eq!(trim_wrapping_parentheses("(a) + (b)"), "(a) + (b)");
}

#[test]
fn float_literals_follow_std_grammar() {
    for accepted in ["1", "-2.5", "+.5", "1.", "1e5", "2E-3", "inf", "-Infinity", "NaN"] {
        assert!(check_float_literal(&chars(accepted)), "{accepted}");
        assert!(accepted.parse::<f64>().is_ok(), "{accepted}");
    }
    for refused in ["", ".", "e5", "1e", "1.2.3", "--1", " 1", "nan1", "\u{0663}"] {
        assert!(!check_float_literal(&chars(refused)), "{refused}");
        assert!(refused.parse::<f64>().is_err(), "{refused}");
    }
}

#[test]
fn group_name_tokens_are_the_middles_of_the_names() {
    let names = strings(&["S1Ring0Energy", "S1Ring1Energy"]);
    assert_eq!(longest_common_prefix(&names), "S1Ring");
    assert_eq!(longest_common_suffix(&names, "S1Ring"), "Energy");
    assert_eq!(extract_middle_token("S1Ring0Energy", "S1Ring", "Energy"), Some("0".to_owned()));
    assert_eq!(extract_middle_token("ab", "ab", ""), None);
    assert_eq!(
        derive_group_name_tokens(&names),
        vec![Some("0".to_owned()), Some("1".to_owned())]
    );
    let same = strings(&["A", "A"]);
    assert_eq!(
        derive_group_name_tokens(&same),
        vec![Some("A".to_owned()), Some("A".to_owned())]
    );
    assert!(derive_group_name_tokens(&Vec::new()).is_empty());
}

#[test]
fn identifiers_are_checked_and_sanitized() {
    assert!(is_valid_identifier_name("_x1"));
    assert!(!is_valid_identifier_name("1x"));
    assert!(!is_valid_identifier_name(""));
    assert_eq!(sanitize_identifier_name(" 9 lives! "), "_9_lives_");
    assert_eq!(sanitize_identifier_fragment("S1/Ring 0"), "S1_Ring_0");
    assert_eq!(
        expanded_computed_column_alias("Delta", &strings(&["A/1", "B"]), 2),
        "Delta_A_1_B"
    );
    assert_eq!(summarize_column_expression_line("   "), "Incomplete expression");
    let long = "x".repeat(90);
    let summary = summarize_column_expression_line(&long);
    assert_eq!(summary.chars().count(), 84);
    assert!(summary.ends_with('\u{2026}'));
}

#[test]
fn peak_ids_are_repaired_and_handed_out_fresh() {
    let mut ids = vec![3, 0, 3, 5];
    let next = ensure_peak_ids(&mut ids, 0);
    assert_eq!(ids, vec![3, 6, 7, 5]);
    assert_eq!(next, 8);
    let mut ids = vec![1, 2];
    let (id, next) = add_peak_id(&mut ids, 0);
    assert_eq!(id, 3);
    assert_eq!(next, 4);
    assert_eq!(ids, vec![1, 2, 3]);
    let mut ids: Vec<u64> = Vec::new();
    assert_eq!(add_peak_id(&mut ids, 10), (10, 11));
}

#[test]
fn dragging_is_seen_on_any_marker() {
    let still = VerticalMarker { is_dragging: false };
    let moving = VerticalMarker { is_dragging: true };
    let pair = BackgroundPair { start: still, end: moving };
    assert!(pair.is_dragging());
    let peak = PeakDragState {
        center_dragging: false,
        left_dragging: false,
        right_dragging: false,
        apex_dragging: false,
        fwhm_min_dragging: false,
        fwhm_max_dragging: false,
        net_height_min_dragging: false,
        net_height_max_dragging: false,
    };
    assert!(!peak.is_dragging());
    assert!(!markers_dragging(&vec![still], &vec![peak], &Vec::new()));
    assert!(markers_dragging(&vec![still], &vec![peak], &vec![pair]));
    assert_eq!(GuessSource::Manual.label(), "Manual");
}

#[test]
fn column_names_are_normalized() {
    assert_eq!(normalize_names(&strings(&[" a", "b ", "a", "  "])), strings(&["a", "b"]));
    assert_eq!(normalized_axis_columns(" x ", &strings(&["y", "x"])), strings(&["x", "y"]));
    assert_eq!(
        fill_pairs_for_merge(&strings(&["a", "b"]), &strings(&["c"])),
        vec![("a".to_owned(), "c".to_owned()), ("b".to_owned(), "c".to_owned())]
    );
}

#[test]
fn rebin_factors_are_powers_of_two_below_the_count() {
    assert_eq!(possible_rebin_factors(8), vec![1, 2, 4]);
    assert_eq!(possible_rebin_factors(12), vec![1, 2, 4]);
    assert_eq!(possible_rebin_factors(7), vec![1]);
    assert_eq!(possible_rebin_factors(1), Vec::<usize>::new());
    assert_eq!(rebin_counts(&vec![1, 2, 3, 4, 5, 6], 2), vec![3, 7, 11]);
    assert_eq!(rebin_counts(&vec![1, 2, 3], 1), vec![1, 2, 3]);
}

#[test]
fn axis_rebin_factors_come_from_the_original_binning() {
    assert_eq!(possible_axis_rebin_factors(16, None), vec![1, 2, 4, 8]);
    assert_eq!(possible_axis_rebin_factors(4, Some(16)), vec![1, 2, 4, 8]);
    assert_eq!(possible_axis_rebin_factors(6, None), vec![1, 2]);
}

#[test]
fn rows_move_and_report_their_new_place() {
    let mut items = vec!['a', 'b', 'c', 'd'];
    assert_eq!(reorder_vec_item(&mut items, 0, 3), Some(2));
    assert_eq!(items, vec!['b', 'c', 'a', 'd']);
    assert_eq!(reorder_vec_item(&mut items, 1, 2), None);
    assert_eq!(reorder_vec_item(&mut items, 5, 0), None);
    assert_eq!(reorder_vec_item(&mut items, 3, 0), Some(0));
    assert_eq!(items, vec!['d', 'b', 'c', 'a']);
}

#[test]
fn names_sort_by_code_point() {
    assert_eq!(
        sort_names(&strings(&["b", "ab", "a", "B", "é"])),
        strings(&["B", "a", "ab", "b", "é"])
    );
}

#[test]
fn source_patterns_expand_ranges_and_lists() {
    let range = expand_pattern_source_selection(" X{1-3} ");
    let columns: Vec<_> = range.iter().map(|r| r.column_name.clone()).collect();
    assert_eq!(columns, strings(&["X1", "X2", "X3"]));
    assert_eq!(range[0].name_token, Some("1".to_owned()));
    let list = expand_pattern_source_selection("Y{4,7}Z");
    let columns: Vec<_> = list.iter().map(|r| r.column_name.clone()).collect();
    assert_eq!(columns, strings(&["Y4Z", "Y7Z"]));
    let plain = expand_pattern_source_selection("plain");
    assert_eq!(plain.len(), 1);
    assert_eq!(plain[0].name_token, None);
    assert!(expand_pattern_source_selection("  ").is_empty());
    let unicode = expand_pattern_source_selection("X{\u{661},\u{662}}");
    let columns: Vec<_> = unicode.iter().map(|r| r.column_name.clone()).collect();
    assert_eq!(columns, strings(&["X\u{661}", "X\u{662}"]));
    let backwards = expand_pattern_source_selection("R{3-1}");
    assert!(backwards.is_empty());
    let first = expand_pattern_source_selection("A{1-2}B{5,6}");
    let columns: Vec<_> = first.iter().map(|r| r.column_name.clone()).collect();
    assert_eq!(columns, strings(&["A1B{5,6}", "A2B{5,6}"]));
    let resolver = build_source_group_resolver_for_columns(&Vec::new(), &strings(&["a"]));
    assert_eq!(resolver.resolve_selection("a").len(), 1);
}

#[test]
fn script_columns_list_the_detectors_after_the_spectrograph() {
    let none = columns(0);
    assert_eq!(none.len(), 50);
    assert_eq!(none[0], "AnodeFrontEnergy");
    assert_eq!(none[30], "Theta");
    assert_eq!(none[31], "DelayFrontAverageEnergy");
    assert_eq!(none[49], "ScintRightTime_ScintLeftTime");
    let two = columns(2);
    assert_eq!(two.len(), 58);
    assert_eq!(&two[..50], &none[..]);
    assert_eq!(
        two[50..].to_vec(),
        vec![
            "Cebra0Energy", "Cebra0Short", "Cebra0Time", "Cebra0Time_toScint",
            "Cebra1Energy", "Cebra1Short", "Cebra1Time", "Cebra1Time_toScint",
        ]
    );
    assert_eq!(columns(11)[50 + 40], "Cebra10Energy");
}

#[test]
fn stable_peak_ids_survive_sorting_and_deletion() {
    // Peaks as (position, id). The ids come from the library; sorting the
    // peaks by position and deleting the one closest to the cursor work on
    // floating-point positions, which the library does not hold, so they are
    // done here the way the marker code does them.
    let mut ids: Vec<u64> = Vec::new();
    let mut next = 1;
    let mut peaks: Vec<(f64, u64)> = Vec::new();
    for position in [8.0, 2.0] {
        let (id, after) = add_peak_id(&mut ids, next);
        next = after;
        peaks.push((position, id));
        peaks.sort_by(|a, b| a.0.partial_cmp(&b.0).unwrap());
    }
    let peak_ids: Vec<u64> = peaks.iter().map(|p| p.1).collect();
    assert_eq!(peak_ids.len(), 2);
    assert_ne!(peak_ids[0], peak_ids[1]);
    let retained_id = peaks[1].1;
    let closest = peaks
        .iter()
        .enumerate()
        .min_by(|a, b| (a.1 .0 - 2.0).abs().partial_cmp(&(b.1 .0 - 2.0).abs()).unwrap())
        .map(|(i, _)| i)
        .unwrap();
    peaks.remove(closest);
    let mut remaining: Vec<u64> = peaks.iter().map(|p| p.1).collect();
    ensure_peak_ids(&mut remaining, next);
    assert_eq!(remaining.len(), 1);
    assert_eq!(remaining[0], retained_id);
}

#[test]
fn peak_markers_are_named_after_their_ids() {
    assert_eq!(peak_marker_name(0), "Peak Marker 0");
    assert_eq!(peak_marker_name(42), "Peak Marker 42");
    assert_eq!(peak_marker_name(u64::MAX), format!("Peak Marker {}", u64::MAX));
    let mut ids = vec![0, 4, 4];
    ensure_peak_ids(&mut ids, 0);
    assert_eq!(peak_marker_names(&ids), vec!["Peak Marker 5", "Peak Marker 4", "Peak Marker 6"]);
}

#[test]
fn sanitized_aliases_are_valid_and_stable() {
    for alias in [" 9 lives ", "a{}b", "{}", "x--{}--y", "}{", "a b"] {
        let once = sanitize_computed_column_alias(alias);
        assert!(!once.is_empty());
        assert!(is_valid_computed_column_alias(&once));
        assert_eq!(sanitize_computed_column_alias(&once), once);
    }
    assert_eq!(sanitize_computed_column_alias(" 9 lives "), "_9_lives");
    assert_eq!(sanitize_computed_column_alias("x--{}--y"), "x_{}_y");
    assert!(sanitize_computed_column_alias("   ").is_empty());
}

#[test]
fn selections_are_checked_before_they_are_expanded() {
    assert!(selection_fits("X{1-3}"));
    assert!(selection_fits("   "));
    assert!(selection_fits("plain"));
    assert!(!selection_fits("X{1-99999999999999999999999}"));
    assert!(!selection_fits("X{\u{661}-\u{662}}"));
    assert!(checked_expand_pattern_source_selection("X{99999999999999999999999-1}").is_none());
    assert_eq!(checked_expand_pattern_source_selection("Y{2-3}").map(|v| v.len()), Some(2));
    let members = strings(&["R{0-99999999999999999999999}"]);
    let bad = ColumnGroup { alias: "Ring".to_owned(), column_names: members.clone() };
    assert!(!groups_fit_against(&vec![bad], &strings(&["a"])));
    // A group whose alias clashes with a column is skipped, and its members are never read.
    let clashing = ColumnGroup { alias: "Ring".to_owned(), column_names: members.clone() };
    assert!(groups_fit_against(&vec![clashing], &strings(&["Ring"])));
    let blank = ColumnGroup { alias: "  ".to_owned(), column_names: members };
    assert!(groups_fit_against(&vec![blank], &strings(&["a"])));
    let resolver = build_source_group_resolver_for_columns(
        &vec![ColumnGroup { alias: "G".to_owned(), column_names: strings(&["a"]) }],
        &strings(&["a"]),
    );
    assert!(resolver.selection_fits("G"));
    assert!(!resolver.selection_fits("Z{1-99999999999999999999999}"));
}
