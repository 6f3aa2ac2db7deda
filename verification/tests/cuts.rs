use spectrix_histoer::cuts::{ActiveHistogramCut, Cut, Cut1D, Cut2D, Cuts};

fn cut_2d(name: &str, x: &str, y: &str, active: bool) -> Cut {
    Cut::Cut2D(Cut2D {
        name: name.to_owned(),
        x_column: x.to_owned(),
        y_column: y.to_owned(),
        active,
    })
}

fn names(cuts: &Cuts) -> Vec<String> {
    cuts.cuts.iter().map(|cut| cut.name().to_owned()).collect()
}

fn strings(values: &[&str]) -> Vec<String> {
    values.iter().map(|value| (*value).to_owned()).collect()
}

#[test]
fn conditions_are_parsed_from_each_piece() {
    let mut cut = Cut1D::new("both", "(X1 != -1e6) & X2 >= 3.5");
    cut.parse_conditions();
    let conditions = cut.parsed_conditions.expect("parsed");
    assert_eq!(conditions.len(), 2);
    assert_eq!(conditions[0].column_name, "X1");
    assert_eq!(conditions[0].operator, "!=");
    assert_eq!(conditions[0].literal_value, "-1e6");
    assert_eq!(conditions[1].column_name, "X2");
    assert_eq!(conditions[1].operator, ">=");
    assert_eq!(conditions[1].literal_value, "3.5");
    let parsed = Cut::Cut1D(Cut1D {
        parsed_conditions: Some(conditions),
        ..Cut1D::new("both", "")
    });
    assert_eq!(parsed.required_columns(), strings(&["X1", "X2"]));
}

#[test]
fn a_blank_expression_parses_to_nothing() {
    let mut cut = Cut1D::new("blank", "   ");
    cut.parse_conditions();
    assert!(cut.parsed_conditions.is_none());
    assert!(cut.required_columns().is_empty());
}

#[test]
fn pieces_that_do_not_match_are_skipped() {
    let mut cut = Cut1D::new("some", "X1 > 2 & nonsense & Y < nan");
    cut.parse_conditions();
    let conditions = cut.parsed_conditions.expect("parsed");
    assert_eq!(conditions.len(), 2);
    assert_eq!(conditions[1].column_name, "Y");
    assert_eq!(conditions[1].literal_value, "nan");
}

#[test]
fn values_std_cannot_read_are_skipped() {
    // An Arabic-Indic digit matches the pattern's `\d` but is no f64 digit.
    let mut cut = Cut1D::new("odd", "X1 > \u{0663}");
    cut.parse_conditions();
    assert!(cut.parsed_conditions.expect("parsed").is_empty());
}

#[test]
fn cuts_are_added_once_per_name_and_removed_by_name() {
    let mut cuts = Cuts::new(Vec::new());
    cuts.add_cut(Cut::new_1d("a", "X > 1"));
    cuts.add_cut(cut_2d("b", "X", "Y", true));
    cuts.add_cut(Cut::new_1d("a", "X > 2"));
    assert_eq!(names(&cuts), strings(&["a", "b"]));
    cuts.remove_cut("a");
    assert_eq!(names(&cuts), strings(&["b"]));
    cuts.remove_cut("missing");
    assert_eq!(names(&cuts), strings(&["b"]));
    assert!(!cuts.is_empty());
    assert!(cuts.contains_name("b"));
}

#[test]
fn merging_adds_only_new_names() {
    let mut cuts = Cuts::new(vec![Cut::new_1d("a", "X > 1")]);
    let other = Cuts::new(vec![Cut::new_1d("a", "X > 5"), cut_2d("b", "X", "Y", true)]);
    cuts.merge(&other);
    assert_eq!(names(&cuts), strings(&["a", "b"]));
    match &cuts.cuts[0] {
        Cut::Cut1D(cut) => assert_eq!(cut.expression, "X > 1"),
        Cut::Cut2D(_) => panic!("expected a 1D cut"),
    }
    cuts.merge(&other);
    assert_eq!(names(&cuts), strings(&["a", "b"]));
}

#[test]
fn active_cuts_and_their_columns() {
    let cuts = Cuts::new(vec![
        cut_2d("off", "A", "B", false),
        cut_2d("on", "X", "Y", true),
    ]);
    let active = cuts.get_active_cuts();
    assert_eq!(names(&active), strings(&["on"]));
    assert_eq!(cuts.required_columns(), strings(&["A", "B", "X", "Y"]));
}

#[test]
fn the_key_sorts_the_names() {
    let cuts = Cuts::new(vec![
        cut_2d("zeta", "X", "Y", true),
        Cut::new_1d("alpha", "X > 1"),
        Cut::new_1d("Mid", "X > 1"),
    ]);
    assert_eq!(cuts.generate_key(), "Mid,alpha,zeta");
    let reordered = Cuts::new(vec![
        Cut::new_1d("Mid", "X > 1"),
        Cut::new_1d("alpha", "X > 1"),
        cut_2d("zeta", "X", "Y", true),
    ]);
    assert_eq!(reordered.generate_key(), cuts.generate_key());
    assert_eq!(Cuts::new(Vec::new()).generate_key(), "");
}

#[test]
fn enabled_active_cuts_replace_or_extend() {
    let cuts = Cuts::new(vec![Cut::new_1d("a", "X > 1"), Cut::new_1d("b", "X > 2")]);
    let active = vec![
        ActiveHistogramCut {
            histogram_name: "h".to_owned(),
            enabled: true,
            cut: Cut::new_1d("b", "X > 20"),
        },
        ActiveHistogramCut {
            histogram_name: "h".to_owned(),
            enabled: false,
            cut: Cut::new_1d("c", "X > 3"),
        },
        ActiveHistogramCut {
            histogram_name: "h".to_owned(),
            enabled: true,
            cut: cut_2d("d", "X", "Y", true),
        },
    ];
    let merged = cuts.merged_with_active_cuts(Some(&active));
    assert_eq!(names(&merged), strings(&["a", "b", "d"]));
    match &merged.cuts[1] {
        Cut::Cut1D(cut) => assert_eq!(cut.expression, "X > 20"),
        Cut::Cut2D(_) => panic!("expected a 1D cut"),
    }
    assert_eq!(names(&cuts.merged_with_active_cuts(None)), strings(&["a", "b"]));
}

#[test]
fn cuts_are_kept_only_with_their_columns() {
    let cuts = Cuts::new(vec![
        cut_2d("xy", "X", "Y", true),
        cut_2d("xz", "X", "Z", true),
        cut_2d("xy_off", "X", "Y", false),
    ]);
    let columns = strings(&["X", "Y"]);
    assert_eq!(names(&cuts.usable_with_columns(&columns)), strings(&["xy"]));
    assert_eq!(
        names(&cuts.available_with_columns(&columns)),
        strings(&["xy", "xy_off"])
    );
}

#[test]
fn histogram_cuts_follow_the_cuts_on_offer() {
    let mut histogram_cuts = Cuts::new(vec![
        Cut::new_1d("a", "X > 1"),
        Cut::new_1d("gone", "X > 2"),
    ]);
    let offered = Cuts::new(vec![Cut::new_1d("a", "X > 10"), Cut::new_1d("other", "Y > 1")]);
    histogram_cuts.sync_with(&offered);
    assert_eq!(names(&histogram_cuts), strings(&["a"]));
    match &histogram_cuts.cuts[0] {
        Cut::Cut1D(cut) => assert_eq!(cut.expression, "X > 10"),
        Cut::Cut2D(_) => panic!("expected a 1D cut"),
    }
}

#[test]
fn parsing_a_collection_leaves_2d_cuts_alone() {
    let mut cuts = Cuts::new(vec![Cut::new_1d("a", "X > 1"), cut_2d("b", "X", "Y", true)]);
    cuts.parse_conditions();
    assert_eq!(cuts.required_columns(), strings(&["X", "X", "Y"]));
}

#[test]
fn cuts_know_their_file_names() {
    assert_eq!(Cut1D::new(" gate: A ", "X > 1").sanitized_file_name(), "gate_A");
    let cut = Cut2D { name: String::new(), x_column: "X1".to_owned(), y_column: "X2".to_owned(), active: true };
    assert_eq!(cut.sanitized_file_name(), "X2_v_X1_Cut");
    assert_eq!(Cut2D::default_name("X1", "X2"), "X2 v X1 Cut");
}
