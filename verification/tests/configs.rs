use spectrix_histoer::builder::{
    expression_from_term_bodies, parse_simple_computed_column_builder, ComputedColumnBuilder,
};
use spectrix_histoer::computed::{
    collect_expanded_computed_column_aliases, computed_column_dependencies,
    expand_grouped_computed_columns,
};
use spectrix_histoer::configs::{
    available_column_group_aliases_for_available_columns, available_variable_names,
    merge_adds_hist1d, merge_adds_hist2d, merge_column_groups, merge_computed_columns,
    merge_variables, prepend_computed_columns, sorted_unique_names, valid_variables,
};
use spectrix_histoer::column_plan::computed_columns_to_add;
use spectrix_histoer::cuts::{Cut, Cuts};
use spectrix_histoer::expansion::{expand_hist1d, expand_hist2d};
use spectrix_histoer::hist_configs::{
    expand_configs, merge_matches, valid_histogram_configs, Config, Configs, Hist1DConfig, Hist2DConfig,
};
use spectrix_histoer::expr_parser::{
    computed_column_expression, expr_from_string, parse_tokens, BinaryOp, ComputedColumnError, ExprTree,
};
use spectrix_histoer::expressions::{
    ComputedColumnTermKind, ComputedColumnTermSign, ComputedColumnValueKind,
};
use spectrix_histoer::identifiers::{is_valid_computed_column_alias, sanitize_computed_column_alias};
use spectrix_histoer::names::ColumnGroup;
use spectrix_histoer::reorder::{reordered_selected_index, selected_index_after_removal};
use spectrix_histoer::sources::build_source_group_resolver_for_columns;

fn strings(values: &[&str]) -> Vec<String> {
    values.iter().map(|value| (*value).to_owned()).collect()
}

fn ring_energy_group() -> Vec<ColumnGroup> {
    vec![ColumnGroup {
        alias: "S1RingEnergy".to_owned(),
        column_names: strings(&["S1Ring0Energy", "S1Ring1Energy"]),
    }]
}

fn ring_time_group() -> ColumnGroup {
    ColumnGroup {
        alias: "S1RingTime".to_owned(),
        column_names: strings(&["S1Ring0Time", "S1Ring1Time"]),
    }
}

#[test]
fn computed_column_builder_supports_quadratic_forms() {
    let builder = parse_simple_computed_column_builder(
        "a*column**2 + m*column + c",
        &strings(&["column"]),
        &strings(&["a", "m", "c"]),
    )
    .expect("quadratic expression should parse");

    assert_eq!(builder.terms.len(), 3);

    assert_eq!(builder.terms[0].kind, ComputedColumnTermKind::Column);
    assert_eq!(
        builder.terms[0].coefficient_kind,
        ComputedColumnValueKind::Variable
    );
    assert_eq!(builder.terms[0].coefficient_column, "a");
    assert_eq!(builder.terms[0].column, "column");
    let power: f64 = builder.terms[0].power.parse().expect("power is a number");
    assert!((power - 2.0).abs() < f64::EPSILON);

    assert_eq!(builder.terms[1].kind, ComputedColumnTermKind::Column);
    assert_eq!(
        builder.terms[1].coefficient_kind,
        ComputedColumnValueKind::Variable
    );
    assert_eq!(builder.terms[1].coefficient_column, "m");
    assert_eq!(builder.terms[1].column, "column");
    let power: f64 = builder.terms[1].power.parse().expect("power is a number");
    assert!((power - 1.0).abs() < f64::EPSILON);

    assert_eq!(builder.terms[2].kind, ComputedColumnTermKind::Constant);
    assert_eq!(
        builder.terms[2].coefficient_kind,
        ComputedColumnValueKind::Variable
    );
    assert_eq!(builder.terms[2].coefficient_column, "c");
}

#[test]
fn computed_column_builder_writes_multi_term_expression() {
    let bodies = vec![
        (ComputedColumnTermSign::Add, "a * column ** 2".to_owned()),
        (ComputedColumnTermSign::Add, "m * column".to_owned()),
        (ComputedColumnTermSign::Add, "c".to_owned()),
    ];
    assert_eq!(
        expression_from_term_bodies(&bodies),
        "(a * column ** 2) + (m * column) + (c)"
    );
}

#[test]
fn computed_column_builder_supports_fractional_powers() {
    let builder = parse_simple_computed_column_builder(
        "a*column**0.5 + c",
        &strings(&["column"]),
        &strings(&["a", "c"]),
    )
    .expect("fractional-power expression should parse");

    assert_eq!(builder.terms.len(), 2);
    assert_eq!(builder.terms[0].kind, ComputedColumnTermKind::Column);
    assert_eq!(
        builder.terms[0].coefficient_kind,
        ComputedColumnValueKind::Variable
    );
    assert_eq!(builder.terms[0].coefficient_column, "a");
    assert_eq!(builder.terms[0].column, "column");
    let power: f64 = builder.terms[0].power.parse().expect("power is a number");
    assert!((power - 0.5).abs() < f64::EPSILON);

    let bodies = vec![
        (
            builder.terms[0].sign,
            format!(
                "{} * {} ** {}",
                builder.terms[0].coefficient_column, builder.terms[0].column, builder.terms[0].power
            ),
        ),
        (builder.terms[1].sign, builder.terms[1].coefficient_column.clone()),
    ];
    assert_eq!(expression_from_term_bodies(&bodies), "(a * column ** 0.5) + (c)");
}

#[test]
fn computed_column_aliases_are_sanitized_to_identifiers() {
    assert_eq!(
        sanitize_computed_column_alias(" 12 bad alias!? "),
        "_12_bad_alias_"
    );
    assert!(is_valid_computed_column_alias("_12_bad_alias_"));
    assert_eq!(
        sanitize_computed_column_alias(" RF Minus Ring {} "),
        "RF_Minus_Ring_{}"
    );
    assert!(is_valid_computed_column_alias("RFMinusRing{}"));
    assert!(!is_valid_computed_column_alias("bad-alias"));
}

#[test]
fn reorder_selected_index_tracks_dragged_row() {
    assert_eq!(reordered_selected_index(Some(2), 2, 0), Some(0));
    assert_eq!(reordered_selected_index(Some(1), 1, 3), Some(3));
}

#[test]
fn reorder_selected_index_tracks_rows_around_dragged_row() {
    assert_eq!(reordered_selected_index(Some(2), 0, 2), Some(1));
    assert_eq!(reordered_selected_index(Some(1), 3, 0), Some(2));
}

type Shape1D = ((f64, f64), usize);
type Shape2D = (((f64, f64), (f64, f64)), (usize, usize));

fn expanded_1d(configs: &Vec<Config<Shape1D, Shape2D>>, columns: &[&str]) -> Vec<(String, String)> {
    let resolver = build_source_group_resolver_for_columns(&ring_energy_group(), &strings(columns));
    expand_configs(configs, &resolver)
        .iter()
        .filter_map(|config| match config {
            Config::Hist1D(hist) => Some((hist.name.clone(), hist.column_name.clone())),
            _ => None,
        })
        .collect()
}

#[test]
fn column_group_alias_expands_into_many_1d_histograms() {
    let configs: Vec<Config<Shape1D, Shape2D>> = vec![Config::Hist1D(Hist1DConfig {
        name: "S1/Ring {}".to_owned(),
        column_name: "S1RingEnergy".to_owned(),
        additional_column_names: Vec::new(),
        shape: ((0.0, 4096.0), 512),
        cuts: Cuts::new(Vec::new()),
        calculate: true,
        enabled: true,
    })];

    assert_eq!(
        expanded_1d(&configs, &["S1Ring0Energy", "S1Ring1Energy"]),
        vec![
            ("S1/Ring 0".to_owned(), "S1Ring0Energy".to_owned()),
            ("S1/Ring 1".to_owned(), "S1Ring1Energy".to_owned()),
        ]
    );
}

#[test]
fn column_group_alias_fills_one_1d_histogram_from_many_columns() {
    let configs: Vec<Config<Shape1D, Shape2D>> = vec![Config::Hist1D(Hist1DConfig {
        name: "S1/Combined".to_owned(),
        column_name: "S1RingEnergy".to_owned(),
        additional_column_names: Vec::new(),
        shape: ((0.0, 4096.0), 512),
        cuts: Cuts::new(Vec::new()),
        calculate: true,
        enabled: true,
    })];

    assert_eq!(
        expanded_1d(&configs, &["S1Ring0Energy", "S1Ring1Energy"]),
        vec![
            ("S1/Combined".to_owned(), "S1Ring0Energy".to_owned()),
            ("S1/Combined".to_owned(), "S1Ring1Energy".to_owned()),
        ]
    );
}

#[test]
fn column_group_alias_expands_2d_histograms_from_grouped_x_columns() {
    let shape: Shape2D = (((0.0, 4096.0), (-1000.0, 1000.0)), (512, 512));
    let configs: Vec<Config<Shape1D, Shape2D>> = vec![Config::Hist2D(Hist2DConfig {
        name: "S1/ToF {}".to_owned(),
        x_column_name: "S1RingEnergy".to_owned(),
        y_column_name: "ToF".to_owned(),
        additional_x_column_names: Vec::new(),
        additional_y_column_names: Vec::new(),
        shape,
        cuts: Cuts::new(Vec::new()),
        calculate: true,
        enabled: true,
    })];
    let resolver = build_source_group_resolver_for_columns(
        &ring_energy_group(),
        &strings(&["S1Ring0Energy", "S1Ring1Energy", "ToF"]),
    );

    let expanded_histograms = expand_configs(&configs, &resolver)
        .iter()
        .filter_map(|config| match config {
            Config::Hist2D(hist) => Some((
                hist.name.clone(),
                hist.x_column_name.clone(),
                hist.y_column_name.clone(),
            )),
            _ => None,
        })
        .collect::<Vec<_>>();

    assert_eq!(
        expanded_histograms,
        vec![
            (
                "S1/ToF 0".to_owned(),
                "S1Ring0Energy".to_owned(),
                "ToF".to_owned()
            ),
            (
                "S1/ToF 1".to_owned(),
                "S1Ring1Energy".to_owned(),
                "ToF".to_owned()
            ),
        ]
    );
}

#[test]
fn expansion_functions_give_names_and_columns() {
    let resolver = build_source_group_resolver_for_columns(
        &ring_energy_group(),
        &strings(&["S1Ring0Energy", "S1Ring1Energy", "ToF"]),
    );
    assert_eq!(
        expand_hist1d("E{}", "S1RingEnergy", &Vec::new(), true, &resolver),
        vec![
            ("E0".to_owned(), "S1Ring0Energy".to_owned()),
            ("E1".to_owned(), "S1Ring1Energy".to_owned()),
        ]
    );
    assert!(expand_hist1d("E", "S1RingEnergy", &Vec::new(), false, &resolver).is_empty());
    assert_eq!(
        expand_hist2d("T", "ToF", &Vec::new(), "ToF", &Vec::new(), true, &resolver),
        Vec::<(String, String, String)>::new()
    );
}

#[test]
fn only_computed_histograms_with_their_columns_are_kept() {
    let mut keep = Hist1DConfig::new("X1", "X1", ((0.0, 10.0), 10));
    keep.cuts = Cuts::new(vec![
        Cut::new_1d("good", "X1 > 1"),
        Cut::new_1d("missing", "Z > 1"),
    ]);
    let mut not_computed = Hist1DConfig::new("X2", "X2", ((0.0, 10.0), 10));
    not_computed.calculate = false;
    let absent = Hist1DConfig::new("Q", "Q", ((0.0, 10.0), 10));
    let pair = Hist2DConfig::new("X2 v X1", "X1", "X2", (((0.0, 1.0), (0.0, 1.0)), (4, 4)));
    let configs = vec![
        Config::Hist1D(keep),
        Config::Hist1D(not_computed),
        Config::Hist1D(absent),
        Config::Hist2D(pair),
    ];
    let resolver = build_source_group_resolver_for_columns(&Vec::new(), &strings(&["X1", "X2"]));
    let valid = valid_histogram_configs(&configs, &resolver, &strings(&["X1", "X2"]));
    assert_eq!(valid.len(), 2);
    match &valid[0] {
        Config::Hist1D(h) => {
            assert_eq!(h.name, "X1");
            assert_eq!(h.cuts.cuts.len(), 1);
            assert_eq!(h.cuts.cuts[0].name(), "good");
            assert_eq!(h.cuts.required_columns(), strings(&["X1"]));
            assert_eq!(h.shape, ((0.0, 10.0), 10));
        }
        Config::Hist2D(_) => panic!("expected a 1D histogram"),
    }
    assert!(matches!(&valid[1], Config::Hist2D(h) if h.name == "X2 v X1"));
}

#[test]
fn fill_columns_are_trimmed_and_split() {
    let mut config = Hist1DConfig::new("h", "a", ((0.0, 1.0), 1));
    config.set_fill_columns(strings(&[" b ", "", "c", "b"]));
    assert_eq!(config.column_name, "b");
    assert_eq!(config.additional_column_names, strings(&["c", "b"]));
    assert_eq!(config.fill_columns(), strings(&["b", "c"]));
    config.set_fill_columns(strings(&["  "]));
    assert_eq!(config.column_name, "");
    assert!(config.additional_column_names.is_empty());
    let mut pair = Hist2DConfig::new("p", "x", "y", 0u8);
    pair.set_x_fill_columns(strings(&["x", "y"]));
    pair.set_y_fill_columns(strings(&["x", "z"]));
    assert_eq!(pair.x_fill_columns(), strings(&["x", "y"]));
    assert_eq!(pair.y_fill_columns(), strings(&["x", "z"]));
    assert_eq!(
        pair.fill_pairs_for_merge(),
        vec![
            ("x".to_owned(), "z".to_owned()),
            ("y".to_owned(), "x".to_owned()),
            ("y".to_owned(), "z".to_owned()),
        ]
    );
}

#[test]
fn grouped_computed_column_expression_expands_to_many_columns() {
    let resolver = build_source_group_resolver_for_columns(
        &vec![ring_time_group()],
        &strings(&["RF", "S1Ring0Time", "S1Ring1Time"]),
    );

    let expanded_columns =
        expand_grouped_computed_columns("RF - S1RingTime", "RFMinusS1RingTime", &Vec::new(), &resolver);

    assert_eq!(
        expanded_columns,
        vec![
            (
                "RF - S1Ring0Time".to_owned(),
                "RFMinusS1RingTime_S1Ring0Time".to_owned(),
            ),
            (
                "RF - S1Ring1Time".to_owned(),
                "RFMinusS1RingTime_S1Ring1Time".to_owned(),
            ),
        ]
    );
}

#[test]
fn grouped_computed_column_alias_template_uses_group_token() {
    let resolver = build_source_group_resolver_for_columns(
        &vec![ring_time_group()],
        &strings(&["RF", "S1Ring0Time", "S1Ring1Time"]),
    );

    let expanded_columns =
        expand_grouped_computed_columns("RF - S1RingTime", "RFMinusRing{}", &Vec::new(), &resolver);

    assert_eq!(
        expanded_columns,
        vec![
            (
                "RF - S1Ring0Time".to_owned(),
                "RFMinusRingS1Ring0Time".to_owned(),
            ),
            (
                "RF - S1Ring1Time".to_owned(),
                "RFMinusRingS1Ring1Time".to_owned(),
            ),
        ]
    );
}

#[test]
fn grouped_computed_columns_expand_across_all_group_combinations() {
    let resolver = build_source_group_resolver_for_columns(
        &vec![
            ring_time_group(),
            ColumnGroup {
                alias: "S1RingEnergy".to_owned(),
                column_names: strings(&["S1Ring0Energy", "S1Ring1Energy"]),
            },
        ],
        &strings(&["S1Ring0Time", "S1Ring1Time", "S1Ring0Energy", "S1Ring1Energy"]),
    );

    let expanded_columns = expand_grouped_computed_columns(
        "S1RingTime - S1RingEnergy",
        "S1RingDelta",
        &Vec::new(),
        &resolver,
    );

    assert_eq!(
        expanded_columns,
        vec![
            (
                "S1Ring0Time - S1Ring0Energy".to_owned(),
                "S1RingDelta_S1Ring0Time_S1Ring0Energy".to_owned(),
            ),
            (
                "S1Ring0Time - S1Ring1Energy".to_owned(),
                "S1RingDelta_S1Ring0Time_S1Ring1Energy".to_owned(),
            ),
            (
                "S1Ring1Time - S1Ring0Energy".to_owned(),
                "S1RingDelta_S1Ring1Time_S1Ring0Energy".to_owned(),
            ),
            (
                "S1Ring1Time - S1Ring1Energy".to_owned(),
                "S1RingDelta_S1Ring1Time_S1Ring1Energy".to_owned(),
            ),
        ]
    );
}

#[test]
fn grouped_computed_columns_appear_as_expanded_outputs_in_available_columns() {
    let (_, aliases) = collect_expanded_computed_column_aliases(
        &strings(&["RF", "S1Ring0Time", "S1Ring1Time"]),
        &vec![("RF - S1RingTime".to_owned(), "RFMinusS1RingTime".to_owned())],
        &vec![ring_time_group()],
        &Vec::new(),
    );
    assert!(aliases.contains(&"RFMinusS1RingTime_S1Ring0Time".to_owned()));
    assert!(aliases.contains(&"RFMinusS1RingTime_S1Ring1Time".to_owned()));
}

#[test]
fn expr_parser_replaces_variables_with_literals() {
    let expr = expr_from_string(
        "(a * column ** 2) + (m * column) + (c)",
        &strings(&["a", "m", "c"]),
    );

    assert!(expr.is_ok());
}

#[test]
fn expr_parser_accepts_fractional_powers() {
    let expr = expr_from_string("(a * column ** 0.5) + (c)", &strings(&["a", "c"]));

    assert!(expr.is_ok());
}

fn column(name: &str) -> ExprTree {
    ExprTree::Column(name.to_owned())
}

fn describe(tree: &ExprTree) -> String {
    match tree {
        ExprTree::Literal { negated, text } => {
            if *negated {
                format!("-{text}")
            } else {
                text.clone()
            }
        }
        ExprTree::Variable(name) => format!("${name}"),
        ExprTree::Column(name) => name.clone(),
        ExprTree::Binary(op, left, right) => {
            let symbol = match op {
                BinaryOp::Add => "+",
                BinaryOp::Subtract => "-",
                BinaryOp::Multiply => "*",
                BinaryOp::Divide => "/",
                BinaryOp::Power => "**",
            };
            format!("({} {} {})", describe(left), symbol, describe(right))
        }
    }
}

#[test]
fn expression_trees_follow_operator_precedence() {
    let tree = expr_from_string("a + b * c ** 2", &Vec::new()).expect("reads");
    assert_eq!(describe(&tree), "(a + (b * (c ** 2)))");
    let tree = expr_from_string("a - b - c", &Vec::new()).expect("reads");
    assert_eq!(describe(&tree), "((a - b) - c)");
    let tree = expr_from_string("a ** b ** c", &Vec::new()).expect("reads");
    assert_eq!(describe(&tree), "(a ** (b ** c))");
    let tree = expr_from_string("(a + b) * k", &strings(&["k"])).expect("reads");
    assert_eq!(describe(&tree), "((a + b) * $k)");
    assert_eq!(describe(&column("x")), "x");
}

#[test]
fn numbers_and_special_literals_become_literals() {
    let tree = expr_from_string("x * 2.5", &Vec::new()).expect("reads");
    assert_eq!(describe(&tree), "(x * 2.5)");
    let tree = expr_from_string("inf", &Vec::new()).expect("reads");
    assert_eq!(describe(&tree), "inf");
}

#[test]
fn a_sign_run_is_folded_into_the_number_that_follows() {
    // The number is pushed with the folded sign and then once more on its own,
    // and the operator is dropped, so two operands are left over.
    assert!(expr_from_string("x - - 2", &Vec::new()).is_err());
    assert!(expr_from_string("x y", &Vec::new()).is_err());
    assert!(expr_from_string("", &Vec::new()).is_err());
}

#[test]
fn a_computed_column_needs_a_valid_alias_and_expression() {
    assert!(matches!(
        computed_column_expression("a + b", "bad-alias", &Vec::new()),
        Err(ComputedColumnError::InvalidAlias)
    ));
    assert!(matches!(
        computed_column_expression("a b", "good", &Vec::new()),
        Err(ComputedColumnError::InvalidExpression)
    ));
    let tree = computed_column_expression("a * m", "scaled", &strings(&["m"])).expect("valid");
    assert_eq!(describe(&tree), "(a * $m)");
}

#[test]
fn dependencies_skip_variables_literals_and_repeats() {
    let deps = computed_column_dependencies("a * x + b * x + inf - 2", &strings(&["a", "b"]));
    assert_eq!(deps, strings(&["x"]));
}

#[test]
fn a_blank_expression_gives_one_default_term() {
    let builder = parse_simple_computed_column_builder("   ", &Vec::new(), &Vec::new())
        .expect("blank expressions parse");
    let default = ComputedColumnBuilder::default();
    assert_eq!(builder.terms.len(), 1);
    assert_eq!(builder.terms[0].column, default.terms[0].column);
    assert_eq!(builder.terms[0].power, "1");
    assert_eq!(builder.terms[0].coefficient_literal, "1");
}

#[test]
fn literal_coefficients_and_constants_are_read() {
    let builder = parse_simple_computed_column_builder("2.5*x - 4", &strings(&["x"]), &Vec::new())
        .expect("reads");
    assert_eq!(builder.terms.len(), 2);
    assert_eq!(builder.terms[0].coefficient_kind, ComputedColumnValueKind::Literal);
    assert_eq!(builder.terms[0].coefficient_literal, "2.5");
    assert_eq!(builder.terms[0].column, "x");
    assert_eq!(builder.terms[1].sign, ComputedColumnTermSign::Subtract);
    assert_eq!(builder.terms[1].kind, ComputedColumnTermKind::Constant);
    assert_eq!(builder.terms[1].coefficient_literal, "4");
    assert!(parse_simple_computed_column_builder("x / y", &Vec::new(), &Vec::new()).is_none());
}

#[test]
fn a_subtracted_first_term_is_written_after_zero() {
    let bodies = vec![(ComputedColumnTermSign::Subtract, "x".to_owned())];
    assert_eq!(expression_from_term_bodies(&bodies), "0 - (x)");
    assert_eq!(expression_from_term_bodies(&Vec::new()), "");
}

#[test]
fn merging_columns_keeps_the_first_definition_of_an_alias() {
    let mut columns = vec![("a + b".to_owned(), "sum".to_owned())];
    merge_computed_columns(
        &mut columns,
        vec![
            ("a - b".to_owned(), "sum".to_owned()),
            ("a * b".to_owned(), "product".to_owned()),
        ],
    );
    assert_eq!(
        columns,
        vec![
            ("a + b".to_owned(), "sum".to_owned()),
            ("a * b".to_owned(), "product".to_owned()),
        ]
    );
}

#[test]
fn merging_variables_keeps_the_first_value_of_a_name() {
    let mut variables = vec![("a".to_owned(), 1.0)];
    merge_variables(&mut variables, vec![("a".to_owned(), 2.0), ("b".to_owned(), 3.0)]);
    assert_eq!(variables, vec![("a".to_owned(), 1.0), ("b".to_owned(), 3.0)]);
}

#[test]
fn merging_groups_normalizes_new_members() {
    let mut groups = ring_energy_group();
    let other = vec![
        ColumnGroup {
            alias: "S1RingEnergy".to_owned(),
            column_names: strings(&["X"]),
        },
        ColumnGroup {
            alias: "Times".to_owned(),
            column_names: strings(&[" T0 ", "T0", " ", "T1"]),
        },
    ];
    merge_column_groups(&mut groups, &other);
    assert_eq!(groups.len(), 2);
    assert_eq!(groups[0].column_names, strings(&["S1Ring0Energy", "S1Ring1Energy"]));
    assert_eq!(groups[1].alias, "Times");
    assert_eq!(groups[1].column_names, strings(&["T0", "T1"]));
}

#[test]
fn calibration_columns_are_put_first_and_replace_earlier_ones() {
    let mut columns = vec![
        ("old".to_owned(), "energy".to_owned()),
        ("x + y".to_owned(), "sum".to_owned()),
    ];
    prepend_computed_columns(
        &mut columns,
        vec![
            ("new".to_owned(), "energy".to_owned()),
            ("ignored".to_owned(), "  ".to_owned()),
        ],
    );
    assert_eq!(
        columns,
        vec![
            ("new".to_owned(), "energy".to_owned()),
            ("x + y".to_owned(), "sum".to_owned()),
        ]
    );
    let mut unchanged = vec![("x".to_owned(), "y".to_owned())];
    prepend_computed_columns(&mut unchanged, Vec::new());
    assert_eq!(unchanged, vec![("x".to_owned(), "y".to_owned())]);
}

#[test]
fn only_usable_variables_are_kept() {
    let variables = vec![
        ("a".to_owned(), 1.0),
        ("1bad".to_owned(), 2.0),
        ("X1".to_owned(), 3.0),
        ("future".to_owned(), 4.0),
        ("a".to_owned(), 5.0),
        ("b".to_owned(), 6.0),
    ];
    let kept = valid_variables(&variables, &strings(&["X1"]), &strings(&["future"]));
    assert_eq!(kept, vec![("a".to_owned(), 1.0), ("b".to_owned(), 6.0)]);
}

#[test]
fn used_columns_are_sorted_and_unique() {
    let names = strings(&["b", "a", "b", "C", "a"]);
    assert_eq!(sorted_unique_names(&names), strings(&["C", "a", "b"]));
}

#[test]
fn merged_histograms_are_added_only_without_conflict() {
    let existing = strings(&["X1", "X2"]);
    assert!(merge_adds_hist1d(None, &strings(&["X1"]), false));
    assert!(merge_adds_hist1d(Some(&existing), &strings(&["X3"]), true));
    assert!(!merge_adds_hist1d(Some(&existing), &strings(&["X3", "X2"]), true));
    assert!(!merge_adds_hist1d(Some(&existing), &strings(&["X3"]), false));
    let pairs = vec![("X".to_owned(), "Y".to_owned())];
    assert!(merge_adds_hist2d(Some(&pairs), &vec![("Y".to_owned(), "X".to_owned())], true));
    assert!(!merge_adds_hist2d(Some(&pairs), &pairs, true));
    assert!(merge_adds_hist2d(None, &pairs, false));
}

#[test]
fn offered_variables_are_non_blank_sorted_and_unique() {
    assert_eq!(
        available_variable_names(&strings(&["m", " ", "a", "m", ""])),
        strings(&["a", "m"])
    );
}

#[test]
fn offered_group_aliases_skip_unusable_groups() {
    let groups = vec![
        ColumnGroup { alias: " Ring ".to_owned(), column_names: strings(&["R0"]) },
        ColumnGroup { alias: "Ring".to_owned(), column_names: strings(&["R1"]) },
        ColumnGroup { alias: "X1".to_owned(), column_names: strings(&["A"]) },
        ColumnGroup { alias: "1bad".to_owned(), column_names: strings(&["A"]) },
        ColumnGroup { alias: "Empty".to_owned(), column_names: strings(&[" "]) },
        ColumnGroup { alias: "Other".to_owned(), column_names: strings(&["B"]) },
    ];
    assert_eq!(
        available_column_group_aliases_for_available_columns(&groups, &strings(&["X1"])),
        strings(&["Ring", "Other"])
    );
}

fn sample_configs() -> Configs<Shape1D, Shape2D, f64> {
    let mut energy = Hist1DConfig::new("E{}", "S1RingEnergy", ((0.0, 10.0), 10));
    energy.cuts = Cuts::new(vec![Cut::new_1d("gate", "T > 1")]);
    energy.cuts.parse_conditions();
    let pair = Hist2DConfig::new("B v A", "A", "B", (((0.0, 1.0), (0.0, 1.0)), (2, 2)));
    Configs {
        configs: vec![Config::Hist1D(energy), Config::Hist2D(pair)],
        columns: vec![("A + B".to_owned(), "Sum".to_owned())],
        variables: vec![("k".to_owned(), 2.0)],
        column_groups: ring_energy_group(),
        cuts: Cuts::new(vec![Cut::new_1d("gate", "T > 5")]),
    }
}

#[test]
fn configurations_list_the_columns_they_read() {
    let configs = sample_configs();
    assert!(!configs.is_empty());
    assert_eq!(configs.get_used_columns(), strings(&["A", "B", "S1RingEnergy", "T"]));
}

#[test]
fn configurations_are_put_under_a_prefix_and_expanded() {
    let mut configs = sample_configs();
    configs.set_prefix("run");
    let names: Vec<String> = configs
        .configs
        .iter()
        .map(|c| match c {
            Config::Hist1D(h) => h.name.clone(),
            Config::Hist2D(h) => h.name.clone(),
        })
        .collect();
    assert_eq!(names, strings(&["run/E{}", "run/B v A"]));
    let expanded = configs.expand(&strings(&["S1Ring0Energy", "S1Ring1Energy", "A", "B"]));
    assert_eq!(expanded.len(), 3);
    assert!(matches!(&expanded[1], Config::Hist1D(h) if h.name == "run/E1" && h.column_name == "S1Ring1Energy"));
}

#[test]
fn histogram_cuts_follow_the_general_cuts() {
    let mut configs = sample_configs();
    let offered = Cuts::new(vec![Cut::new_1d("gate", "T > 7")]);
    configs.sync_histogram_cuts(&offered);
    match &configs.configs[0] {
        Config::Hist1D(h) => match &h.cuts.cuts[0] {
            Cut::Cut1D(c) => assert_eq!(c.expression, "T > 7"),
            Cut::Cut2D(_) => panic!("expected a 1D cut"),
        },
        Config::Hist2D(_) => panic!("expected a 1D histogram"),
    }
}

#[test]
fn definitions_merge_without_overwriting() {
    let mut configs = sample_configs();
    let mut other = sample_configs();
    other.columns.push(("A - B".to_owned(), "Diff".to_owned()));
    other.variables.push(("m".to_owned(), 3.0));
    other.cuts = Cuts::new(vec![Cut::new_1d("gate", "T > 9"), Cut::new_1d("veto", "V < 1")]);
    configs.merge_definitions(other);
    assert_eq!(configs.columns.len(), 2);
    assert_eq!(configs.variables, vec![("k".to_owned(), 2.0), ("m".to_owned(), 3.0)]);
    assert_eq!(configs.column_groups.len(), 1);
    assert_eq!(configs.cuts.generate_key(), "gate,veto");
    assert_eq!(configs.configs.len(), 2);
    configs.prepend_computed_columns(vec![("cal".to_owned(), "Sum".to_owned())]);
    assert_eq!(configs.columns[0], ("cal".to_owned(), "Sum".to_owned()));
    assert_eq!(configs.columns.len(), 2);
}

#[test]
fn histograms_are_added_with_their_cuts() {
    let mut configs = sample_configs();
    let cuts = Some(Cuts::new(vec![Cut::new_1d("g", "X > 0")]));
    configs.hist1d("X", "X", ((0.0, 1.0), 2), &cuts);
    configs.hist2d("Y v X", "X", "Y", (((0.0, 1.0), (0.0, 1.0)), (2, 2)), &None);
    assert_eq!(configs.configs.len(), 4);
    assert!(matches!(&configs.configs[2], Config::Hist1D(h) if h.cuts.cuts.len() == 1 && h.calculate));
    assert!(matches!(&configs.configs[3], Config::Hist2D(h) if h.cuts.is_empty() && h.enabled));
}

#[test]
fn computed_columns_are_added_in_order_when_they_can_be() {
    let mut names = strings(&["S1Ring0Energy", "S1Ring1Energy", "Other"]);
    let computed = vec![
        ("S1RingEnergy * 2".to_owned(), "Double".to_owned()),
        ("Missing + 1".to_owned(), "Bad".to_owned()),
        ("Other + 1".to_owned(), "  ".to_owned()),
        ("Other * k".to_owned(), "Other".to_owned()),
        ("Double_S1Ring0Energy + Other".to_owned(), "Sum".to_owned()),
        ("Other +".to_owned(), "Trailing".to_owned()),
        ("Other Other".to_owned(), "Broken".to_owned()),
        ("Other".to_owned(), "1bad".to_owned()),
    ];
    let added = computed_columns_to_add(&mut names, &computed, &ring_energy_group(), &strings(&["k"]));
    let described: Vec<(String, String)> =
        added.iter().map(|(tree, alias)| (describe(tree), alias.clone())).collect();
    assert_eq!(
        described,
        vec![
            ("(S1Ring0Energy * 2)".to_owned(), "Double_S1Ring0Energy".to_owned()),
            ("(S1Ring1Energy * 2)".to_owned(), "Double_S1Ring1Energy".to_owned()),
            ("(Other * $k)".to_owned(), "Other".to_owned()),
            ("(Double_S1Ring0Energy + Other)".to_owned(), "Sum".to_owned()),
            ("Other".to_owned(), "Trailing".to_owned()),
        ]
    );
    assert_eq!(
        names,
        strings(&[
            "S1Ring0Energy",
            "S1Ring1Energy",
            "Other",
            "Double_S1Ring0Energy",
            "Double_S1Ring1Energy",
            "Sum",
            "Trailing",
        ])
    );
}

#[test]
fn configurations_are_checked_against_the_columns_of_the_data() {
    let mut configs = sample_configs();
    configs.configs.push(Config::Hist1D(Hist1DConfig::new("S", "Sum", ((0.0, 1.0), 1))));
    configs.configs.push(Config::Hist1D(Hist1DConfig::new("M", "Missing", ((0.0, 1.0), 1))));
    configs.variables = vec![
        ("k".to_owned(), 2.0),
        ("A".to_owned(), 1.0),
        ("Sum".to_owned(), 3.0),
        ("k".to_owned(), 5.0),
        ("1x".to_owned(), 1.0),
    ];
    configs.cuts.add_cut(Cut::new_1d("other", "Z > 1"));
    let data_columns = strings(&["S1Ring0Energy", "S1Ring1Energy", "A", "B", "T"]);
    let (checked, added) = configs.valid_configs(&data_columns);
    let names: Vec<String> = checked
        .configs
        .iter()
        .map(|c| match c {
            Config::Hist1D(h) => h.name.clone(),
            Config::Hist2D(h) => h.name.clone(),
        })
        .collect();
    assert_eq!(names, strings(&["E0", "E1", "B v A", "S"]));
    assert_eq!(checked.variables, vec![("k".to_owned(), 2.0)]);
    let described: Vec<(String, String)> =
        added.iter().map(|(tree, alias)| (describe(tree), alias.clone())).collect();
    assert_eq!(described, vec![("(A + B)".to_owned(), "Sum".to_owned())]);
    assert_eq!(checked.cuts.names(), strings(&["gate"]));
    assert_eq!(checked.cuts.required_columns(), strings(&["T"]));
    assert_eq!(checked.columns, configs.columns);
    assert_eq!(configs.cuts.required_columns(), strings(&["T", "Z"]));
}

#[test]
fn a_run_of_signs_folds_into_the_number_that_follows() {
    let tree = parse_tokens(&strings(&["-", "-", "3"]), &Vec::new()).expect("reads");
    assert_eq!(describe(&tree), "3");
    let tree = parse_tokens(&strings(&["+", "-", "2.5"]), &Vec::new()).expect("reads");
    assert_eq!(describe(&tree), "-2.5");
    let tree = parse_tokens(&strings(&["(", "-", "-", "4", ")"]), &Vec::new()).expect("reads");
    assert_eq!(describe(&tree), "4");
}

#[test]
fn merged_configurations_join_unless_they_conflict() {
    let mut configs = sample_configs();
    let mut other = Vec::new();
    // Same name, a new column and the same shape: added.
    other.push(Config::Hist1D(Hist1DConfig::new("E{}", "Other", ((0.0, 10.0), 10))));
    // Same name and the same column: refused.
    other.push(Config::Hist1D(Hist1DConfig::new("E{}", "S1RingEnergy", ((0.0, 10.0), 10))));
    // A new name: added, and later ones of that name are compared with it.
    other.push(Config::Hist1D(Hist1DConfig::new("New", "N", ((0.0, 1.0), 1))));
    other.push(Config::Hist1D(Hist1DConfig::new("New", "M", ((0.0, 2.0), 1))));
    // A 2D histogram of a known name filling the same pair: refused.
    other.push(Config::Hist2D(Hist2DConfig::new("B v A", "A", "B", (((0.0, 1.0), (0.0, 1.0)), (2, 2)))));
    let matches = merge_matches(&configs.configs, &other);
    assert_eq!(matches, vec![Some(0), Some(0), None, Some(4), Some(1)]);
    let all: Vec<&Config<Shape1D, Shape2D>> = configs.configs.iter().chain(other.iter()).collect();
    let same_shape: Vec<bool> = matches
        .iter()
        .zip(other.iter())
        .map(|(m, o)| match (m, o) {
            (Some(k), Config::Hist1D(h)) => matches!(all[*k], Config::Hist1D(e) if e.shape == h.shape),
            (Some(k), Config::Hist2D(h)) => matches!(all[*k], Config::Hist2D(e) if e.shape == h.shape),
            (None, _) => true,
        })
        .collect();
    assert_eq!(same_shape, vec![true, true, true, false, true]);
    configs.merge_configs(other, &same_shape);
    let names: Vec<String> = configs
        .configs
        .iter()
        .map(|c| match c {
            Config::Hist1D(h) => format!("{}:{}", h.name, h.column_name),
            Config::Hist2D(h) => format!("{}:{}", h.name, h.x_column_name),
        })
        .collect();
    assert_eq!(names, strings(&["E{}:S1RingEnergy", "B v A:A", "E{}:Other", "New:N"]));
}

#[test]
fn editing_offers_the_columns_and_group_aliases() {
    let configs = sample_configs();
    let base = strings(&["B", "S1Ring0Energy", "A"]);
    assert_eq!(configs.available_columns_for_ui(&base), strings(&["A", "B", "S1Ring0Energy", "Sum"]));
    assert_eq!(
        configs.available_histogram_source_names_for_ui(&base),
        strings(&["A", "B", "S1Ring0Energy", "S1RingEnergy", "Sum"])
    );
}

#[test]
fn the_selection_follows_its_row_when_rows_are_removed() {
    assert_eq!(selected_index_after_removal(Some(2), 2), None);
    assert_eq!(selected_index_after_removal(Some(3), 1), Some(2));
    assert_eq!(selected_index_after_removal(Some(0), 1), Some(0));
    assert_eq!(selected_index_after_removal(None, 0), None);
}
