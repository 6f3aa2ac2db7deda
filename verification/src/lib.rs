//! The logic of a histogram tool for spectrum analysis, verified: naming and
//! sanitizing columns, histograms and cuts; expanding histogram and computed
//! column definitions over column groups and numbered patterns; reading
//! computed-column expressions; merging and validating configurations; cuts
//! and their collections; peak-marker ids; fit readiness; rebinning; and the
//! decisions behind color maps.
pub mod text;
pub mod decimal;
pub mod sorting;
pub mod float_literal;
pub mod names;
pub mod identifiers;
pub mod naming;
pub mod reorder;
pub mod group_tokens;
pub mod sources;
pub mod expansion;
pub mod expressions;
pub mod expr_parser;
pub mod builder;
pub mod computed;
pub mod configs;
pub mod cuts;
pub mod markers;
pub mod fitting;
pub mod rebin;
pub mod colormaps;
pub mod hist_configs;
pub mod scripter;
pub mod column_plan;
pub mod estimate;
