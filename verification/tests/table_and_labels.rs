use fits_viewer::gui::components::colormap::format_recolor_mode;
use fits_viewer::gui::components::hdu_selection::hdu_label;
use fits_viewer::gui::components::scaling::format_scaling_method;
use fits_viewer::gui::utils::{table_rows, TableColumnSort, TableState};
use fits_viewer::header::{Card, FitsHeader};
use fits_viewer::image::render::{build_shader_source, SHADER_PREFIX, SHADER_SUFFIX};
use fits_viewer::image::scalars::{format_scaling_method_short, Scaling};

fn c(key: &str, value: Option<&str>, comment: Option<&str>) -> Card {
    Card {
        key: key.to_string(),
        value: value.map(|s| s.to_string()),
        comment: comment.map(|s| s.to_string()),
    }
}

fn sample_header() -> FitsHeader {
    FitsHeader {
        cards: vec![
            c("SIMPLE", Some("true"), Some("standard")),
            c("BITPIX", Some("16"), None),
            c("", None, None),
            c("NAXIS", Some("2"), Some("Number of axes")),
            c("COMMENT", None, Some("naxis note")),
            c("BITPIX", Some("16"), Some("again")),
            c("END", None, None),
        ],
    }
}

#[test]
fn new_table_state_is_unsorted_with_empty_filters() {
    let t = TableState::new(3);
    assert_eq!(t.sort_column, None);
    assert_eq!(t.sort_direction, TableColumnSort::Unsorted);
    assert_eq!(t.filters, vec![String::new(), String::new(), String::new()]);
    assert!(t.cached_indices.is_empty());
    assert_eq!(t.last_hdu_index, None);
    assert!(t.needs_sort);
}

#[test]
fn toggling_a_column_cycles_its_direction() {
    let mut t = TableState::new(3);
    t.needs_sort = false;
    t.toggle_sort(1);
    assert_eq!((t.sort_column, t.sort_direction), (Some(1), TableColumnSort::Ascending));
    assert!(t.needs_sort);
    t.toggle_sort(1);
    assert_eq!(t.sort_direction, TableColumnSort::Descending);
    t.toggle_sort(1);
    assert_eq!(t.sort_direction, TableColumnSort::Unsorted);
    t.toggle_sort(1);
    assert_eq!(t.sort_direction, TableColumnSort::Ascending);
    t.toggle_sort(0);
    assert_eq!((t.sort_column, t.sort_direction), (Some(0), TableColumnSort::Ascending));
}

#[test]
fn unsorted_rows_skip_empty_cards() {
    let h = sample_header();
    let filters = vec![String::new(); 3];
    assert_eq!(table_rows(&h, &filters, None, TableColumnSort::Unsorted), vec![0, 1, 3, 4, 5, 6]);
    assert_eq!(table_rows(&h, &filters, Some(0), TableColumnSort::Unsorted), vec![0, 1, 3, 4, 5, 6]);
}

#[test]
fn sorting_by_key_is_stable() {
    let h = sample_header();
    let filters = vec![String::new(); 3];
    assert_eq!(
        table_rows(&h, &filters, Some(0), TableColumnSort::Ascending),
        vec![1, 5, 4, 6, 3, 0]
    );
    assert_eq!(
        table_rows(&h, &filters, Some(0), TableColumnSort::Descending),
        vec![0, 3, 6, 4, 1, 5]
    );
}

#[test]
fn sorting_by_value_and_comment() {
    let h = sample_header();
    let filters = vec![String::new(); 3];
    // values: "true", "16", -, "2", "", "16", ""
    assert_eq!(
        table_rows(&h, &filters, Some(1), TableColumnSort::Ascending),
        vec![4, 6, 1, 5, 3, 0]
    );
    // comments: "standard", "", -, "Number of axes", "naxis note", "again", ""
    assert_eq!(
        table_rows(&h, &filters, Some(2), TableColumnSort::Ascending),
        vec![1, 6, 3, 5, 4, 0]
    );
    // a column past the third keeps card order
    assert_eq!(
        table_rows(&h, &filters, Some(7), TableColumnSort::Descending),
        vec![0, 1, 3, 4, 5, 6]
    );
}

#[test]
fn filters_match_case_insensitively() {
    let h = sample_header();
    let filters = vec!["naxis".to_string(), String::new(), String::new()];
    assert_eq!(table_rows(&h, &filters, None, TableColumnSort::Unsorted), vec![3]);
    let filters = vec![String::new(), String::new(), "NAXIS".to_string()];
    assert_eq!(table_rows(&h, &filters, None, TableColumnSort::Unsorted), vec![4]);
    let filters = vec!["BIT".to_string(), "16".to_string(), "AGAIN".to_string()];
    assert_eq!(table_rows(&h, &filters, None, TableColumnSort::Unsorted), vec![5]);
    let filters = vec!["e".to_string()];
    assert_eq!(table_rows(&h, &filters, Some(0), TableColumnSort::Ascending), vec![4, 6, 0]);
}

#[test]
fn cached_rows_follow_hdu_and_sort_changes() {
    let h = sample_header();
    let mut t = TableState::new(3);
    t.update_cached_indices(&h, 0);
    assert_eq!(t.cached_indices, vec![0, 1, 3, 4, 5, 6]);
    assert_eq!(t.last_hdu_index, Some(0));
    assert!(!t.needs_sort);
    t.filters[0] = "END".to_string();
    t.update_cached_indices(&h, 0);
    assert_eq!(t.cached_indices, vec![0, 1, 3, 4, 5, 6]);
    t.needs_sort = true;
    t.update_cached_indices(&h, 0);
    assert_eq!(t.cached_indices, vec![6]);
    let other = FitsHeader { cards: vec![c("END", None, None), c("XEND", None, None)] };
    t.update_cached_indices(&other, 1);
    assert_eq!(t.cached_indices, vec![0, 1]);
    assert_eq!(t.last_hdu_index, Some(1));
}

#[test]
fn colormap_names() {
    let names = ["Grayscale", "Heat", "Cool", "Rainbow", "Iron", "Posterize", "Tint", "Custom", "Custom"];
    for (mode, name) in names.iter().enumerate() {
        assert_eq!(format_recolor_mode(mode as u32), *name);
    }
    assert_eq!(format_recolor_mode(u32::MAX), "Custom");
}

#[test]
fn scaling_names_and_modes() {
    assert_eq!(format_scaling_method(Scaling::LINEAR), "Linear (lin)");
    assert_eq!(format_scaling_method(Scaling::LOGARITHMIC), "Logarithmic (log)");
    assert_eq!(format_scaling_method(Scaling::SQUAREROOT), "Square Root (sqrt)");
    assert_eq!(format_scaling_method(Scaling::ASINH), "Asinh (asinh)");
    assert_eq!(format_scaling_method_short(Scaling::LINEAR), "lin");
    assert_eq!(format_scaling_method_short(Scaling::LOGARITHMIC), "log");
    assert_eq!(format_scaling_method_short(Scaling::SQUAREROOT), "sqrt");
    assert_eq!(format_scaling_method_short(Scaling::ASINH), "asinh");
    assert_eq!(Scaling::LINEAR.to_display_string(), "Linear");
    assert_eq!(Scaling::LOGARITHMIC.to_display_string(), "Logarithmic");
    assert_eq!(Scaling::SQUAREROOT.to_display_string(), "Square Root");
    assert_eq!(Scaling::ASINH.to_display_string(), "Asinh");
    assert_eq!(Scaling::LINEAR.shader_mode(), 0);
    assert_eq!(Scaling::LOGARITHMIC.shader_mode(), 1);
    assert_eq!(Scaling::SQUAREROOT.shader_mode(), 2);
    assert_eq!(Scaling::ASINH.shader_mode(), 3);
    assert_eq!(Scaling::default(), Scaling::LINEAR);
}

#[test]
fn shader_source_wraps_fragment() {
    let frag = "fn user_color(val: f32) -> vec3<f32> { return vec3<f32>(val, val, val); }";
    let s = build_shader_source(frag);
    assert_eq!(s, format!("{}{}{}", SHADER_PREFIX, frag, SHADER_SUFFIX));
    assert!(s.starts_with("\nstruct Uniforms {\n"));
    assert!(s.contains("// ---- user-supplied ----\nfn user_color"));
    assert!(s.ends_with("return vec4<f32>(user_color(val), 1.0);\n}\n"));
}

#[test]
fn hdu_labels() {
    let primary = FitsHeader { cards: vec![c("SIMPLE", Some("true"), None)] };
    assert_eq!(hdu_label(0, &primary, 2), "HDU 0: PRIMARY (2 axes)");
    let ext = FitsHeader { cards: vec![c("XTENSION", Some("'IMAGE  '"), None)] };
    assert_eq!(hdu_label(12, &ext, 3), "HDU 12: IMAGE (3 axes)");
    let table = FitsHeader { cards: vec![c("XTENSION", Some("BINTABLE"), None)] };
    assert_eq!(hdu_label(1, &table, 0), "HDU 1: BINTABLE (0 axes)");
}

#[test]
fn column_headings_show_the_sort() {
    let mut t = TableState::new(3);
    assert_eq!(t.heading_text(0), "Key");
    assert_eq!(t.heading_text(1), "Value");
    assert_eq!(t.heading_text(2), "Comment");
    t.toggle_sort(1);
    assert_eq!(t.heading_text(1), "Value \u{25b2}");
    assert_eq!(t.heading_text(0), "Key");
    t.toggle_sort(1);
    assert_eq!(t.heading_text(1), "Value \u{25bc}");
    t.toggle_sort(1);
    assert_eq!(t.heading_text(1), "Value");
    t.toggle_sort(0);
    assert_eq!(t.heading_text(0), "Key \u{25b2}");
    t.toggle_sort(2);
    t.toggle_sort(2);
    assert_eq!(t.heading_text(2), "Comment \u{25bc}");
}
