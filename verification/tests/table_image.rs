use substack_cli::table_image::{
    distribute_column_widths, pad_row, row_height, tokenize_with_spaces, InlineRun, TableImage,
};

fn runs(text: &str, header: bool) -> Vec<(String, bool, bool)> {
    InlineRun::parse(text, header)
        .into_iter()
        .map(|r| (r.text, r.bold, r.italic))
        .collect()
}

#[test]
fn inline_runs_split_on_emphasis() {
    assert_eq!(
        runs("a **b** *c* ***d***", false),
        vec![
            ("a ".to_string(), false, false),
            ("b".to_string(), true, false),
            (" ".to_string(), false, false),
            ("c".to_string(), false, true),
            (" ".to_string(), false, false),
            ("d".to_string(), true, true),
        ]
    );
}

#[test]
fn header_runs_are_bold_and_unclosed_stars_stay_text() {
    assert_eq!(runs("x *y", true), vec![("x *y".to_string(), true, false)]);
    assert_eq!(runs("", false), vec![(String::new(), false, false)]);
    assert_eq!(runs("**", false), vec![("**".to_string(), false, false)]);
}

#[test]
fn tokens_alternate_and_reassemble() {
    let tokens = tokenize_with_spaces("two  words\tand more");
    assert_eq!(tokens, vec!["two", "  ", "words", "\t", "and", " ", "more"]);
    assert_eq!(tokens.concat(), "two  words\tand more");
    assert!(tokenize_with_spaces("").is_empty());
}

#[test]
fn rows_are_padded_or_cut_to_the_column_count() {
    let row = vec!["a".to_string()];
    assert_eq!(pad_row(&row, 3), vec!["a".to_string(), String::new(), String::new()]);
    let long = vec!["a".to_string(), "b".to_string(), "c".to_string()];
    assert_eq!(pad_row(&long, 2), vec!["a".to_string(), "b".to_string()]);
}

#[test]
fn row_height_counts_the_tallest_cell() {
    let cells: Vec<Vec<u8>> = vec![vec![1], vec![1, 2, 3], vec![]];
    assert_eq!(row_height(&cells, 27), 27 * 3 + 20);
    let empty: Vec<Vec<u8>> = Vec::new();
    assert_eq!(row_height(&empty, 27), 47);
}

#[test]
fn natural_widths_are_kept_when_they_fit() {
    assert_eq!(distribute_column_widths(&vec![30, 40], &vec![100, 200]), vec![100, 200]);
}

#[test]
fn minimum_widths_are_kept_when_nothing_fits() {
    assert_eq!(distribute_column_widths(&vec![700, 800], &vec![900, 900]), vec![700, 800]);
}

#[test]
fn slack_is_shared_and_fills_the_width() {
    let widths = distribute_column_widths(&vec![100, 100, 100], &vec![1000, 500, 300]);
    assert_eq!(widths.iter().sum::<u32>(), 1200 - 4);
    assert_eq!(widths, vec![637, 338, 221]);
}

#[test]
fn table_image_holds_its_cells() {
    let header = vec!["A".to_string(), "B".to_string()];
    let rows = vec![vec!["1".to_string(), "two".to_string()]];
    let table = TableImage::new(&header, &rows);
    assert_eq!(table.header_cells(), &header[..]);
    assert_eq!(table.body_rows(), &rows[..]);
}
