use wacom_switcher::parser::parse_devices;

fn ids(text: &[u8]) -> Vec<Vec<u8>> {
    parse_devices(text).into_iter().map(|d| d.identifier).collect()
}

#[test]
fn empty_input_yields_no_records() {
    assert_eq!(ids(b""), Vec::<Vec<u8>>::new());
}

#[test]
fn whitespace_only_input_yields_no_records() {
    assert_eq!(ids(b"   \n \n  "), Vec::<Vec<u8>>::new());
    assert_eq!(ids(b"\n\n\n"), Vec::<Vec<u8>>::new());
    assert_eq!(ids(b" \r\n "), Vec::<Vec<u8>>::new());
}

#[test]
fn whitespace_only_input_with_tabs_yields_no_records() {
    // Tabs are whitespace too: a listing of nothing but whitespace is blank,
    // however its bytes would fall into fields.
    assert_eq!(ids(b" \t  \n"), Vec::<Vec<u8>>::new());
    assert_eq!(ids(b"\t"), Vec::<Vec<u8>>::new());
    assert_eq!(ids(b"  \n\t \n"), Vec::<Vec<u8>>::new());
}

#[test]
fn whitespace_line_in_nonblank_listing_keeps_field_structure() {
    // In a listing that is not blank, a whitespace line with a tab has two
    // tab fields, and the spaces of the second field make an (empty)
    // identifier piece — the per-line rules apply unchanged.
    assert_eq!(ids(b"junk\n \t  \n"), vec![b"".to_vec()]);
}

#[test]
fn single_well_formed_line_yields_one_record() {
    assert_eq!(ids(b"DeviceName\tid 123 STYLUS\n"), vec![b"123".to_vec()]);
}

#[test]
fn line_without_tab_is_skipped() {
    assert_eq!(ids(b"no tab here 1 2 3\n"), Vec::<Vec<u8>>::new());
}

#[test]
fn line_with_single_token_after_tab_is_skipped() {
    assert_eq!(ids(b"Device\tid123\n"), Vec::<Vec<u8>>::new());
}

#[test]
fn malformed_lines_are_skipped_among_well_formed_ones() {
    let text = b"junk line\nPen\tid 5 STYLUS\nBad\tone\nEraser\tid 7 ERASER\n";
    assert_eq!(ids(text), vec![b"5".to_vec(), b"7".to_vec()]);
}

#[test]
fn duplicate_identifiers_are_kept_in_line_order() {
    let text = b"Pen\tid 5 STYLUS\nPen\tid 5 STYLUS\n";
    assert_eq!(ids(text), vec![b"5".to_vec(), b"5".to_vec()]);
}

#[test]
fn identifier_field_ends_at_second_tab() {
    assert_eq!(ids(b"Name\tid 9 STYLUS\textra x y\n"), vec![b"9".to_vec()]);
}

#[test]
fn final_line_needs_no_line_ending() {
    assert_eq!(ids(b"Name\tid 42 PAD"), vec![b"42".to_vec()]);
}

#[test]
fn carriage_return_line_endings_are_stripped() {
    assert_eq!(ids(b"Name\tid 7 PAD\r\n"), vec![b"7".to_vec()]);
}

#[test]
fn identifier_ends_at_second_space() {
    // Two spaces in a row make the piece between them the identifier: the
    // field splits on every single space, so the identifier is empty here.
    assert_eq!(ids(b"Name\tid  123\n"), vec![b"".to_vec()]);
}

#[test]
fn identifier_runs_to_field_end_without_second_space() {
    assert_eq!(ids(b"Name\tid 123\n"), vec![b"123".to_vec()]);
}
