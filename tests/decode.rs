use conway_rle::rle::{parse, DecodeError, ParserState, RLEParseEntity, CELL_ALIVE, CELL_DEAD};

fn decoded(text: &str) -> RLEParseEntity {
    match parse(text.to_string()) {
        Ok(e) => e,
        Err(e) => panic!("decoding failed: {:?}", e),
    }
}

fn error_of(text: &str) -> DecodeError {
    match parse(text.to_string()) {
        Ok(e) => panic!("decoded unexpectedly: {:?}", e),
        Err(e) => e,
    }
}

#[test]
fn glider_decodes_cell_by_cell() {
    let e = decoded("x = 3, y = 3, rule = B3/S23\nbo$2bo$3o!");
    assert_eq!(e.height, 3);
    assert_eq!(e.width, 3);
    assert_eq!(e.grid, vec![vec![0, 1, 0], vec![0, 0, 1], vec![1, 1, 1]]);
}

#[test]
fn glider_with_comments_and_line_breaks() {
    let e = decoded("#N Glider\n#C a comment\nx = 3, y = 3, rule = B3/S23\nbo$\n2bo$\n3o!\n");
    assert_eq!(e.grid, vec![vec![0, 1, 0], vec![0, 0, 1], vec![1, 1, 1]]);
}

#[test]
fn header_without_rule_line_then_body_is_rejected() {
    // the height field closed by a newline goes back to the header state
    assert_eq!(
        error_of("x = 3, y = 3\nbo$\nobo$\n$obo!"),
        DecodeError::UnexpectedChar { state: ParserState::Begin, c: 'b' }
    );
}

#[test]
fn header_without_rule_line_gives_dead_grid() {
    let e = decoded("x = 2, y = 3\n");
    assert_eq!((e.height, e.width), (3, 2));
    assert_eq!(e.grid, vec![vec![0, 0], vec![0, 0], vec![0, 0]]);
}

#[test]
fn header_without_newline_gives_dead_grid() {
    let e = decoded("x = 4, y = 1");
    assert_eq!(e.grid, vec![vec![0, 0, 0, 0]]);
}

#[test]
fn every_row_has_the_declared_width() {
    let e = decoded("x = 5, y = 4, rule = B3/S23\n2o$obo$$5o!");
    assert_eq!(e.grid.len(), e.height);
    for row in &e.grid {
        assert_eq!(row.len(), e.width);
        for cell in row {
            assert!(*cell == CELL_DEAD || *cell == CELL_ALIVE);
        }
    }
    let live: usize = e.grid.iter().map(|r| r.iter().filter(|c| **c == CELL_ALIVE).count()).sum();
    assert_eq!(live, 9);
    assert!(live <= e.height * e.width);
}

#[test]
fn decoding_twice_gives_the_same_grid() {
    let text = "x = 4, y = 4, rule = B3/S23\nb2o$o2bo$b2o!";
    let a = decoded(text);
    let b = decoded(text);
    assert_eq!((a.width, a.height, a.grid.clone()), (b.width, b.height, b.grid));
    assert_eq!(a.grid, vec![vec![0, 1, 1, 0], vec![1, 0, 0, 1], vec![0, 1, 1, 0], vec![0, 0, 0, 0]]);
}

#[test]
fn long_alive_run_is_clamped_to_the_row() {
    let e = decoded("x = 3, y = 2, rule = B3/S23\nb5o$o!");
    assert_eq!(e.grid, vec![vec![0, 1, 1], vec![1, 0, 0]]);
}

#[test]
fn long_dead_run_is_clamped_to_the_row() {
    let e = decoded("x = 3, y = 1, rule = B3/S23\no9bo!");
    assert_eq!(e.grid, vec![vec![1, 0, 0]]);
}

#[test]
fn row_end_clears_and_resets_column() {
    let e = decoded("x = 3, y = 3, rule = B3/S23\no$2o$bo!");
    assert_eq!(e.grid, vec![vec![1, 0, 0], vec![1, 1, 0], vec![0, 1, 0]]);
}

#[test]
fn row_end_with_count_skips_rows() {
    let e = decoded("x = 2, y = 4, rule = B3/S23\n2o3$2o!");
    assert_eq!(e.grid, vec![vec![1, 1], vec![0, 0], vec![0, 0], vec![1, 1]]);
}

#[test]
fn whitespace_is_skipped() {
    let e = decoded("x\t=\u{3000}2 , y = 1 ,rule = B3/S23\r\n o \t o !");
    assert_eq!(e.grid, vec![vec![1, 1]]);
}

#[test]
fn multi_digit_dimensions() {
    let e = decoded("x = 12, y = 10, rule = B3/S23\n11bo!");
    assert_eq!((e.width, e.height), (12, 10));
    assert_eq!(e.grid[0][11], 1);
    assert_eq!(e.grid[0][10], 0);
    assert_eq!(e.grid[9], vec![0; 12]);
}

#[test]
fn unknown_header_char_is_rejected() {
    assert_eq!(error_of("y = 3"), DecodeError::UnexpectedChar { state: ParserState::Begin, c: 'y' });
}

#[test]
fn non_numeral_width_is_rejected() {
    assert_eq!(error_of("x = 3a, y = 2"), DecodeError::UnexpectedChar { state: ParserState::Width, c: 'a' });
}

#[test]
fn non_numeral_height_is_rejected() {
    assert_eq!(error_of("x = 3, y = z"), DecodeError::UnexpectedChar { state: ParserState::Height, c: 'z' });
}

#[test]
fn unexpected_body_char_is_rejected() {
    assert_eq!(
        error_of("x = 3, y = 1, rule = B3/S23\noqo!"),
        DecodeError::UnexpectedChar { state: ParserState::RunTag, c: 'q' }
    );
}

#[test]
fn empty_width_is_rejected() {
    assert_eq!(error_of("x = , y = 2\n"), DecodeError::EmptyField { state: ParserState::Width });
}

#[test]
fn empty_height_is_rejected() {
    assert_eq!(error_of("x = 2, y = , rule\n"), DecodeError::EmptyField { state: ParserState::Height });
}

#[test]
fn oversized_number_is_rejected() {
    assert_eq!(error_of("x = 2147483648, y = 1\n"), DecodeError::NumberTooLarge { state: ParserState::Width });
    assert_eq!(error_of("x = 1, y = 99999999999\n"), DecodeError::NumberTooLarge { state: ParserState::Height });
    assert_eq!(
        error_of("x = 1, y = 1, rule\n99999999999o!"),
        DecodeError::NumberTooLarge { state: ParserState::RunTag }
    );
}

#[test]
fn run_below_last_row_is_rejected() {
    assert_eq!(error_of("x = 2, y = 1, rule = B3/S23\no$o!"), DecodeError::RunOutsideGrid { c: 'o' });
}

#[test]
fn row_end_below_last_row_is_accepted() {
    let e = decoded("x = 2, y = 1, rule = B3/S23\n2o$$!");
    assert_eq!(e.grid, vec![vec![1, 1]]);
}

#[test]
fn missing_dimensions_are_rejected() {
    assert_eq!(error_of(""), DecodeError::MissingDimensions);
    assert_eq!(error_of("#C only a comment\n"), DecodeError::MissingDimensions);
    assert_eq!(error_of("x = 3"), DecodeError::MissingDimensions);
}
