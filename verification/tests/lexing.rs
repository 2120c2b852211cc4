use acode::lexer::{tokenize, LexDetail, TokenKind};

fn kinds(src: &[u8]) -> Vec<TokenKind> {
    tokenize(&src.to_vec())
        .expect("expected the source to tokenize")
        .into_iter()
        .map(|t| t.kind)
        .collect()
}

fn failure(src: &[u8]) -> (usize, LexDetail) {
    let e = tokenize(&src.to_vec()).expect_err("expected a lexical error");
    (e.line, e.detail)
}

#[test]
fn punctuation_and_keywords() {
    assert_eq!(
        kinds(b"INIT { RECT; } LOOP { ON 0; OFF 0; }"),
        vec![
            TokenKind::Init,
            TokenKind::Ocurly,
            TokenKind::RectObj,
            TokenKind::Semicolon,
            TokenKind::Ccurly,
            TokenKind::Loop,
            TokenKind::Ocurly,
            TokenKind::On,
            TokenKind::Number(0),
            TokenKind::Semicolon,
            TokenKind::Off,
            TokenKind::Number(0),
            TokenKind::Semicolon,
            TokenKind::Ccurly,
        ],
    );
}

#[test]
fn numbers_read_as_thousandths() {
    assert_eq!(kinds(b"1.5"), vec![TokenKind::Number(1500)]);
    assert_eq!(kinds(b"0.5"), vec![TokenKind::Number(500)]);
    assert_eq!(kinds(b"-2"), vec![TokenKind::Number(-2000)]);
    assert_eq!(kinds(b"-0.25"), vec![TokenKind::Number(-250)]);
    assert_eq!(kinds(b"10."), vec![TokenKind::Number(10000)]);
    assert_eq!(kinds(b"999999999"), vec![TokenKind::Number(999_999_999_000)]);
}

#[test]
fn fraction_digits_beyond_the_third_are_dropped() {
    assert_eq!(kinds(b"1.2345"), vec![TokenKind::Number(1234)]);
    assert_eq!(kinds(b"0.9999"), vec![TokenKind::Number(999)]);
    assert_eq!(kinds(b"-1.2345"), vec![TokenKind::Number(-1234)]);
}

#[test]
fn strings_take_their_bytes_between_quotes() {
    let ts = kinds(b"TEXT \"SAT Geometry Problem\";");
    assert_eq!(
        ts,
        vec![
            TokenKind::TextObj,
            TokenKind::Text(b"SAT Geometry Problem".to_vec()),
            TokenKind::Semicolon,
        ],
    );
    assert_eq!(kinds(b"\"\""), vec![TokenKind::Text(Vec::new())]);
}

#[test]
fn color_and_vector_markers() {
    assert_eq!(
        kinds(b"c(1 2 3 4)"),
        vec![
            TokenKind::ColorDef,
            TokenKind::Oparen,
            TokenKind::Number(1000),
            TokenKind::Number(2000),
            TokenKind::Number(3000),
            TokenKind::Number(4000),
            TokenKind::Cparen,
        ],
    );
    assert_eq!(
        kinds(b"v2(1 2)"),
        vec![
            TokenKind::Vector2Def,
            TokenKind::Oparen,
            TokenKind::Number(1000),
            TokenKind::Number(2000),
            TokenKind::Cparen,
        ],
    );
}

#[test]
fn a_lone_c_is_a_color_marker() {
    // `c` is recognized before identifiers, so `cat` reads as the color
    // marker followed by an unknown word
    assert_eq!(kinds(b"c"), vec![TokenKind::ColorDef]);
    assert_eq!(failure(b"cat"), (1, LexDetail::UnknownIdentifier));
}

#[test]
fn unterminated_string_is_rejected() {
    assert_eq!(failure(b"TEXT \"abc"), (1, LexDetail::UnterminatedString));
}

#[test]
fn unknown_identifier_is_rejected() {
    assert_eq!(failure(b"SHRINK 0 1.0;"), (1, LexDetail::UnknownIdentifier));
    // keywords are case-sensitive
    assert_eq!(failure(b"init"), (1, LexDetail::UnknownIdentifier));
}

#[test]
fn bad_vector_marker_is_rejected() {
    assert_eq!(failure(b"v3(1 2)"), (1, LexDetail::BadVectorMarker));
    assert_eq!(failure(b"v"), (1, LexDetail::BadVectorMarker));
}

#[test]
fn bare_minus_is_rejected() {
    assert_eq!(failure(b"- 1"), (1, LexDetail::BareMinus));
    assert_eq!(failure(b"-"), (1, LexDetail::BareMinus));
}

#[test]
fn malformed_numbers_are_rejected() {
    assert_eq!(failure(b"1.2.3"), (1, LexDetail::MalformedNumber));
    assert_eq!(failure(b"1..2"), (1, LexDetail::MalformedNumber));
}

#[test]
fn oversized_numbers_are_rejected() {
    assert_eq!(failure(b"1234567890"), (1, LexDetail::NumberTooLarge));
    assert_eq!(kinds(b"123456789").len(), 1);
}

#[test]
fn stray_bytes_are_rejected() {
    assert_eq!(failure(b"@"), (1, LexDetail::UnexpectedByte(b'@')));
    assert_eq!(failure(b"INIT % LOOP"), (1, LexDetail::UnexpectedByte(b'%')));
}

#[test]
fn newlines_count_lines_for_diagnostics() {
    assert_eq!(failure(b"INIT {\n RECT;\n v9 }"), (3, LexDetail::BadVectorMarker));
    let ts = tokenize(&b"INIT\n{\n}".to_vec()).unwrap();
    assert_eq!(ts[0].line, 1);
    assert_eq!(ts[1].line, 2);
    assert_eq!(ts[2].line, 3);
}
