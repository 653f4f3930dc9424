use lwobj::obj::{classify, parse, parse_chars, parse_corner, parse_face, parse_line, Directive};
use lwobj::obj::{normal, texcoord, vertex};
use lwobj::{Entry, LoadingError, ObjData, Scalar};

fn chars(s: &str) -> Vec<char> {
    s.chars().collect()
}

fn tokens(words: &[&str]) -> Vec<Vec<char>> {
    words.iter().map(|w| chars(w)).collect()
}

fn text_of(s: &Scalar) -> String {
    s.chars().iter().collect()
}

fn float(s: &Scalar) -> f32 {
    text_of(s).parse::<f32>().unwrap()
}

fn vertex_line(line: &str) -> (f32, f32, f32, f32) {
    match parse_line(line, 0) {
        Ok(Entry::Vertex(p)) => (float(&p.0), float(&p.1), float(&p.2), float(&p.3)),
        other => panic!("no vertex: {:?}", other),
    }
}

fn texcoord_line(line: &str) -> (f32, f32, f32) {
    match parse_line(line, 0) {
        Ok(Entry::Texcoord(p)) => (float(&p.0), float(&p.1), float(&p.2)),
        other => panic!("no texture coordinate: {:?}", other),
    }
}

fn normal_line(line: &str) -> (f32, f32, f32) {
    match parse_line(line, 0) {
        Ok(Entry::Normal(p)) => (float(&p.0), float(&p.1), float(&p.2)),
        other => panic!("no normal: {:?}", other),
    }
}

#[test]
fn vertex_with_three_numbers_gets_one_as_fourth() {
    assert_eq!(vertex_line("v 0.5 -2 3e2\n"), (0.5, -2.0, 300.0, 1.0));
}

#[test]
fn vertex_with_four_numbers_is_kept() {
    assert_eq!(vertex_line("v 0.5 -2 3e2 0.25\n"), (0.5, -2.0, 300.0, 0.25));
}

#[test]
fn vertex_keeps_the_literals() {
    match parse_line("v 1.000000 -1 +.5e+1", 0) {
        Ok(Entry::Vertex(p)) => {
            assert_eq!(text_of(&p.0), "1.000000");
            assert_eq!(text_of(&p.1), "-1");
            assert_eq!(text_of(&p.2), "+.5e+1");
            assert_eq!(text_of(&p.3), "1.0");
        },
        other => panic!("no vertex: {:?}", other),
    }
}

#[test]
fn vertex_with_another_count_is_refused() {
    for line in ["v", "v 1", "v 1 2", "v 1 2 3 4 5", "v 1 2 3 4 5 6"] {
        assert!(matches!(parse_line(line, 9), Err(LoadingError::WrongNumberOfArguments(9))), "{}", line);
    }
}

#[test]
fn vertex_with_a_malformed_number_is_refused() {
    assert!(matches!(parse_line("v 1 two 3", 4), Err(LoadingError::Parse(4))));
    assert!(matches!(parse_line("v 1 2 3 4x", 4), Err(LoadingError::Parse(4))));
}

#[test]
fn malformed_number_comes_before_wrong_count() {
    assert!(matches!(parse_line("v 1 x", 2), Err(LoadingError::Parse(2))));
    assert!(matches!(parse_line("vn 1 2 3 4 x", 2), Err(LoadingError::Parse(2))));
    assert!(matches!(parse_line("vt x", 2), Err(LoadingError::Parse(2))));
}

#[test]
fn texcoord_with_two_numbers_gets_zero_as_third() {
    assert_eq!(texcoord_line("vt 0.25 0.75\n"), (0.25, 0.75, 0.0));
}

#[test]
fn texcoord_with_three_numbers_is_kept() {
    assert_eq!(texcoord_line("vt 0.25 0.75 0.5\n"), (0.25, 0.75, 0.5));
}

#[test]
fn texcoord_with_another_count_is_refused() {
    for line in ["vt", "vt 1", "vt 1 2 3 4"] {
        assert!(matches!(parse_line(line, 3), Err(LoadingError::WrongNumberOfArguments(3))), "{}", line);
    }
}

#[test]
fn normal_takes_three_numbers() {
    assert_eq!(normal_line("vn 0 -1 0\n"), (0.0, -1.0, 0.0));
    for line in ["vn", "vn 1", "vn 1 2", "vn 1 2 3 4"] {
        assert!(matches!(parse_line(line, 5), Err(LoadingError::WrongNumberOfArguments(5))), "{}", line);
    }
}

#[test]
fn numbers_from_arguments() {
    let numbers = parse(&tokens(&["1", "-2.5", "inf"]), 0).unwrap();
    let texts: Vec<String> = numbers.iter().map(text_of).collect();
    assert_eq!(texts, vec!["1", "-2.5", "inf"]);
    assert!(parse(&tokens(&[]), 0).unwrap().is_empty());
    assert!(matches!(parse(&tokens(&["1", "", "3"]), 8), Err(LoadingError::Parse(8))));
    assert!(matches!(parse(&tokens(&["1", "2", "e3"]), 8), Err(LoadingError::Parse(8))));
}

#[test]
fn points_from_numbers() {
    let four = parse(&tokens(&["1", "2", "3", "4"]), 0).unwrap();
    let p = vertex(four, 0).unwrap();
    assert_eq!((float(&p.0), float(&p.1), float(&p.2), float(&p.3)), (1.0, 2.0, 3.0, 4.0));
    let three = parse(&tokens(&["1", "2", "3"]), 0).unwrap();
    let p = vertex(three, 0).unwrap();
    assert_eq!((float(&p.0), float(&p.1), float(&p.2), float(&p.3)), (1.0, 2.0, 3.0, 1.0));
    let three = parse(&tokens(&["1", "2", "3"]), 0).unwrap();
    let p = normal(three, 0).unwrap();
    assert_eq!((float(&p.0), float(&p.1), float(&p.2)), (1.0, 2.0, 3.0));
    let two = parse(&tokens(&["1", "2"]), 0).unwrap();
    let p = texcoord(two, 0).unwrap();
    assert_eq!((float(&p.0), float(&p.1), float(&p.2)), (1.0, 2.0, 0.0));
    let two = parse(&tokens(&["1", "2"]), 0).unwrap();
    assert!(matches!(vertex(two, 6), Err(LoadingError::WrongNumberOfArguments(6))));
    let two = parse(&tokens(&["1", "2"]), 0).unwrap();
    assert!(matches!(normal(two, 6), Err(LoadingError::WrongNumberOfArguments(6))));
    let one = parse(&tokens(&["1"]), 0).unwrap();
    assert!(matches!(texcoord(one, 6), Err(LoadingError::WrongNumberOfArguments(6))));
}

#[test]
fn corner_with_vertex_and_normal() {
    assert_eq!(parse_corner(&chars("2//1"), 0).unwrap(), (2, None, Some(1)));
}

#[test]
fn corner_with_all_three() {
    assert_eq!(parse_corner(&chars("1/2/3"), 0).unwrap(), (1, Some(2), Some(3)));
}

#[test]
fn corner_without_a_vertex_is_refused() {
    assert!(matches!(parse_corner(&chars("a/1/1"), 7), Err(LoadingError::Parse(7))));
    assert!(matches!(parse_corner(&chars("/1/1"), 7), Err(LoadingError::Parse(7))));
    assert!(matches!(parse_corner(&chars("-1/1/1"), 7), Err(LoadingError::Parse(7))));
}

#[test]
fn corner_needs_three_fields() {
    for token in ["1", "1/2", "1/2/3/4", "", "/"] {
        assert!(
            matches!(parse_corner(&chars(token), 1), Err(LoadingError::WrongNumberOfArguments(1))),
            "{}",
            token
        );
    }
}

#[test]
fn corner_takes_a_malformed_optional_index_as_absent() {
    assert_eq!(parse_corner(&chars("1/x/3"), 0).unwrap(), (1, None, Some(3)));
    assert_eq!(parse_corner(&chars("1/2/y"), 0).unwrap(), (1, Some(2), None));
    assert_eq!(parse_corner(&chars("1//"), 0).unwrap(), (1, None, None));
    assert_eq!(parse_corner(&chars("1/-2/3.0"), 0).unwrap(), (1, None, None));
}

#[test]
fn face_collects_its_corners_in_order() {
    let face = parse_face(&tokens(&["2//1", "4/5/1", "1//"]), 0).unwrap();
    assert_eq!(face, vec![(2, None, Some(1)), (4, Some(5), Some(1)), (1, None, None)]);
    assert!(parse_face(&tokens(&[]), 0).unwrap().is_empty());
}

#[test]
fn face_fails_with_its_first_bad_corner() {
    assert!(matches!(
        parse_face(&tokens(&["1//", "2/3", "x//"]), 3),
        Err(LoadingError::WrongNumberOfArguments(3))
    ));
    assert!(matches!(parse_face(&tokens(&["1//", "x//", "2/3"]), 3), Err(LoadingError::Parse(3))));
}

#[test]
fn face_line() {
    match parse_line("f 1/2/3 4//6 7/8/\n", 0) {
        Ok(Entry::Face(corners)) => {
            assert_eq!(corners, vec![(1, Some(2), Some(3)), (4, None, Some(6)), (7, Some(8), None)]);
        },
        other => panic!("no face: {:?}", other),
    }
    match parse_line("f", 0) {
        Ok(Entry::Face(corners)) => assert!(corners.is_empty()),
        other => panic!("no face: {:?}", other),
    }
}

#[test]
fn keywords() {
    assert_eq!(classify(&chars("v")), Some(Directive::Vertex));
    assert_eq!(classify(&chars("vn")), Some(Directive::Normal));
    assert_eq!(classify(&chars("vt")), Some(Directive::Texcoord));
    assert_eq!(classify(&chars("f")), Some(Directive::Face));
    assert_eq!(classify(&chars("s")), Some(Directive::Smoothing));
    assert_eq!(classify(&chars("o")), Some(Directive::Object));
    for other in ["", "V", "vp", "vnn", "g", "usemtl", "mtllib", "#", "fo", "vv"] {
        assert_eq!(classify(&chars(other)), None, "{}", other);
    }
}

#[test]
fn comment_contributes_nothing() {
    for line in ["#", "# a comment\n", "#v 1 2 3\n", "#\u{1F600} not even words"] {
        assert!(matches!(parse_line(line, 0), Ok(Entry::Nothing)), "{}", line);
    }
    let mut data = ObjData::load("v 1 2 3\n").unwrap();
    data.process_line("# v 4 5 6\n", 1).unwrap();
    assert_eq!(data.vertices.len(), 1);
    assert_eq!(data.normals.len(), 0);
    assert_eq!(data.texcoords.len(), 0);
    assert_eq!(data.faces.len(), 0);
}

#[test]
fn comment_must_start_the_line() {
    assert!(matches!(parse_line(" # indented\n", 2), Err(LoadingError::InvalidLine(2))));
    assert!(matches!(parse_line("v 1 2 3 # trailing\n", 2), Err(LoadingError::Parse(2))));
    assert!(matches!(parse_line("s 1 # trailing\n", 2), Ok(Entry::Nothing)));
}

#[test]
fn smoothing_group_and_object_name_are_passed_over() {
    for line in ["s off\n", "s 1\n", "s\n", "o Cube\n", "o\n", "o a b c d\n", "   s   off"] {
        assert!(matches!(parse_line(line, 0), Ok(Entry::Nothing)), "{}", line);
    }
    let mut data = ObjData::new();
    data.process_line("s off\n", 0).unwrap();
    data.process_line("o Cube\n", 1).unwrap();
    assert_eq!(data.vertices.len(), 0);
    assert_eq!(data.normals.len(), 0);
    assert_eq!(data.texcoords.len(), 0);
    assert_eq!(data.faces.len(), 0);
}

#[test]
fn unknown_keyword_is_refused() {
    for line in ["g group\n", "usemtl Material\n", "mtllib cube.mtl\n", "vp 1 2 3\n", "V 1 2 3\n"] {
        assert!(matches!(parse_line(line, 11), Err(LoadingError::InvalidLine(11))), "{}", line);
    }
}

#[test]
fn line_without_a_word_is_refused() {
    for line in ["", "\n", "\r\n", "   \n", "\t", "\u{3000}\n"] {
        assert!(matches!(parse_line(line, 12), Err(LoadingError::InvalidLine(12))), "{:?}", line);
    }
}

#[test]
fn any_white_space_separates_words() {
    assert_eq!(vertex_line("\tv\u{a0}1\u{2003}2\u{3000}3\r\n"), (1.0, 2.0, 3.0, 1.0));
}

#[test]
fn line_as_characters() {
    assert!(matches!(parse_chars(&chars("vn 1 2 3"), 0), Ok(Entry::Normal(_))));
    assert!(matches!(parse_chars(&chars("vn 1 2"), 3), Err(LoadingError::WrongNumberOfArguments(3))));
    assert!(matches!(parse_chars(&[], 3), Err(LoadingError::InvalidLine(3))));
}
