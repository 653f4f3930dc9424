use lwobj::obj::parse_line;
use lwobj::{Entry, LoadingError, ObjData, Scalar};

fn float(s: &Scalar) -> f32 {
    let text: String = s.chars().iter().collect();
    text.parse::<f32>().unwrap()
}

fn first(points: &Vec<(Scalar, Scalar, Scalar, Scalar)>) -> Vec<f32> {
    points.iter().map(|p| float(&p.0)).collect()
}

fn first_of_three(points: &Vec<(Scalar, Scalar, Scalar)>) -> Vec<f32> {
    points.iter().map(|p| float(&p.0)).collect()
}

#[test]
fn new_is_empty() {
    let data = ObjData::new();
    assert!(data.vertices.is_empty());
    assert!(data.normals.is_empty());
    assert!(data.texcoords.is_empty());
    assert!(data.faces.is_empty());
}

#[test]
fn empty_text_gives_an_empty_mesh() {
    let data = ObjData::load("").unwrap();
    assert!(data.vertices.is_empty());
    assert!(data.normals.is_empty());
    assert!(data.texcoords.is_empty());
    assert!(data.faces.is_empty());
}

#[test]
fn order_of_each_kind_is_the_order_of_the_lines() {
    let text = "\
v 1 0 0
vt 10 0
# between
vn 100 0 0
v 2 0 0
f 1// 2//
o name
vn 200 0 0
vt 20 0 0
v 3 0 0 5
f 3//
s off
vt 30 0
";
    let data = ObjData::load(text).unwrap();
    assert_eq!(first(&data.vertices), vec![1.0, 2.0, 3.0]);
    assert_eq!(first_of_three(&data.normals), vec![100.0, 200.0]);
    assert_eq!(first_of_three(&data.texcoords), vec![10.0, 20.0, 30.0]);
    assert_eq!(data.faces, vec![vec![(1, None, None), (2, None, None)], vec![(3, None, None)]]);
    assert_eq!(float(&data.vertices[2].3), 5.0);
    assert_eq!(float(&data.vertices[0].3), 1.0);
    assert_eq!(float(&data.texcoords[0].2), 0.0);
}

#[test]
fn push_appends_to_one_sequence() {
    let mut data = ObjData::load("v 1 2 3\nvn 1 2 3\n").unwrap();
    data.push(parse_line("v 4 5 6", 0).unwrap());
    assert_eq!(first(&data.vertices), vec![1.0, 4.0]);
    assert_eq!(data.normals.len(), 1);
    data.push(parse_line("vn 7 8 9", 0).unwrap());
    assert_eq!(first_of_three(&data.normals), vec![1.0, 7.0]);
    data.push(parse_line("vt 7 8", 0).unwrap());
    assert_eq!(first_of_three(&data.texcoords), vec![7.0]);
    data.push(parse_line("f 1/2/3", 0).unwrap());
    assert_eq!(data.faces, vec![vec![(1, Some(2), Some(3))]]);
    data.push(Entry::Nothing);
    assert_eq!(data.vertices.len(), 2);
    assert_eq!(data.normals.len(), 2);
    assert_eq!(data.texcoords.len(), 1);
    assert_eq!(data.faces.len(), 1);
}

#[test]
fn refused_line_leaves_the_mesh_as_it_was() {
    let mut data = ObjData::load("v 1 2 3\nf 1// 1// 1//\n").unwrap();
    assert!(matches!(data.process_line("v 1 2\n", 2), Err(LoadingError::WrongNumberOfArguments(2))));
    assert!(matches!(data.process_line("f 1// 2/ 3//\n", 3), Err(LoadingError::WrongNumberOfArguments(3))));
    assert!(matches!(data.process_line("\n", 4), Err(LoadingError::InvalidLine(4))));
    assert_eq!(data.vertices.len(), 1);
    assert_eq!(data.faces.len(), 1);
    assert_eq!(data.faces[0].len(), 3);
}

#[test]
fn error_names_the_line_counted_from_zero() {
    assert!(matches!(ObjData::load("bad\n"), Err(LoadingError::InvalidLine(0))));
    assert!(matches!(ObjData::load("v 1 2 3\nv 1 2\n"), Err(LoadingError::WrongNumberOfArguments(1))));
    assert!(matches!(ObjData::load("v 1 2 3\nvn 0 0 1\nv 1 2 z\n"), Err(LoadingError::Parse(2))));
}

#[test]
fn comments_and_ignored_lines_count_as_lines() {
    let text = "# one\n# two\ns off\no name\nv 1 2 3\n# five\nf x//\nv 1 2 3\n";
    assert!(matches!(ObjData::load(text), Err(LoadingError::Parse(6))));
}

#[test]
fn first_refused_line_ends_the_load() {
    let text = "v 1 2 3\nv 1\nbad\nv x y z\n";
    assert!(matches!(ObjData::load(text), Err(LoadingError::WrongNumberOfArguments(1))));
}

#[test]
fn blank_line_is_refused_where_it_stands() {
    assert!(matches!(ObjData::load("v 1 2 3\n\nv 4 5 6\n"), Err(LoadingError::InvalidLine(1))));
    assert!(matches!(ObjData::load("\n"), Err(LoadingError::InvalidLine(0))));
}

#[test]
fn last_line_may_lack_its_line_feed() {
    let data = ObjData::load("v 1 2 3\nv 4 5 6").unwrap();
    assert_eq!(first(&data.vertices), vec![1.0, 4.0]);
    assert!(matches!(ObjData::load("v 1 2 3\nv 4 5"), Err(LoadingError::WrongNumberOfArguments(1))));
}

#[test]
fn carriage_returns_are_white_space() {
    let data = ObjData::load("v 1 2 3\r\nvt 4 5\r\nf 1/1/\r\n").unwrap();
    assert_eq!(data.vertices.len(), 1);
    assert_eq!(data.texcoords.len(), 1);
    assert_eq!(data.faces, vec![vec![(1, Some(1), None)]]);
}

#[test]
fn indices_are_kept_as_written() {
    let data = ObjData::load("f 100/200/300 0//0\n").unwrap();
    assert_eq!(data.faces, vec![vec![(100, Some(200), Some(300)), (0, None, Some(0))]]);
    assert!(data.vertices.is_empty());
}

#[test]
fn error_knows_its_line() {
    assert_eq!(LoadingError::InvalidLine(3).line(), Some(3));
    assert_eq!(LoadingError::WrongNumberOfArguments(4).line(), Some(4));
    assert_eq!(LoadingError::Parse(5).line(), Some(5));
    let io = std::io::Error::new(std::io::ErrorKind::Other, "closed");
    let e = LoadingError::from(io);
    assert!(matches!(e, LoadingError::Io(_)));
    assert_eq!(e.line(), None);
}
