use breach::{
    buffer_is_valid, code_matrix_is_valid, sequences_is_valid, valid_board, Buffer, CodeMatrix,
    Doc, Programs, Sequence,
};

fn texts(items: &[&str]) -> Doc {
    Doc::Array(items.iter().map(|s| Doc::Text(s.to_string())).collect())
}

fn nulls(n: usize) -> Doc {
    Doc::Array((0..n).map(|_| Doc::Null).collect())
}

fn board(buffer: Doc) -> Doc {
    Doc::Object(vec![
        ("buffer".to_string(), buffer),
        (
            "sequences".to_string(),
            Doc::Array(vec![
                texts(&["55", "55", "7a"]),
                texts(&["bd", "bd", "bd"]),
                texts(&["55", "e9", "55"]),
            ]),
        ),
        (
            "code_matrix".to_string(),
            Doc::Array(vec![
                texts(&["e9", "e9", "7a", "bd", "55", "55"]),
                texts(&["1c", "1c", "1c", "7a", "55", "e9"]),
                texts(&["1c", "7a", "7a", "1c", "55", "1c"]),
                texts(&["bd", "e9", "55", "7a", "55", "7a"]),
                texts(&["55", "55", "55", "7a", "55", "1c"]),
                texts(&["bd", "bd", "e9", "1c", "55", "e9"]),
            ]),
        ),
    ])
}

fn set_buffer_entry(board: &mut Doc, i: usize, d: Doc) {
    match board {
        Doc::Object(es) => match &mut es[0].1 {
            Doc::Array(v) => v[i] = d,
            _ => panic!("buffer is not an array"),
        },
        _ => panic!("board is not an object"),
    }
}

#[test]
fn json_tests() {
    let mut board_json = board(nulls(5));

    let buffer = Buffer::from_json(&board_json).unwrap();
    println!("buffer from json {:?}", buffer);
    println!("buffer to json {:?}", buffer.to_json());

    let matrix = CodeMatrix::from_json(&board_json).unwrap();
    println!("matrix from json {:?}", matrix);
    println!("matrix to json {:?}", matrix.to_json());

    let programs = Programs::from_json(&board_json);
    println!("programs from json {:?}", programs);

    set_buffer_entry(&mut board_json, 0, Doc::Uint(1));
    assert!(buffer_is_valid(&board_json));
    set_buffer_entry(&mut board_json, 1, Doc::Text("a7".to_string()));
    assert!(!buffer_is_valid(&board_json));
    set_buffer_entry(&mut board_json, 1, Doc::Null);
    assert!(buffer_is_valid(&board_json));

    assert!(valid_board(board_json).is_some());
}

#[test]
fn buffer_from_document() {
    let doc = board(Doc::Array(vec![Doc::Uint(3), Doc::Uint(0), Doc::Null]));
    let buffer = Buffer::from_json(&doc).unwrap();
    assert_eq!(buffer.slots(), vec![Some(3), Some(0), None]);
    let alone = Doc::Array(vec![Doc::Uint(2), Doc::Null]);
    assert_eq!(Buffer::from_json(&alone).unwrap().slots(), vec![Some(2), None]);
}

#[test]
fn buffer_round_trip() {
    let mut buffer = Buffer::new(4);
    buffer.push(5);
    buffer.push(2);
    let doc = buffer.to_json().unwrap();
    assert_eq!(doc, Doc::Array(vec![Doc::Uint(5), Doc::Uint(2), Doc::Null, Doc::Null]));
    let back = Buffer::from_json(&doc).unwrap();
    assert_eq!(back.slots(), buffer.slots());
    let again = back.to_json().unwrap();
    assert_eq!(again, doc);
}

#[test]
fn invalid_buffer_rejected() {
    let text = board(Doc::Array(vec![Doc::Uint(1), Doc::Text("a7".to_string()), Doc::Null]));
    assert!(!buffer_is_valid(&text));
    assert!(Buffer::from_json(&text).is_none());
    assert!(valid_board(text).is_none());

    let negative = board(Doc::Array(vec![Doc::Number("-1".to_string())]));
    assert!(!buffer_is_valid(&negative));
    assert!(Buffer::from_json(&negative).is_none());


    let missing = Doc::Object(vec![("other".to_string(), nulls(2))]);
    assert!(!buffer_is_valid(&missing));
    assert!(Buffer::from_json(&missing).is_none());

    assert!(Buffer::from_json(&Doc::Bool(true)).is_none());
    assert!(Buffer::from_json(&Doc::Text("buffer".to_string())).is_none());
}

#[test]
fn matrix_round_trip() {
    let doc = board(nulls(1));
    let matrix = CodeMatrix::from_json(&doc).unwrap();
    assert_eq!(matrix.rows(), 6);
    assert_eq!(matrix.get(3, 2), "55");
    let out = matrix.to_json().unwrap();
    let expected = match &doc {
        Doc::Object(es) => &es[2].1,
        _ => unreachable!(),
    };
    assert_eq!(&out, expected);
    let back = CodeMatrix::from_json(&out).unwrap();
    assert_eq!(back.to_json().unwrap(), out);
}

#[test]
fn invalid_matrix_rejected() {
    let ragged = Doc::Array(vec![texts(&["a", "b"]), texts(&["c"])]);
    assert!(!code_matrix_is_valid(&ragged));
    assert!(CodeMatrix::from_json(&ragged).is_none());

    let not_text = Doc::Array(vec![Doc::Array(vec![Doc::Uint(1)])]);
    assert!(!code_matrix_is_valid(&not_text));
    assert!(CodeMatrix::from_json(&not_text).is_none());

    let not_row = Doc::Array(vec![texts(&["a"]), Doc::Null]);
    assert!(!code_matrix_is_valid(&not_row));
    assert!(CodeMatrix::from_json(&not_row).is_none());

    let square = Doc::Array(vec![texts(&["a", "b"]), texts(&["c", "d"])]);
    assert!(code_matrix_is_valid(&square));
    assert_eq!(CodeMatrix::from_json(&square).unwrap().get(1, 0), "c");
}

#[test]
fn sequences_round_trip() {
    let doc = board(nulls(1));
    assert!(sequences_is_valid(&doc));
    let programs = Programs::from_json(&doc).unwrap();
    assert_eq!(programs.len(), 3);
    let out = programs.to_json().unwrap();
    let expected = match &doc {
        Doc::Object(es) => &es[1].1,
        _ => unreachable!(),
    };
    assert_eq!(&out, expected);
}

#[test]
fn invalid_sequences_rejected() {
    let doc = Doc::Array(vec![texts(&["55"]), Doc::Array(vec![Doc::Text("bd".to_string()), Doc::Null])]);
    assert!(!sequences_is_valid(&doc));
    assert!(Programs::from_json(&doc).is_none());
    assert!(Sequence::from_json(&texts(&["bd", "55"])).is_some());
    assert!(Sequence::from_json(&Doc::Null).is_none());
    assert!(Sequence::from_json(&Doc::Array(vec![Doc::Uint(3)])).is_none());
}

#[test]
fn sequences_built_in_memory() {
    let q = Sequence::new(vec!["1c".to_string(), "e9".to_string()]);
    let programs = Programs::new(vec![q]);
    assert_eq!(programs.to_json().unwrap(), Doc::Array(vec![texts(&["1c", "e9"])]));
}

#[test]
fn board_validity() {
    assert!(valid_board(board(nulls(3))).is_some());
    let mut bad = board(nulls(3));
    match &mut bad {
        Doc::Object(es) => es[2].1 = Doc::Array(vec![texts(&["a", "b"]), texts(&["c"])]),
        _ => unreachable!(),
    }
    assert!(valid_board(bad).is_none());
    assert!(valid_board(nulls(2)).is_none());
}

fn gap_buffer() -> Buffer {
    let doc = Doc::Array(vec![Doc::Uint(1), Doc::Null, Doc::Uint(3), Doc::Uint(4)]);
    Buffer::from_json(&doc).unwrap()
}

#[test]
fn buffer_with_gap_from_document() {
    let gap = board(Doc::Array(vec![Doc::Null, Doc::Uint(1)]));
    assert!(buffer_is_valid(&gap));
    let buffer = Buffer::from_json(&gap).unwrap();
    assert_eq!(buffer.slots(), vec![None, Some(1)]);
    let again = buffer.to_json().unwrap();
    assert_eq!(again, Doc::Array(vec![Doc::Null, Doc::Uint(1)]));
}

#[test]
fn contains_stops_at_first_empty_slot() {
    let buffer = gap_buffer();
    assert_eq!(buffer.coord(3), Some((4, 3)));
    assert!(!buffer.contains((4, 3)));
    assert!(buffer.contains((0, 1)));
    assert_eq!(buffer.coord(1), None);
}

#[test]
fn pop_and_push_on_buffer_with_gap() {
    let doc = Doc::Array(vec![Doc::Null, Doc::Uint(1)]);
    let mut buffer = Buffer::from_json(&doc).unwrap();
    assert_eq!(buffer.pop(), Some(1));
    assert_eq!(buffer.slots(), vec![None, None]);

    let mut buffer = gap_buffer();
    assert_eq!(buffer.pop(), Some(1));
    assert_eq!(buffer.slots(), vec![None, None, Some(3), Some(4)]);
    buffer.push(7);
    assert_eq!(buffer.slots(), vec![Some(7), None, Some(3), Some(4)]);
    buffer.push(8);
    assert_eq!(buffer.slots(), vec![Some(7), Some(8), Some(3), Some(4)]);
    buffer.push(9);
    assert_eq!(buffer.slots(), vec![Some(7), Some(8), Some(3), Some(4)]);
    assert_eq!(buffer.pop(), Some(4));
}
