use csv2xlsx::codec::base64_encode;
use csv2xlsx::convert::plan_from_bytes;
use csv2xlsx::table::{build_spreadsheet, ConvertError, TabularDocument};
use csv2xlsx::tabular::parse_tabular;

fn doc(rows: Vec<Vec<&str>>) -> TabularDocument {
    TabularDocument {
        rows: rows
            .into_iter()
            .map(|r| r.into_iter().map(|s| s.to_string()).collect())
            .collect(),
    }
}

#[test]
fn minimal_scenario() {
    let input = b"a,b,c\n1,2,3\n".to_vec();
    let parsed = parse_tabular(&input).expect("well-formed input must parse");
    assert_eq!(
        parsed.rows,
        vec![
            vec!["a".to_string(), "b".to_string(), "c".to_string()],
            vec!["1".to_string(), "2".to_string(), "3".to_string()],
        ]
    );
    let sheet = build_spreadsheet(&parsed).expect("a 2 by 3 grid fits");
    let expected = [
        (0u32, 0u16, "a"),
        (0, 1, "b"),
        (0, 2, "c"),
        (1, 0, "1"),
        (1, 1, "2"),
        (1, 2, "3"),
    ];
    assert_eq!(sheet.cells.len(), expected.len());
    for (cell, (row, col, value)) in sheet.cells.iter().zip(expected.iter()) {
        assert_eq!(cell.row, *row);
        assert_eq!(cell.col, *col);
        assert_eq!(cell.value, *value);
    }
    let encoded = base64_encode(&input);
    assert!(encoded
        .chars()
        .all(|c| c.is_ascii_alphanumeric() || c == '+' || c == '/' || c == '='));
}

#[test]
fn ragged_rows_preserved() {
    let d = doc(vec![vec!["a", "b"], vec!["c", "d", "e", "f", "g"]]);
    let sheet = build_spreadsheet(&d).expect("a small ragged grid fits");
    assert_eq!(sheet.cells.len(), 7);
    assert_eq!(sheet.cells.iter().filter(|c| c.row == 0).count(), 2);
    assert_eq!(sheet.cells.iter().filter(|c| c.row == 1).count(), 5);
    let row1: Vec<&str> = sheet
        .cells
        .iter()
        .filter(|c| c.row == 1)
        .map(|c| c.value.as_str())
        .collect();
    assert_eq!(row1, vec!["c", "d", "e", "f", "g"]);
}

#[test]
fn ragged_rows_parse() {
    let input = b"a,b\nc,d,e,f,g\n".to_vec();
    let parsed = parse_tabular(&input).expect("ragged input must parse");
    assert_eq!(parsed.rows.len(), 2);
    assert_eq!(parsed.rows[0].len(), 2);
    assert_eq!(parsed.rows[1].len(), 5);
}

#[test]
fn quoted_fields_parse() {
    let input = b"\"a,b\",c\n\"say \"\"hi\"\"\",d\n".to_vec();
    let parsed = parse_tabular(&input).expect("quoted input must parse");
    assert_eq!(parsed.rows[0], vec!["a,b".to_string(), "c".to_string()]);
    assert_eq!(parsed.rows[1], vec!["say \"hi\"".to_string(), "d".to_string()]);
}

#[test]
fn empty_input_parses_to_zero_rows() {
    let parsed = parse_tabular(&Vec::new()).expect("empty input must parse");
    assert_eq!(parsed.rows.len(), 0);
    let sheet = build_spreadsheet(&parsed).expect("an empty grid fits");
    assert_eq!(sheet.cells.len(), 0);
}

#[test]
fn malformed_input_is_rejected() {
    let input = vec![b'a', b',', 0xff, 0xfe, b'\n'];
    assert!(matches!(
        parse_tabular(&input),
        Err(ConvertError::MalformedInput)
    ));
}

#[test]
fn too_many_columns_exceed_capacity() {
    let wide: Vec<&str> = vec!["x"; 16385];
    let d = doc(vec![wide]);
    assert!(matches!(
        build_spreadsheet(&d),
        Err(ConvertError::CapacityExceeded)
    ));
    let widest: Vec<&str> = vec!["x"; 16384];
    let d = doc(vec![widest]);
    assert!(build_spreadsheet(&d).is_ok());
}

#[test]
fn too_many_rows_exceed_capacity() {
    let d = TabularDocument {
        rows: vec![Vec::new(); 1048577],
    };
    assert!(matches!(
        build_spreadsheet(&d),
        Err(ConvertError::CapacityExceeded)
    ));
    let d = TabularDocument {
        rows: vec![Vec::new(); 1048576],
    };
    assert!(build_spreadsheet(&d).is_ok());
}

#[test]
fn empty_row_produces_no_cells() {
    let d = TabularDocument {
        rows: vec![Vec::new(), vec!["a".to_string()]],
    };
    let sheet = build_spreadsheet(&d).expect("an empty row fits");
    assert_eq!(sheet.cells.len(), 1);
    assert_eq!(sheet.cells[0].row, 1);
    assert_eq!(sheet.cells[0].col, 0);
    assert_eq!(sheet.cells[0].value, "a");
}

#[test]
fn pipeline_plans_cells_from_bytes() {
    let input = b"x,y\nz\n".to_vec();
    let sheet = plan_from_bytes(&input).expect("well-formed input must plan");
    assert_eq!(sheet.cells.len(), 3);
    assert_eq!(sheet.cells[2].row, 1);
    assert_eq!(sheet.cells[2].col, 0);
    assert_eq!(sheet.cells[2].value, "z");
}

#[test]
fn pipeline_propagates_malformed_input() {
    let input = vec![0xf0, 0x28, 0x8c, 0x28];
    assert!(matches!(
        plan_from_bytes(&input),
        Err(ConvertError::MalformedInput)
    ));
}
