use scylla_cql::codec::{decode_one_cell, decode_value, encode_cell, encode_value};
use scylla_cql::frame::{decode_frame, encode_frame, Frame, FrameOutcome, Opcode};
use scylla_cql::shape::{ExpectedType, FieldShape, RowDecodeError, RowShape};
use scylla_cql::types::{ColumnSpec, ColumnType, CqlValue, Row};
use scylla_cql::wire::{i16_to_u16, i32_to_u32, i64_to_u64, u16_to_i16, u32_to_i32, u64_to_i64};

fn spec(name: &str, typ: ColumnType) -> ColumnSpec {
    ColumnSpec { name: name.as_bytes().to_vec(), typ }
}

#[test]
fn round_trip_smallint() {
    let v = CqlValue::SmallInt(-1234);
    let cell = Some(v);
    let bytes = encode_cell(&cell);
    assert_eq!(bytes, vec![0x00, 0x00, 0x00, 0x02, 0xfb, 0x2e]);
    let (decoded, used) = decode_one_cell(&ColumnType::SmallInt, &bytes, 0).unwrap();
    assert_eq!(used, 6);
    assert_eq!(decoded, cell);
}

#[test]
fn round_trip_timestamp() {
    let cell = Some(CqlValue::Timestamp(-5_000_000_000));
    let bytes = encode_cell(&cell);
    let (decoded, used) = decode_one_cell(&ColumnType::Timestamp, &bytes, 0).unwrap();
    assert_eq!(used, 12);
    assert_eq!(decoded, cell);
}

#[test]
fn round_trip_text_and_blob() {
    let text = Some(CqlValue::Text(b"hello".to_vec()));
    let bytes = encode_cell(&text);
    let (decoded, _) = decode_one_cell(&ColumnType::Text, &bytes, 0).unwrap();
    assert_eq!(decoded, text);

    let blob = Some(CqlValue::Blob(vec![0x00, 0xff, 0x7f]));
    let bytes = encode_cell(&blob);
    let (decoded, _) = decode_one_cell(&ColumnType::Blob, &bytes, 0).unwrap();
    assert_eq!(decoded, blob);
}

#[test]
fn round_trip_nested_tuple() {
    let inner = CqlValue::Tuple(vec![
        Some(CqlValue::SmallInt(7)),
        None,
        Some(CqlValue::Text(b"x".to_vec())),
    ]);
    let cell = Some(inner);
    let typ = ColumnType::Tuple(vec![ColumnType::SmallInt, ColumnType::Blob, ColumnType::Text]);
    let bytes = encode_cell(&cell);
    let (decoded, used) = decode_one_cell(&typ, &bytes, 0).unwrap();
    assert_eq!(used, bytes.len());
    assert_eq!(decoded, cell);
}

#[test]
fn null_is_distinct_from_empty() {
    let null_cell: Option<CqlValue> = None;
    let empty_cell = Some(CqlValue::Blob(Vec::new()));
    let null_bytes = encode_cell(&null_cell);
    let empty_bytes = encode_cell(&empty_cell);
    assert_eq!(null_bytes, vec![0xff, 0xff, 0xff, 0xff]);
    assert_eq!(empty_bytes, vec![0x00, 0x00, 0x00, 0x00]);
    let (decoded_null, _) = decode_one_cell(&ColumnType::Blob, &null_bytes, 0).unwrap();
    let (decoded_empty, _) = decode_one_cell(&ColumnType::Blob, &empty_bytes, 0).unwrap();
    assert_eq!(decoded_null, None);
    assert_eq!(decoded_empty, Some(CqlValue::Blob(Vec::new())));
}

#[test]
fn negative_prefix_other_than_null_marker_is_malformed() {
    // -2 as a length prefix
    let bytes = vec![0xff, 0xff, 0xff, 0xfe];
    assert!(decode_one_cell(&ColumnType::Blob, &bytes, 0).is_err());
}

#[test]
fn truncated_cell_is_malformed() {
    let bytes = vec![0x00, 0x00, 0x00, 0x05, 0x01, 0x02];
    assert!(decode_one_cell(&ColumnType::Blob, &bytes, 0).is_err());
    let short = vec![0x00, 0x00];
    assert!(decode_one_cell(&ColumnType::Blob, &short, 0).is_err());
}

#[test]
fn smallint_demands_two_body_bytes() {
    assert!(decode_value(&ColumnType::SmallInt, &vec![0x01]).is_err());
    assert!(decode_value(&ColumnType::SmallInt, &vec![0x01, 0x02, 0x03]).is_err());
    assert_eq!(
        decode_value(&ColumnType::SmallInt, &vec![0x01, 0x02]).unwrap(),
        CqlValue::SmallInt(0x0102)
    );
}

#[test]
fn invalid_utf8_text_is_rejected() {
    let bad = vec![0xff, 0xfe, 0xfd];
    assert!(decode_value(&ColumnType::Text, &bad).is_err());
    assert!(decode_value(&ColumnType::Ascii, &bad).is_err());
    let good = b"ok".to_vec();
    assert_eq!(decode_value(&ColumnType::Text, &good).unwrap(), CqlValue::Text(good.clone()));
}

#[test]
fn tuple_with_leftover_bytes_is_rejected() {
    let typ = ColumnType::Tuple(vec![ColumnType::SmallInt]);
    let mut body = encode_cell(&Some(CqlValue::SmallInt(1)));
    body.push(0x00);
    assert!(decode_value(&typ, &body).is_err());
}

#[test]
fn untyped_row_decodes_and_leaves_trailing_bytes() {
    let specs = vec![spec("a", ColumnType::SmallInt), spec("b", ColumnType::Text)];
    let mut buf = Vec::new();
    buf.extend_from_slice(&encode_cell(&Some(CqlValue::SmallInt(3))));
    buf.extend_from_slice(&encode_cell(&Some(CqlValue::Text(b"def".to_vec()))));
    buf.extend_from_slice(&[0xaa, 0xbb]);
    let mut pos = 0usize;
    let row = Row::deserialize(&buf, &mut pos, &specs).unwrap();
    assert_eq!(pos, buf.len() - 2);
    assert_eq!(
        row.columns,
        vec![Some(CqlValue::SmallInt(3)), Some(CqlValue::Text(b"def".to_vec()))]
    );
}

#[test]
fn schema_validation_is_order_sensitive() {
    // column specs [int, text] against a static target (text, int)
    let specs = vec![spec("a", ColumnType::SmallInt), spec("b", ColumnType::Text)];
    let swapped = RowShape {
        fields: vec![
            FieldShape { typ: ExpectedType::Str, required: true },
            FieldShape { typ: ExpectedType::SmallInt, required: true },
        ],
    };
    assert!(swapped.match_column_specs(&specs).is_err());
    let in_order = RowShape {
        fields: vec![
            FieldShape { typ: ExpectedType::SmallInt, required: true },
            FieldShape { typ: ExpectedType::Str, required: true },
        ],
    };
    assert!(in_order.match_column_specs(&specs).is_ok());
}

#[test]
fn shape_count_mismatch_is_schema_error() {
    let specs = vec![spec("a", ColumnType::SmallInt)];
    let shape = RowShape {
        fields: vec![
            FieldShape { typ: ExpectedType::SmallInt, required: true },
            FieldShape { typ: ExpectedType::Str, required: true },
        ],
    };
    let mut pos = 0usize;
    let r = shape.deserialize(&Vec::new(), &mut pos, &specs);
    assert_eq!(r.unwrap_err(), RowDecodeError::SchemaMismatch);
}

#[test]
fn required_null_fails_optional_passes() {
    let specs = vec![spec("a", ColumnType::SmallInt)];
    let buf = encode_cell(&None);
    let required = RowShape {
        fields: vec![FieldShape { typ: ExpectedType::SmallInt, required: true }],
    };
    let mut pos = 0usize;
    assert_eq!(
        required.deserialize(&buf, &mut pos, &specs).unwrap_err(),
        RowDecodeError::RequiredNull
    );
    assert_eq!(pos, 0);
    let optional = RowShape {
        fields: vec![FieldShape { typ: ExpectedType::SmallInt, required: false }],
    };
    let cells = optional.deserialize(&buf, &mut pos, &specs).unwrap();
    assert_eq!(cells, vec![None]);
    assert_eq!(pos, 4);
}

#[test]
fn end_to_end_three_column_row() {
    // a query against a 3-column result {int, int, text} with one
    // row {3, 4, "def"}: static triple and tagged form agree
    let specs = vec![
        spec("x", ColumnType::SmallInt),
        spec("y", ColumnType::SmallInt),
        spec("z", ColumnType::Text),
    ];
    let mut buf = Vec::new();
    buf.extend_from_slice(&[0x00, 0x00, 0x00, 0x02, 0x00, 0x03]);
    buf.extend_from_slice(&[0x00, 0x00, 0x00, 0x02, 0x00, 0x04]);
    buf.extend_from_slice(&[0x00, 0x00, 0x00, 0x03, b'd', b'e', b'f']);

    let shape = RowShape {
        fields: vec![
            FieldShape { typ: ExpectedType::SmallInt, required: true },
            FieldShape { typ: ExpectedType::SmallInt, required: true },
            FieldShape { typ: ExpectedType::Str, required: true },
        ],
    };
    let mut pos = 0usize;
    let typed = shape.deserialize(&buf, &mut pos, &specs).unwrap();
    assert_eq!(pos, buf.len());
    assert_eq!(
        typed,
        vec![
            Some(CqlValue::SmallInt(3)),
            Some(CqlValue::SmallInt(4)),
            Some(CqlValue::Text(b"def".to_vec())),
        ]
    );

    let mut pos2 = 0usize;
    let row = Row::deserialize(&buf, &mut pos2, &specs).unwrap();
    assert_eq!(pos2, buf.len());
    assert_eq!(row.columns, typed);
}

#[test]
fn value_body_round_trips() {
    for v in [
        CqlValue::SmallInt(i16::MIN),
        CqlValue::SmallInt(i16::MAX),
        CqlValue::Timestamp(i64::MIN),
        CqlValue::Timestamp(i64::MAX),
        CqlValue::Ascii(b"abc".to_vec()),
        CqlValue::Text(Vec::new()),
    ] {
        let typ = match &v {
            CqlValue::SmallInt(_) => ColumnType::SmallInt,
            CqlValue::Timestamp(_) => ColumnType::Timestamp,
            CqlValue::Ascii(_) => ColumnType::Ascii,
            CqlValue::Text(_) => ColumnType::Text,
            CqlValue::Blob(_) => ColumnType::Blob,
            CqlValue::Tuple(_) => unreachable!(),
        };
        let body = encode_value(&v);
        assert_eq!(decode_value(&typ, &body).unwrap(), v);
    }
}

#[test]
fn signed_conversions_round_trip() {
    assert_eq!(u16_to_i16(i16_to_u16(-1)), -1);
    assert_eq!(i16_to_u16(-1), 0xffff);
    assert_eq!(u32_to_i32(i32_to_u32(i32::MIN)), i32::MIN);
    assert_eq!(u64_to_i64(i64_to_u64(i64::MAX)), i64::MAX);
    assert_eq!(i32_to_u32(-1), 0xffff_ffff);
    assert_eq!(u64_to_i64(0x8000_0000_0000_0000), i64::MIN);
}

#[test]
fn frame_round_trip() {
    let f = Frame {
        version: 0x04,
        flags: 0x00,
        stream: 0x0102,
        opcode: Opcode::Query,
        body: vec![1, 2, 3, 4, 5],
    };
    let bytes = encode_frame(&f);
    assert_eq!(bytes.len(), 14);
    assert_eq!(bytes[4], 0x07);
    match decode_frame(&bytes) {
        FrameOutcome::Complete(g, used) => {
            assert_eq!(used, 14);
            assert_eq!(g, f);
        },
        other => panic!("expected a complete frame, got {:?}", other),
    }
}

#[test]
fn short_frame_needs_more_data() {
    let f = Frame {
        version: 0x04,
        flags: 0x00,
        stream: 7,
        opcode: Opcode::Prepare,
        body: vec![9; 10],
    };
    let bytes = encode_frame(&f);
    let partial = bytes[..bytes.len() - 1].to_vec();
    assert_eq!(decode_frame(&partial), FrameOutcome::Incomplete);
    assert_eq!(decode_frame(&vec![0x04, 0x00]), FrameOutcome::Incomplete);
}

#[test]
fn unknown_opcode_is_malformed() {
    let bytes = vec![0x04, 0x00, 0x00, 0x01, 0x42, 0x00, 0x00, 0x00, 0x00];
    assert_eq!(decode_frame(&bytes), FrameOutcome::Malformed);
}

#[test]
fn frame_decode_leaves_trailing_bytes() {
    let f = Frame {
        version: 0x04,
        flags: 0x01,
        stream: 1,
        opcode: Opcode::Startup,
        body: Vec::new(),
    };
    let mut bytes = encode_frame(&f);
    bytes.extend_from_slice(&[0xde, 0xad]);
    match decode_frame(&bytes) {
        FrameOutcome::Complete(g, used) => {
            assert_eq!(used, 9);
            assert_eq!(g, f);
        },
        other => panic!("expected a complete frame, got {:?}", other),
    }
}
