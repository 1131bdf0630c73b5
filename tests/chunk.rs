use coprocessor_chunk::chunk::{ArcChunk, Chunk, FieldType};
use coprocessor_chunk::column::Column;
use coprocessor_chunk::datum::Datum;
use coprocessor_chunk::types;

fn new_chunk(elem_len: &[i32]) -> Chunk {
    let mut cols = Vec::with_capacity(elem_len.len());
    for l in elem_len {
        let col = if *l > 0 {
            Column::new_fixed_column(*l as usize, 0)
        } else if *l == 0 {
            Column::new_var_len_column(0)
        } else {
            Column::new_interface_column(0)
        };
        cols.push(col);
    }
    Chunk::from_columns(cols)
}

fn assert_same_columns(left: &Column, right: &Column) {
    assert_eq!(left.len(), right.len());
    assert_eq!(left.null_count(), right.null_count());
    assert_eq!(left.null_bitmap(), right.null_bitmap());
    assert_eq!(left.data(), right.data());
    assert_eq!(left.fixed_len(), right.fixed_len());
    assert_eq!(left.offsets(), right.offsets());
    assert_eq!(left.interfaces(), right.interfaces());
}

#[test]
fn test_chunk() {
    let cols_cnt = 6;
    let rows_cnt = 10;
    let mut chunk = new_chunk(&[8, 8, 0, 0, -1, -1]);
    for i in 0..rows_cnt {
        chunk.append_null(0);
        chunk.append_i64(1, i as i64);
        let s = format!("{}.12345", i);
        chunk.append_str(2, s.clone());
        chunk.append_bytes(3, s.clone().as_bytes());
        chunk.append_interface(4, Datum::Dec(s.clone()));
        chunk.append_interface(5, Datum::Json(format!("{}", i)));
    }

    assert_eq!(chunk.num_cols(), cols_cnt);
    assert_eq!(chunk.num_rows(), rows_cnt);
    let arc_chunk = ArcChunk::new(chunk);
    for i in 0..rows_cnt {
        let row = arc_chunk.get_row(i);
        assert_eq!(row.get_i64(0), 0 as i64);
        assert!(row.is_null(0));

        assert_eq!(row.get_i64(1), i as i64);
        let s = format!("{}.12345", i);
        assert!(!row.is_null(2));
        assert_eq!(row.get_str(2), s.clone());
        assert!(!row.is_null(3));
        assert_eq!(row.get_bytes(3), s.as_bytes());
        assert!(!row.is_null(4));
        assert_eq!(row.get_interface(4), Datum::Dec(s.clone()));
        assert!(!row.is_null(5));
        assert_eq!(row.get_interface(5), Datum::Json(format!("{}", i)));
    }

    let mut chunk2 = new_chunk(&[8, 8, 0, 0, -1, -1]);
    for i in 0..rows_cnt {
        let row = arc_chunk.get_row(i);
        chunk2.append_row(0, row);
    }
    for i in 0..cols_cnt {
        assert_same_columns(chunk2.column(i), arc_chunk.chunk().column(i));
    }
}

#[test]
fn varlen_scenario_offsets_bitmap_and_data() {
    let mut col = Column::new_var_len_column(0);
    col.append_null();
    col.append_bytes(b"a");
    col.append_null();
    col.append_str("bb".to_string());
    assert_eq!(col.offsets(), &[0usize, 0, 1, 1, 3][..]);
    assert_eq!(col.null_bitmap(), &[0b1010u8][..]);
    assert_eq!(col.data(), b"abb");
    assert_eq!(col.null_count(), 2);
    assert_eq!(col.len(), 4);
}

#[test]
fn fixed_round_trip_of_integers() {
    let mut col = Column::new(types::LONG_LONG, 4);
    let values = [0i64, 1, -1, i64::MIN, i64::MAX, 0x0102_0304_0506_0708];
    for v in values.iter() {
        col.append_i64(*v);
    }
    col.append_u64(u64::MAX);
    for (i, v) in values.iter().enumerate() {
        assert_eq!(col.get_i64(i), *v);
        assert!(!col.is_null(i));
    }
    assert_eq!(col.get_u64(values.len()), u64::MAX);
    assert_eq!(&col.data()[40..48], &[8u8, 7, 6, 5, 4, 3, 2, 1][..]);
}

#[test]
fn float_bits_round_trip() {
    let mut col = Column::new(types::DOUBLE, 2);
    let x: f64 = -2.5e-3;
    let y: f32 = 1.25;
    col.append_u64(x.to_bits());
    col.append_u64(y.to_bits() as u64);
    assert_eq!(f64::from_bits(col.get_u64(0)).to_bits(), x.to_bits());
    assert_eq!(f32::from_bits(col.get_u64(1) as u32).to_bits(), y.to_bits());
}

#[test]
fn null_flags_follow_appends() {
    let mut col = Column::new(types::NEW_DECIMAL, 0);
    for i in 0..20 {
        if i % 3 == 0 {
            col.append_null();
        } else {
            col.append_interface(Datum::I64(i));
        }
    }
    for i in 0..20usize {
        assert_eq!(col.is_null(i), i % 3 == 0);
    }
    assert_eq!(col.null_count(), 7);
    assert_eq!(col.get_interface(1), Datum::I64(1));
}

#[test]
fn truncate_keeps_prefix_and_recounts_nulls() {
    let mut chunk = Chunk::new_chunk(&[types::LONG as i32, types::VARCHAR as i32, types::JSON as i32]);
    for i in 0..20 {
        if i % 2 == 0 {
            chunk.append_null(0);
            chunk.append_null(1);
            chunk.append_null(2);
        } else {
            chunk.append_i64(0, i);
            chunk.append_bytes(1, b"xy");
            chunk.append_interface(2, Datum::Json("1".to_string()));
        }
    }
    chunk.truncate_to(9);
    assert_eq!(chunk.num_rows(), 9);
    for c in 0..3 {
        assert_eq!(chunk.column(c).null_count(), 5);
        assert_eq!(chunk.column(c).len(), 9);
        assert_eq!(chunk.column(c).null_bitmap().len(), 2);
    }
    assert_eq!(chunk.column(0).data().len(), 72);
    assert_eq!(chunk.column(1).offsets(), &[0usize, 0, 2, 2, 4, 4, 6, 6, 8, 8][..]);
    assert_eq!(chunk.column(1).data(), b"xyxyxyxy");
    // rows appended after a truncation read back with the right null flags
    chunk.append_null(0);
    chunk.append_i64(0, 5);
    assert!(chunk.column(0).is_null(9));
    assert!(!chunk.column(0).is_null(10));
    chunk.truncate_to(0);
    assert_eq!(chunk.num_rows(), 0);
    assert_eq!(chunk.column(1).offsets(), &[0usize][..]);
}

#[test]
fn range_copy_rebases_offsets() {
    let mut src = Column::new_var_len_column(0);
    src.append_bytes(b"abc");
    src.append_bytes(b"");
    src.append_null();
    src.append_bytes(b"de");
    src.append_bytes(b"f");
    let mut dst = Column::new_var_len_column(0);
    dst.append(&src, 1, 5);
    assert_eq!(dst.offsets(), &[0usize, 0, 0, 2, 3][..]);
    assert_eq!(dst.data(), b"def");
    assert!(dst.is_null(1));
    assert!(!dst.is_null(0));
    let mut more = Column::new_var_len_column(0);
    more.append_bytes(b"zz");
    more.append(&src, 0, 1);
    assert_eq!(more.offsets(), &[0usize, 2, 5][..]);
    assert_eq!(more.data(), b"zzabc");
}

#[test]
fn chunk_append_range_and_reset() {
    let tps = [types::LONG_LONG as i32, types::STRING as i32, types::DURATION as i32];
    let mut a = Chunk::new_chunk(&tps);
    for i in 0..5 {
        a.append_u64(0, i as u64);
        a.append_str(1, format!("r{}", i));
        a.append_interface(2, Datum::Dur(i));
    }
    let mut b = Chunk::new_chunk(&tps);
    b.append(&a, 1, 4);
    assert_eq!(b.num_rows(), 3);
    assert_eq!(b.column(0).get_u64(0), 1);
    assert_eq!(b.column(1).get_str(2), "r3");
    assert_eq!(b.column(2).get_interface(1), Datum::Dur(2));
    b.reset();
    assert_eq!(b.num_rows(), 0);
    assert_eq!(b.num_cols(), 3);
    assert_eq!(b.column(1).offsets(), &[0usize][..]);
    let mut c = Chunk::new_chunk(&[]);
    assert_eq!(c.num_rows(), 0);
    c.swap_columns(&mut a);
    assert_eq!(c.num_rows(), 5);
    assert_eq!(a.num_cols(), 0);
}

#[test]
fn cursor_walks_rows_and_decodes_by_type() {
    let tps = [types::LONG as i32, types::LONG as i32, types::DOUBLE as i32, types::BLOB as i32, types::NEW_DECIMAL as i32];
    let mut chunk = Chunk::new_chunk(&tps);
    chunk.append_i64(0, -7);
    chunk.append_i64(1, -7);
    chunk.append_u64(2, 1.5f64.to_bits());
    chunk.append_bytes(3, b"q");
    chunk.append_interface(4, Datum::Dec("1.5".to_string()));
    chunk.append_null(0);
    chunk.append_null(1);
    chunk.append_null(2);
    chunk.append_null(3);
    chunk.append_null(4);
    let shared = ArcChunk::new(chunk);
    let signed = FieldType { tp: types::LONG as i32, flag: 0 };
    let unsigned = FieldType { tp: types::LONG as i32, flag: types::UNSIGNED_FLAG as u32 };
    let double = FieldType { tp: types::DOUBLE as i32, flag: 0 };
    let blob = FieldType { tp: types::BLOB as i32, flag: 0 };
    let dec = FieldType { tp: types::NEW_DECIMAL as i32, flag: 0 };
    let row = shared.begin();
    assert_eq!(row.idx(), 0);
    assert_eq!(row.len(), 5);
    assert_eq!(row.get_datum(0, &signed), Datum::I64(-7));
    assert_eq!(row.get_datum(1, &unsigned), Datum::U64((-7i64) as u64));
    assert_eq!(row.get_datum(2, &double), Datum::F64(1.5f64.to_bits()));
    assert_eq!(row.get_datum(3, &blob), Datum::Bytes(b"q".to_vec()));
    assert_eq!(row.get_datum(4, &dec), Datum::Dec("1.5".to_string()));
    let row = row.next();
    assert_eq!(row.get_datum(0, &signed), Datum::Null);
    assert_eq!(row.get_datum(3, &blob), Datum::Null);
    let end = shared.end();
    assert_eq!(end.idx(), 2);
    assert_eq!(row.next().idx(), end.idx());
}
