//! Conversions on concrete values: the layout of each kind of value, the
//! way back, and each mismatch.

use rust_caller::codec::{
    decode_block, decode_bool, decode_float, decode_int, decode_int32, decode_int64,
    decode_ints, decode_list, decode_option, decode_optional_string, decode_pair, decode_string,
    encode_block, encode_bool, encode_float, encode_int, encode_int32, encode_int64,
    encode_ints, encode_list, encode_option, encode_optional_string, encode_pair, encode_string,
    ShapeError,
};
use rust_caller::ocaml::{
    decode_movement, decode_record, encode_movement, encode_record, Movement, TestRecord,
};
use rust_caller::value::Value;

fn cell(head: Value, tail: Value) -> Value {
    Value::Block(0, vec![head, tail])
}

fn sample_record() -> TestRecord {
    TestRecord {
        i: 10,
        f: 5.0f64.to_bits(),
        i32: 10,
        i64: Box::new(10),
        s: "string".to_owned(),
        t: (10, 5.0f64.to_bits()),
    }
}

#[test]
fn integers_round_trip() {
    for n in [0, 1, -1, 10, i64::MAX, i64::MIN] {
        assert_eq!(encode_int(n), Value::Int(n));
        assert_eq!(decode_int(&encode_int(n)), Ok(n));
    }
}

#[test]
fn booleans_are_zero_and_one() {
    assert_eq!(encode_bool(false), Value::Int(0));
    assert_eq!(encode_bool(true), Value::Int(1));
    assert_eq!(decode_bool(&Value::Int(0)), Ok(false));
    assert_eq!(decode_bool(&Value::Int(1)), Ok(true));
    assert_eq!(decode_bool(&Value::Int(2)), Err(ShapeError::Tag));
    assert_eq!(decode_bool(&Value::Float(0)), Err(ShapeError::Kind));
}

#[test]
fn floats_round_trip_bit_for_bit() {
    for x in [0.0f64, -0.0, 5.0, 1.5e300, f64::INFINITY, f64::MIN_POSITIVE] {
        let v = encode_float(x.to_bits());
        assert_eq!(v, Value::Float(x.to_bits()));
        assert_eq!(decode_float(&v).map(f64::from_bits), Ok(x));
    }
    let nan = decode_float(&encode_float(f64::NAN.to_bits())).unwrap();
    assert_eq!(nan, f64::NAN.to_bits());
    assert_eq!(decode_float(&Value::Int(5)), Err(ShapeError::Kind));
}

#[test]
fn boxed_integers_round_trip_and_are_not_unboxed_ones() {
    assert_eq!(encode_int32(-7), Value::Int32(-7));
    assert_eq!(encode_int64(1 << 62), Value::Int64(1 << 62));
    assert_eq!(decode_int32(&encode_int32(i32::MIN)), Ok(i32::MIN));
    assert_eq!(decode_int64(&encode_int64(i64::MAX)), Ok(i64::MAX));
    assert_eq!(decode_int32(&Value::Int(1)), Err(ShapeError::Kind));
    assert_eq!(decode_int64(&Value::Int32(1)), Err(ShapeError::Kind));
    assert_eq!(decode_int(&Value::Int64(1)), Err(ShapeError::Kind));
}

#[test]
fn strings_are_their_utf8_bytes() {
    assert_eq!(encode_string("fst"), Value::Bytes(vec![102, 115, 116]));
    assert_eq!(encode_string(""), Value::Bytes(Vec::new()));
    assert_eq!(encode_string("é"), Value::Bytes(vec![0xc3, 0xa9]));
    for s in ["", "some", "0000000000000000", "héllo wörld", "日本語", "a\0b"] {
        assert_eq!(decode_string(&encode_string(s)), Ok(s.to_owned()));
    }
}

#[test]
fn bytes_that_are_not_utf8_are_not_a_string() {
    assert_eq!(decode_string(&Value::Bytes(vec![0xc3, 0xa9])), Ok("é".to_owned()));
    assert_eq!(decode_string(&Value::Bytes(vec![0xc3])), Err(ShapeError::Text));
    assert_eq!(decode_string(&Value::Bytes(vec![0xff])), Err(ShapeError::Text));
    assert_eq!(decode_string(&Value::Bytes(vec![0xed, 0xa0, 0x80])), Err(ShapeError::Text));
    assert_eq!(decode_string(&Value::Int(0)), Err(ShapeError::Kind));
}

#[test]
fn a_list_is_a_chain_of_cells_with_the_first_element_outermost() {
    assert_eq!(encode_ints(&Vec::new()), Value::Int(0));
    assert_eq!(
        encode_ints(&vec![7, 8, 9]),
        cell(Value::Int(7), cell(Value::Int(8), cell(Value::Int(9), Value::Int(0)))),
    );
    assert_eq!(
        encode_list(vec![encode_string("a"), encode_string("b")]),
        cell(Value::Bytes(vec![97]), cell(Value::Bytes(vec![98]), Value::Int(0))),
    );
}

#[test]
fn lists_of_integers_round_trip_in_order() {
    let ints = vec![0, 1, 2, 3, 4, 5, 6, 7, 8, 9];
    assert_eq!(decode_ints(&encode_ints(&ints)), Ok(ints));
    assert_eq!(decode_ints(&encode_ints(&vec![-5])), Ok(vec![-5]));
    assert_eq!(decode_ints(&Value::Int(0)), Ok(Vec::new()));
}

#[test]
fn a_long_list_is_read_in_a_loop() {
    let ints: Vec<i64> = (0..2000).collect();
    let encoded = encode_ints(&ints);
    assert_eq!(decode_list(&encoded).unwrap().len(), 2000);
    assert_eq!(decode_ints(&encoded), Ok(ints));
}

#[test]
fn the_elements_of_a_list_come_out_still_encoded() {
    let list = encode_list(vec![encode_string("a"), encode_int(3)]);
    let items = decode_list(&list).unwrap();
    assert_eq!(items, vec![&Value::Bytes(vec![97]), &Value::Int(3)]);
}

#[test]
fn what_is_not_a_list() {
    assert_eq!(decode_list(&Value::Int(1)), Err(ShapeError::Tag));
    assert_eq!(decode_list(&Value::Bytes(Vec::new())), Err(ShapeError::Kind));
    assert_eq!(
        decode_list(&Value::Block(1, vec![Value::Int(1), Value::Int(0)])),
        Err(ShapeError::Tag),
    );
    assert_eq!(decode_list(&Value::Block(0, vec![Value::Int(1)])), Err(ShapeError::Arity));
    assert_eq!(decode_list(&cell(Value::Int(1), Value::Int(3))), Err(ShapeError::Tag));
    assert_eq!(decode_list(&cell(Value::Int(1), Value::Float(0))), Err(ShapeError::Kind));
    assert_eq!(decode_ints(&cell(encode_string("x"), Value::Int(0))), Err(ShapeError::Kind));
    assert_eq!(
        decode_ints(&cell(encode_string("x"), Value::Int(5))),
        Err(ShapeError::Tag),
    );
}

#[test]
fn options_are_zero_or_a_block_of_one_slot() {
    assert_eq!(encode_option(None), Value::Int(0));
    assert_eq!(encode_option(Some(Value::Int(4))), Value::Block(0, vec![Value::Int(4)]));
    assert_eq!(decode_option(&encode_option(None)), Ok(None));
    assert_eq!(decode_option(&encode_option(Some(Value::Int(4)))), Ok(Some(&Value::Int(4))));
    assert_eq!(decode_option(&Value::Int(1)), Err(ShapeError::Tag));
    assert_eq!(decode_option(&Value::Block(1, vec![Value::Int(4)])), Err(ShapeError::Tag));
    assert_eq!(decode_option(&Value::Block(0, Vec::new())), Err(ShapeError::Arity));
    assert_eq!(decode_option(&Value::Float(0)), Err(ShapeError::Kind));
}

#[test]
fn optional_strings_round_trip() {
    assert_eq!(encode_optional_string(None), Value::Int(0));
    assert_eq!(
        encode_optional_string(Some("some")),
        Value::Block(0, vec![Value::Bytes(vec![115, 111, 109, 101])]),
    );
    assert_eq!(decode_optional_string(&encode_optional_string(None)), Ok(None));
    assert_eq!(
        decode_optional_string(&encode_optional_string(Some("some"))),
        Ok(Some("some".to_owned())),
    );
    assert_eq!(
        decode_optional_string(&Value::Block(0, vec![Value::Int(1)])),
        Err(ShapeError::Kind),
    );
}

#[test]
fn tuples_are_one_block_read_by_position() {
    let tuple = encode_block(0, vec![encode_int(1), encode_string("b"), encode_float(3)]);
    assert_eq!(
        tuple,
        Value::Block(0, vec![Value::Int(1), Value::Bytes(vec![98]), Value::Float(3)]),
    );
    let slots = decode_block(&tuple, 0, 3).unwrap();
    assert_eq!(decode_int(&slots[0]), Ok(1));
    assert_eq!(decode_string(&slots[1]), Ok("b".to_owned()));
    assert_eq!(decode_float(&slots[2]), Ok(3));
    assert_eq!(decode_block(&tuple, 0, 2), Err(ShapeError::Arity));
    assert_eq!(decode_block(&tuple, 0, 4), Err(ShapeError::Arity));
    assert_eq!(decode_block(&tuple, 1, 3), Err(ShapeError::Tag));
    assert_eq!(decode_block(&tuple, 1, 2), Err(ShapeError::Tag));
    assert_eq!(decode_block(&Value::Int(0), 0, 0), Err(ShapeError::Kind));
}

#[test]
fn pairs_of_a_string_and_an_integer_round_trip() {
    assert_eq!(
        encode_pair("fst", 9),
        Value::Block(0, vec![Value::Bytes(vec![102, 115, 116]), Value::Int(9)]),
    );
    assert_eq!(decode_pair(&encode_pair("fst", 9)), Ok(("fst".to_owned(), 9)));
    assert_eq!(decode_pair(&encode_pair("", i64::MIN)), Ok((String::new(), i64::MIN)));
    assert_eq!(
        decode_pair(&Value::Block(0, vec![Value::Int(9), Value::Int(9)])),
        Err(ShapeError::Kind),
    );
    assert_eq!(
        decode_pair(&Value::Block(0, vec![Value::Bytes(vec![0xff]), Value::Float(9)])),
        Err(ShapeError::Text),
    );
}

#[test]
fn a_record_is_one_block_with_the_fields_in_their_declared_order() {
    let five = 5.0f64.to_bits();
    assert_eq!(
        encode_record(&sample_record()),
        Value::Block(
            0,
            vec![
                Value::Int(10),
                Value::Float(five),
                Value::Int32(10),
                Value::Int64(10),
                Value::Bytes(vec![115, 116, 114, 105, 110, 103]),
                Value::Block(0, vec![Value::Int(10), Value::Float(five)]),
            ],
        ),
    );
}

#[test]
fn records_round_trip_slot_by_slot() {
    assert_eq!(decode_record(&encode_record(&sample_record())), Ok(sample_record()));
}

#[test]
fn what_is_not_a_record() {
    assert_eq!(decode_record(&Value::Int(0)), Err(ShapeError::Kind));
    assert_eq!(decode_record(&Value::Block(0, vec![Value::Int(10)])), Err(ShapeError::Arity));
    assert_eq!(decode_record(&Value::Block(3, Vec::new())), Err(ShapeError::Tag));
    let swapped = Value::Block(
        0,
        vec![
            Value::Float(0),
            Value::Int(10),
            Value::Int32(10),
            Value::Int64(10),
            Value::Bytes(Vec::new()),
            Value::Block(0, vec![Value::Int(10), Value::Float(0)]),
        ],
    );
    assert_eq!(decode_record(&swapped), Err(ShapeError::Kind));
    let short_tuple = Value::Block(
        0,
        vec![
            Value::Int(10),
            Value::Float(0),
            Value::Int32(10),
            Value::Int64(10),
            Value::Bytes(Vec::new()),
            Value::Block(0, vec![Value::Int(10)]),
        ],
    );
    assert_eq!(decode_record(&short_tuple), Err(ShapeError::Arity));
}

#[test]
fn the_cases_of_a_variant_are_numbered_in_their_declared_order() {
    assert_eq!(encode_movement(&Movement::Step(10)), Value::Block(0, vec![Value::Int(10)]));
    assert_eq!(encode_movement(&Movement::RotateLeft), Value::Int(0));
    assert_eq!(encode_movement(&Movement::RotateRight), Value::Int(1));
}

#[test]
fn variants_round_trip_with_case_and_payload() {
    let movements =
        [Movement::RotateLeft, Movement::RotateRight, Movement::Step(10), Movement::Step(-1)];
    for movement in movements {
        assert_eq!(decode_movement(&encode_movement(&movement)), Ok(movement));
    }
}

#[test]
fn what_is_not_a_movement() {
    assert_eq!(decode_movement(&Value::Int(2)), Err(ShapeError::Tag));
    assert_eq!(decode_movement(&Value::Int(-1)), Err(ShapeError::Tag));
    assert_eq!(decode_movement(&Value::Block(1, vec![Value::Int(1)])), Err(ShapeError::Tag));
    assert_eq!(decode_movement(&Value::Block(0, Vec::new())), Err(ShapeError::Arity));
    assert_eq!(decode_movement(&Value::Block(0, vec![Value::Float(1)])), Err(ShapeError::Kind));
    assert_eq!(decode_movement(&Value::Bytes(Vec::new())), Err(ShapeError::Kind));
}

#[test]
fn a_copy_is_equal_and_independent() {
    let first = encode_record(&sample_record());
    let copy = first.duplicate();
    assert_eq!(copy, first);
    drop(first);
    assert_eq!(decode_record(&copy), Ok(sample_record()));
}

#[test]
fn a_deep_value_is_taken_apart_in_a_loop() {
    let ints: Vec<i64> = (0..300_000).collect();
    let list = encode_ints(&ints);
    assert_eq!(decode_list(&list).unwrap().len(), 300_000);
    list.dismantle();
    encode_record(&sample_record()).dismantle();
    Value::Int(0).dismantle();
}

#[test]
fn a_long_list_is_copied_in_a_loop() {
    let ints: Vec<i64> = (0..200_000).collect();
    let list = encode_ints(&ints);
    let copy = list.duplicate();
    list.dismantle();
    assert_eq!(decode_ints(&copy), Ok(ints));
    copy.dismantle();
}

#[test]
fn a_copy_keeps_every_slot_in_its_place() {
    let nested = Value::Block(
        3,
        vec![
            Value::Block(1, vec![Value::Int(1), Value::Bytes(vec![2])]),
            Value::Block(7, Vec::new()),
            Value::Block(2, vec![Value::Float(3), Value::Block(0, vec![Value::Int64(4)])]),
        ],
    );
    assert_eq!(nested.duplicate(), nested);
    assert_eq!(Value::Block(9, Vec::new()).duplicate(), Value::Block(9, Vec::new()));
    assert_eq!(Value::Int32(5).duplicate(), Value::Int32(5));
}
