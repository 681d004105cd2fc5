//! The registered entry points, performed against a stand-in for the OCaml
//! side that does what the registered functions do.

use rust_caller::codec::{
    decode_int, decode_ints, decode_string, encode_bool, encode_ints, encode_optional_string,
    encode_pair, encode_string, ShapeError,
};
use rust_caller::ocaml::{decode_movement, decode_record, Movement, TestRecord};
use rust_caller::runtime::{Call, CallError, Reply, Runtime};
use rust_caller::value::Value;
use rust_caller::{
    allocate_alot, increment_bytes, increment_bytes_result, increment_ints_list,
    increment_ints_list_result, make_some, make_some_result, make_tuple, make_tuple_result,
    twice, twice_result, verify_record_test, verify_record_test_result, verify_variant_test,
    verify_variant_test_result,
};

fn ocaml_increment_bytes(args: &[Value]) -> Reply {
    let mut bytes = match &args[0] {
        Value::Bytes(bytes) => bytes.clone(),
        _ => return Reply::Raised("Invalid_argument".to_owned()),
    };
    let first_n = decode_int(&args[1]).unwrap();
    let mut i: usize = 0;
    while i < bytes.len() && (i as i64) < first_n {
        bytes[i] = bytes[i].wrapping_add(1);
        i += 1;
    }
    Reply::Returned(Value::Bytes(bytes))
}

fn ocaml_increment_ints_list(args: &[Value]) -> Reply {
    let ints = decode_ints(&args[0]).unwrap();
    let incremented: Vec<i64> = ints.iter().map(|n| n + 1).collect();
    Reply::Returned(encode_ints(&incremented))
}

fn ocaml_twice(args: &[Value]) -> Reply {
    Reply::Returned(Value::Int(2 * decode_int(&args[0]).unwrap()))
}

fn ocaml_make_tuple(args: &[Value]) -> Reply {
    let fst = decode_string(&args[0]).unwrap();
    let snd = decode_int(&args[1]).unwrap();
    Reply::Returned(encode_pair(&fst, snd))
}

fn ocaml_make_some(args: &[Value]) -> Reply {
    let value = decode_string(&args[0]).unwrap();
    Reply::Returned(encode_optional_string(Some(&value)))
}

fn ocaml_verify_record(args: &[Value]) -> Reply {
    let record = decode_record(&args[0]).unwrap();
    let valid = record.i == 10
        && f64::from_bits(record.f) == 5.0
        && record.i32 == 10
        && *record.i64 == 10
        && record.s == "string"
        && record.t.0 == 10
        && f64::from_bits(record.t.1) == 5.0;
    Reply::Returned(encode_bool(valid))
}

fn ocaml_stringify_variant(args: &[Value]) -> Reply {
    let text = match decode_movement(&args[0]).unwrap() {
        Movement::RotateLeft => "RotateLeft".to_owned(),
        Movement::RotateRight => "RotateRight".to_owned(),
        Movement::Step(count) => format!("Step({})", count),
    };
    Reply::Returned(encode_string(&text))
}

fn perform(call: &Call) -> Reply {
    match call.name.as_str() {
        "increment_bytes" => ocaml_increment_bytes(&call.args),
        "increment_ints_list" => ocaml_increment_ints_list(&call.args),
        "twice" => ocaml_twice(&call.args),
        "make_tuple" => ocaml_make_tuple(&call.args),
        "make_some" => ocaml_make_some(&call.args),
        "verify_record" => ocaml_verify_record(&call.args),
        "stringify_variant" => ocaml_stringify_variant(&call.args),
        other => Reply::Raised(format!("Not_found: {}", other)),
    }
}

fn started() -> Runtime {
    let mut rt = Runtime::new();
    rt.init_once();
    rt
}

fn stringify(rt: &mut Runtime, variant: Movement) -> Result<String, CallError> {
    let call = verify_variant_test(rt, variant);
    let reply = perform(&call);
    verify_variant_test_result(rt, reply)
}

#[test]
fn test_twice() {
    let mut rt = started();
    let call = twice(&mut rt, 10);
    let reply = perform(&call);
    assert_eq!(twice_result(&mut rt, reply), Ok(20));
}

#[test]
fn test_increment_bytes() {
    let mut rt = started();
    let call = increment_bytes(&mut rt, "0000000000000000", 10);
    let reply = perform(&call);
    assert_eq!(increment_bytes_result(&mut rt, reply), Ok("1111111111000000".to_owned()));
}

#[test]
fn test_increment_ints_list() {
    let mut rt = started();
    let ints = vec![0, 1, 2, 3, 4, 5, 6, 7, 8, 9];
    let expected = vec![1, 2, 3, 4, 5, 6, 7, 8, 9, 10];
    let call = increment_ints_list(&mut rt, &ints);
    let reply = perform(&call);
    assert_eq!(increment_ints_list_result(&mut rt, reply), Ok(expected));
}

#[test]
fn test_make_tuple() {
    let mut rt = started();
    let call = make_tuple(&mut rt, "fst".to_owned(), 9);
    let reply = perform(&call);
    assert_eq!(make_tuple_result(&mut rt, reply), Ok(("fst".to_owned(), 9)));
}

#[test]
fn test_make_some() {
    let mut rt = started();
    let call = make_some(&mut rt, "some".to_owned());
    let reply = perform(&call);
    assert_eq!(make_some_result(&mut rt, reply), Ok(Some("some".to_owned())));
}

#[test]
fn test_frame_management() {
    let mut rt = started();
    assert_eq!(allocate_alot(&mut rt), true);
}

#[test]
fn test_record_conversion() {
    let mut rt = started();
    let record = TestRecord {
        i: 10,
        f: 5.0f64.to_bits(),
        i32: 10,
        i64: Box::new(10),
        s: "string".to_owned(),
        t: (10, 5.0f64.to_bits()),
    };
    let call = verify_record_test(&mut rt, record);
    let reply = perform(&call);
    assert_eq!(verify_record_test_result(&mut rt, reply), Ok(true));
}

#[test]
fn test_variant_conversion() {
    let mut rt = started();
    assert_eq!(stringify(&mut rt, Movement::RotateLeft), Ok("RotateLeft".to_owned()));
    assert_eq!(stringify(&mut rt, Movement::RotateRight), Ok("RotateRight".to_owned()));
    assert_eq!(stringify(&mut rt, Movement::Step(10)), Ok("Step(10)".to_owned()));
}

#[test]
fn record_with_a_wrong_field_is_reported_invalid() {
    let mut rt = started();
    let record = TestRecord {
        i: 10,
        f: 5.0f64.to_bits(),
        i32: 11,
        i64: Box::new(10),
        s: "string".to_owned(),
        t: (10, 5.0f64.to_bits()),
    };
    let call = verify_record_test(&mut rt, record);
    let reply = perform(&call);
    assert_eq!(verify_record_test_result(&mut rt, reply), Ok(false));
}

#[test]
fn increment_bytes_sends_the_bytes_and_the_count() {
    let mut rt = started();
    let call = increment_bytes(&mut rt, "abc", 2);
    assert_eq!(call.name, "increment_bytes");
    assert_eq!(call.args, vec![Value::Bytes(vec![97, 98, 99]), Value::Int(2)]);
    assert_eq!(rt.depth(), 1);
    assert!(rt.keeps());
    assert!(rt.is_awaiting());
    let reply = perform(&call);
    assert_eq!(increment_bytes_result(&mut rt, reply), Ok("bcc".to_owned()));
    assert_eq!(rt.depth(), 0);
    assert!(!rt.is_awaiting());
}

#[test]
fn increment_bytes_with_a_count_past_the_end() {
    let mut rt = started();
    let call = increment_bytes(&mut rt, "09", 100);
    let reply = perform(&call);
    assert_eq!(increment_bytes_result(&mut rt, reply), Ok("1:".to_owned()));
}

#[test]
fn twice_sends_one_unboxed_integer_in_a_frame_without_roots() {
    let mut rt = started();
    let call = twice(&mut rt, -21);
    assert_eq!(call.name, "twice");
    assert_eq!(call.args, vec![Value::Int(-21)]);
    assert_eq!(rt.depth(), 1);
    assert!(!rt.keeps());
    let reply = perform(&call);
    assert_eq!(twice_result(&mut rt, reply), Ok(-42));
}

#[test]
fn increment_ints_list_of_nothing() {
    let mut rt = started();
    let call = increment_ints_list(&mut rt, &Vec::new());
    assert_eq!(call.args, vec![Value::Int(0)]);
    let reply = perform(&call);
    assert_eq!(increment_ints_list_result(&mut rt, reply), Ok(Vec::new()));
}

#[test]
fn make_tuple_sends_the_string_then_the_integer() {
    let mut rt = started();
    let call = make_tuple(&mut rt, "fst".to_owned(), 9);
    assert_eq!(call.name, "make_tuple");
    assert_eq!(call.args, vec![Value::Bytes(vec![102, 115, 116]), Value::Int(9)]);
    let reply = perform(&call);
    assert_eq!(make_tuple_result(&mut rt, reply), Ok(("fst".to_owned(), 9)));
}

#[test]
fn make_some_reads_an_absent_option() {
    let mut rt = started();
    let _call = make_some(&mut rt, "some".to_owned());
    let reply = Reply::Returned(encode_optional_string(None));
    assert_eq!(make_some_result(&mut rt, reply), Ok(None));
}

#[test]
fn a_failure_on_the_ocaml_side_is_an_error_with_its_description() {
    let mut rt = started();
    let _call = twice(&mut rt, 10);
    let reply = Reply::Raised("Stack_overflow".to_owned());
    assert_eq!(twice_result(&mut rt, reply), Err(CallError::Failed("Stack_overflow".to_owned())));
    assert_eq!(rt.depth(), 0);
    assert!(!rt.is_awaiting());
}

#[test]
fn a_reply_of_the_wrong_type_is_a_shape_error() {
    let mut rt = started();
    let _call = twice(&mut rt, 10);
    let reply = Reply::Returned(encode_string("20"));
    assert_eq!(twice_result(&mut rt, reply), Err(CallError::Shape(ShapeError::Kind)));

    let _call = increment_bytes(&mut rt, "0", 1);
    let reply = Reply::Returned(Value::Bytes(vec![0xff, 0xfe]));
    assert_eq!(increment_bytes_result(&mut rt, reply), Err(CallError::Shape(ShapeError::Text)));

    let _call = make_tuple(&mut rt, "fst".to_owned(), 9);
    let reply = Reply::Returned(Value::Block(0, vec![encode_string("fst")]));
    assert_eq!(make_tuple_result(&mut rt, reply), Err(CallError::Shape(ShapeError::Arity)));

    let _call = verify_record_test(
        &mut rt,
        TestRecord { i: 0, f: 0, i32: 0, i64: Box::new(0), s: String::new(), t: (0, 0) },
    );
    let reply = Reply::Returned(Value::Int(2));
    assert_eq!(verify_record_test_result(&mut rt, reply), Err(CallError::Shape(ShapeError::Tag)));
    assert_eq!(rt.depth(), 0);
}

#[test]
fn entry_points_are_bound_once_and_keep_their_place() {
    let mut rt = started();
    let first = twice(&mut rt, 1);
    let reply = perform(&first);
    assert_eq!(twice_result(&mut rt, reply), Ok(2));
    let other = make_some(&mut rt, "x".to_owned());
    let reply = perform(&other);
    assert_eq!(make_some_result(&mut rt, reply), Ok(Some("x".to_owned())));
    let again = twice(&mut rt, 2);
    assert_eq!(first.entry, 0);
    assert_eq!(other.entry, 1);
    assert_eq!(again.entry, 0);
    let reply = perform(&again);
    assert_eq!(twice_result(&mut rt, reply), Ok(4));
}

#[test]
fn allocate_alot_leaves_the_frames_as_they_were() {
    let mut rt = started();
    rt.open_frame();
    let depth = rt.depth();
    assert!(allocate_alot(&mut rt));
    assert_eq!(rt.depth(), depth);
    assert!(rt.keeps());
    assert!(!rt.is_awaiting());
    rt.close_frame();
    assert_eq!(rt.depth(), 0);
}

#[test]
fn a_list_of_two_hundred_thousand_integers_goes_through() {
    let mut rt = started();
    let ints: Vec<i64> = (0..200_000).collect();
    let call = increment_ints_list(&mut rt, &ints);
    let reply = perform(&call);
    call.release();
    let incremented = increment_ints_list_result(&mut rt, reply).unwrap();
    assert_eq!(incremented.len(), 200_000);
    assert_eq!(incremented[0], 1);
    assert_eq!(incremented[199_999], 200_000);
    assert_eq!(rt.depth(), 0);
}
