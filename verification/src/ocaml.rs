//! The native mirrors of two types that the managed side declares, and how
//! each is laid out.
//!
//! Nothing in a managed value says which type it has: a record is a block of
//! slots, a case of a variant is a number. What makes the two sides agree is
//! the order written down here, field by field and case by case.

use crate::codec::{
    decode_block, decode_float, decode_int, decode_int32, decode_int64, decode_string,
    encode_block, encode_float, encode_int, encode_int32, encode_int64, encode_string,
    law_string_layout, law_string_round_trip, read_block, read_float, read_int, read_int32,
    read_int64, read_string, string_tree, tuple_tree, ShapeError,
};
use crate::value::{lemma_trees, trees, Tree, Value};
use vstd::prelude::*;

verus! {

/// A record of six fields, one of each kind of encoding.
#[derive(Debug, PartialEq, Eq)]
pub struct TestRecord {
    /// An unboxed integer.
    pub i: i64,
    /// A floating-point number, held as its IEEE-754 bit pattern.
    pub f: u64,
    /// A boxed 32-bit integer.
    pub i32: i32,
    /// A boxed 64-bit integer.
    pub i64: Box<i64>,
    /// A string.
    pub s: String,
    /// A tuple of an unboxed integer and a floating-point number, the latter
    /// as its bit pattern.
    pub t: (i64, u64),
}

/// A `TestRecord`, as mathematics.
pub struct TestRecordView {
    pub i: i64,
    pub f: u64,
    pub i32: i32,
    pub i64: i64,
    pub s: Seq<char>,
    pub t: (i64, u64),
}

impl View for TestRecord {
    type V = TestRecordView;

    open spec fn view(&self) -> TestRecordView {
        TestRecordView {
            i: self.i,
            f: self.f,
            i32: self.i32,
            i64: *self.i64,
            s: self.s@,
            t: self.t,
        }
    }
}

/// A movement: one case with a payload, two without.
#[derive(Debug, Clone, Copy, PartialEq, Eq, Structural)]
pub enum Movement {
    Step(i64),
    RotateLeft,
    RotateRight,
}

/// A record is one block with tag 0; its slots are the fields in the order
/// of their declaration, each in its own encoding.
pub open spec fn record_tree(record: TestRecordView) -> Tree {
    tuple_tree(
        seq![
            Tree::Int(record.i),
            Tree::Float(record.f),
            Tree::Int32(record.i32),
            Tree::Int64(record.i64),
            string_tree(record.s),
            tuple_tree(seq![Tree::Int(record.t.0), Tree::Float(record.t.1)]),
        ],
    )
}

/// Reads a tree as the last field of a record, a tuple of an integer and a
/// floating-point number.
pub open spec fn read_record_tuple(t: Tree) -> Result<(i64, u64), ShapeError> {
    match read_block(t, 0, 2) {
        Ok(slots) => match read_int(slots[0]) {
            Ok(n) => match read_float(slots[1]) {
                Ok(bits) => Ok((n, bits)),
                Err(e) => Err(e),
            },
            Err(e) => Err(e),
        },
        Err(e) => Err(e),
    }
}

/// Reads the six slots of a record, from the first to the last. The
/// mismatch reported is that of the first slot that has one.
pub open spec fn read_record_slots(slots: Seq<Tree>) -> Result<TestRecordView, ShapeError> {
    match read_int(slots[0]) {
        Ok(i) => match read_float(slots[1]) {
            Ok(f) => match read_int32(slots[2]) {
                Ok(i32) => match read_int64(slots[3]) {
                    Ok(i64) => match read_string(slots[4]) {
                        Ok(s) => match read_record_tuple(slots[5]) {
                            Ok(t) => Ok(TestRecordView { i, f, i32, i64, s, t }),
                            Err(e) => Err(e),
                        },
                        Err(e) => Err(e),
                    },
                    Err(e) => Err(e),
                },
                Err(e) => Err(e),
            },
            Err(e) => Err(e),
        },
        Err(e) => Err(e),
    }
}

/// Reads a tree as a record: the block with its six slots, then the slots.
pub open spec fn read_record(t: Tree) -> Result<TestRecordView, ShapeError> {
    match read_block(t, 0, 6) {
        Ok(slots) => read_record_slots(slots),
        Err(e) => Err(e),
    }
}

/// A case without payload is the unboxed integer that counts it among the
/// cases without payload; a case with payload is a block whose tag counts it
/// among the cases with payload and whose only slot is the payload. Both
/// counts start at 0 and follow the order of declaration.
pub open spec fn movement_tree(movement: Movement) -> Tree {
    match movement {
        Movement::Step(count) => Tree::Block(0, seq![Tree::Int(count)]),
        Movement::RotateLeft => Tree::Int(0),
        Movement::RotateRight => Tree::Int(1),
    }
}

/// Reads a tree as a movement. Whether the value is unboxed or a block is
/// looked at first, then the case, then the payload.
pub open spec fn read_movement(t: Tree) -> Result<Movement, ShapeError> {
    match t {
        Tree::Int(n) => if n == 0 {
            Ok(Movement::RotateLeft)
        } else if n == 1 {
            Ok(Movement::RotateRight)
        } else {
            Err(ShapeError::Tag)
        },
        _ => match read_block(t, 0, 1) {
            Ok(slots) => match read_int(slots[0]) {
                Ok(count) => Ok(Movement::Step(count)),
                Err(e) => Err(e),
            },
            Err(e) => Err(e),
        },
    }
}

/// A decoded record, or the mismatch, as mathematics.
pub open spec fn record_view(r: Result<TestRecord, ShapeError>) -> Result<
    TestRecordView,
    ShapeError,
> {
    match r {
        Ok(record) => Ok(record@),
        Err(e) => Err(e),
    }
}

/// A record as one managed block.
pub fn encode_record(record: &TestRecord) -> (v: Value)
    ensures
        v@ == record_tree(record@),
{
    let pair = vec![encode_int(record.t.0), encode_float(record.t.1)];
    proof {
        lemma_trees(pair@);
        assert(trees(pair@) =~= seq![Tree::Int(record.t.0), Tree::Float(record.t.1)]);
    }
    let slots = vec![
        encode_int(record.i),
        encode_float(record.f),
        encode_int32(record.i32),
        encode_int64(*record.i64),
        encode_string(record.s.as_str()),
        encode_block(0, pair),
    ];
    proof {
        lemma_trees(slots@);
        assert(trees(slots@) =~= record_tree(record@)->Block_1);
    }
    encode_block(0, slots)
}

/// The record that a managed block holds, read slot by slot in the order of
/// the fields.
pub fn decode_record(v: &Value) -> (r: Result<TestRecord, ShapeError>)
    ensures
        record_view(r) == read_record(v@),
{
    let slots = decode_block(v, 0, 6)?;
    proof {
        lemma_trees(slots@);
    }
    let i = decode_int(&slots[0])?;
    let f = decode_float(&slots[1])?;
    let i32 = decode_int32(&slots[2])?;
    let i64 = decode_int64(&slots[3])?;
    let s = decode_string(&slots[4])?;
    let pair = decode_block(&slots[5], 0, 2)?;
    proof {
        lemma_trees(pair@);
    }
    let first = decode_int(&pair[0])?;
    let second = decode_float(&pair[1])?;
    Ok(TestRecord { i, f, i32, i64: Box::new(i64), s, t: (first, second) })
}

/// A movement as a managed value.
pub fn encode_movement(movement: &Movement) -> (v: Value)
    ensures
        v@ == movement_tree(*movement),
{
    match movement {
        Movement::Step(count) => {
            let slots = vec![encode_int(*count)];
            proof {
                lemma_trees(slots@);
                assert(trees(slots@) =~= seq![Tree::Int(*count)]);
            }
            encode_block(0, slots)
        },
        Movement::RotateLeft => encode_int(0),
        Movement::RotateRight => encode_int(1),
    }
}

/// The movement that a managed value holds.
pub fn decode_movement(v: &Value) -> (r: Result<Movement, ShapeError>)
    ensures
        r == read_movement(v@),
{
    match v {
        Value::Int(n) => {
            if *n == 0 {
                Ok(Movement::RotateLeft)
            } else if *n == 1 {
                Ok(Movement::RotateRight)
            } else {
                Err(ShapeError::Tag)
            }
        },
        _ => {
            let slots = decode_block(v, 0, 1)?;
            proof {
                lemma_trees(slots@);
            }
            let count = decode_int(&slots[0])?;
            Ok(Movement::Step(count))
        },
    }
}

/// A record reads back as the same record, field for field.
pub proof fn law_record_round_trip(record: TestRecordView)
    ensures
        read_record(record_tree(record)) == Ok::<TestRecordView, ShapeError>(record),
{
    law_string_round_trip(record.s);
}

/// A tree that reads as a record is the layout of that record: the slots
/// hold nothing that the fields do not.
pub proof fn law_record_layout(t: Tree, record: TestRecordView)
    requires
        read_record(t) == Ok::<TestRecordView, ShapeError>(record),
    ensures
        t == record_tree(record),
{
    let slots = t->Block_1;
    let pair = slots[5]->Block_1;
    law_string_layout(slots[4], record.s);
    assert(pair =~= seq![Tree::Int(record.t.0), Tree::Float(record.t.1)]);
    assert(slots =~= record_tree(record)->Block_1);
}

/// A tree that reads as a movement is the layout of that movement.
pub proof fn law_movement_layout(t: Tree, movement: Movement)
    requires
        read_movement(t) == Ok::<Movement, ShapeError>(movement),
    ensures
        t == movement_tree(movement),
{
    if let Tree::Block(_, slots) = t {
        assert(slots =~= seq![slots[0]]);
    }
}

/// A movement reads back as the same case with the same payload, and no two
/// movements are laid out alike.
pub proof fn law_movement_round_trip(movement: Movement, other: Movement)
    ensures
        read_movement(movement_tree(movement)) == Ok::<Movement, ShapeError>(movement),
        movement_tree(movement) == movement_tree(other) ==> movement == other,
{
    if movement_tree(movement) == movement_tree(other) {
        if let Movement::Step(count) = movement {
            assert(seq![Tree::Int(count)][0] == Tree::Int(count));
        }
    }
}

} // verus!
