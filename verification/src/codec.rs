//! Conversions between native values and managed values.
//!
//! Each conversion comes as a pair. The `*_tree` functions say how a native
//! value is laid out; the `read_*` functions say what a tree means when it is
//! read back as a given type, and which mismatch is reported when it cannot
//! be. The executable `encode_*` and `decode_*` functions compute exactly
//! these, and the `law_*` proofs show that reading undoes writing.

use crate::value::{lemma_trees, trees, Tree, Value};
use vstd::prelude::*;
use vstd::string::*;
use vstd::utf8::*;

verus! {

/// Why a managed value cannot be read as the type that was asked for.
#[derive(Debug, Clone, Copy, PartialEq, Eq, Structural)]
pub enum ShapeError {
    /// The value is of another kind: a block where an unboxed integer was
    /// expected, bytes where a block was expected, and so on.
    Kind,
    /// The block has the wrong number of slots.
    Arity,
    /// The block's tag, or the unboxed integer that stands for a payload-free
    /// case, is not one that the type has.
    Tag,
    /// The bytes are not UTF-8.
    Text,
}

// ---------------------------------------------------------------------------
// Layout
// ---------------------------------------------------------------------------

/// A boolean is the unboxed integer 0 or 1.
pub open spec fn bool_tree(b: bool) -> Tree {
    Tree::Int(if b { 1 } else { 0 })
}

/// A string is the bytes of its UTF-8 encoding.
pub open spec fn string_tree(s: Seq<char>) -> Tree {
    Tree::Bytes(encode_utf8(s))
}

/// An absent option is the unboxed integer 0; a present one is a block with
/// tag 0 and the payload as its only slot.
pub open spec fn option_tree(payload: Option<Tree>) -> Tree {
    match payload {
        None => Tree::Int(0),
        Some(t) => Tree::Block(0, seq![t]),
    }
}

/// A tuple, and likewise a record, is one block with tag 0 whose slots are
/// the components in their declared order.
pub open spec fn tuple_tree(items: Seq<Tree>) -> Tree {
    Tree::Block(0, items)
}

/// A chain of list cells holding `items` in order and ending in `tail`. A
/// cell is a block with tag 0 and two slots: the element, then the rest.
pub open spec fn chain_tree(items: Seq<Tree>, tail: Tree) -> Tree
    decreases items.len(),
{
    if items.len() == 0 {
        tail
    } else {
        Tree::Block(0, seq![items[0], chain_tree(items.drop_first(), tail)])
    }
}

/// A list is a chain of cells, first element outermost, ending in the
/// unboxed integer 0.
pub open spec fn list_tree(items: Seq<Tree>) -> Tree {
    chain_tree(items, Tree::Int(0))
}

/// The trees of a sequence of integers.
pub open spec fn int_trees(xs: Seq<i64>) -> Seq<Tree> {
    Seq::new(xs.len(), |i: int| Tree::Int(xs[i]))
}

// ---------------------------------------------------------------------------
// Meaning
// ---------------------------------------------------------------------------

/// Reads a tree as an integer.
pub open spec fn read_int(t: Tree) -> Result<i64, ShapeError> {
    match t {
        Tree::Int(n) => Ok(n),
        _ => Err(ShapeError::Kind),
    }
}

/// Reads a tree as a boolean.
pub open spec fn read_bool(t: Tree) -> Result<bool, ShapeError> {
    match t {
        Tree::Int(n) => if n == 0 {
            Ok(false)
        } else if n == 1 {
            Ok(true)
        } else {
            Err(ShapeError::Tag)
        },
        _ => Err(ShapeError::Kind),
    }
}

/// Reads a tree as a floating-point number, giving its bit pattern.
pub open spec fn read_float(t: Tree) -> Result<u64, ShapeError> {
    match t {
        Tree::Float(bits) => Ok(bits),
        _ => Err(ShapeError::Kind),
    }
}

/// Reads a tree as a boxed 32-bit integer.
pub open spec fn read_int32(t: Tree) -> Result<i32, ShapeError> {
    match t {
        Tree::Int32(n) => Ok(n),
        _ => Err(ShapeError::Kind),
    }
}

/// Reads a tree as a boxed 64-bit integer.
pub open spec fn read_int64(t: Tree) -> Result<i64, ShapeError> {
    match t {
        Tree::Int64(n) => Ok(n),
        _ => Err(ShapeError::Kind),
    }
}

/// Reads a tree as a string.
pub open spec fn read_string(t: Tree) -> Result<Seq<char>, ShapeError> {
    match t {
        Tree::Bytes(bytes) => if valid_utf8(bytes) {
            Ok(decode_utf8(bytes))
        } else {
            Err(ShapeError::Text)
        },
        _ => Err(ShapeError::Kind),
    }
}

/// Reads a tree as a block with the given tag and number of slots, giving
/// the slots. The tag is looked at first.
pub open spec fn read_block(t: Tree, tag: u8, arity: nat) -> Result<Seq<Tree>, ShapeError> {
    match t {
        Tree::Block(found, slots) => if found != tag {
            Err(ShapeError::Tag)
        } else if slots.len() != arity {
            Err(ShapeError::Arity)
        } else {
            Ok(slots)
        },
        _ => Err(ShapeError::Kind),
    }
}

/// Reads a tree as an option, giving the payload's tree where there is one.
pub open spec fn read_option(t: Tree) -> Result<Option<Tree>, ShapeError> {
    match t {
        Tree::Int(n) => if n == 0 {
            Ok(None)
        } else {
            Err(ShapeError::Tag)
        },
        _ => match read_block(t, 0, 1) {
            Ok(slots) => Ok(Some(slots[0])),
            Err(e) => Err(e),
        },
    }
}

/// Reads a tree as a list, giving the elements' trees in order. The cells
/// are read from the outside in, so the mismatch reported is that of the
/// first cell that is not one.
pub open spec fn read_list(t: Tree) -> Result<Seq<Tree>, ShapeError>
    decreases t,
{
    match t {
        Tree::Int(n) => if n == 0 {
            Ok(Seq::empty())
        } else {
            Err(ShapeError::Tag)
        },
        Tree::Block(tag, slots) => if tag != 0 {
            Err(ShapeError::Tag)
        } else if slots.len() != 2 {
            Err(ShapeError::Arity)
        } else {
            match read_list(slots[1]) {
                Ok(rest) => Ok(seq![slots[0]] + rest),
                Err(e) => Err(e),
            }
        },
        _ => Err(ShapeError::Kind),
    }
}

/// Reads each tree as an integer.
pub open spec fn read_each_int(items: Seq<Tree>) -> Result<Seq<i64>, ShapeError> {
    if forall|i: int| 0 <= i < items.len() ==> items[i] is Int {
        Ok(Seq::new(items.len(), |i: int| items[i]->Int_0))
    } else {
        Err(ShapeError::Kind)
    }
}

/// Reads a tree as a list of integers: first the cells, then the elements.
pub open spec fn read_ints(t: Tree) -> Result<Seq<i64>, ShapeError> {
    match read_list(t) {
        Ok(items) => read_each_int(items),
        Err(e) => Err(e),
    }
}

/// The number of list cells at the outside of a tree.
spec fn cells(t: Tree) -> nat
    decreases t,
{
    match t {
        Tree::Block(_, slots) => if slots.len() == 2 {
            1 + cells(slots[1])
        } else {
            0
        },
        _ => 0,
    }
}

// ---------------------------------------------------------------------------
// Views of results
// ---------------------------------------------------------------------------

/// A decoded string, or the mismatch, as mathematics.
pub open spec fn text_view(r: Result<String, ShapeError>) -> Result<Seq<char>, ShapeError> {
    match r {
        Ok(s) => Ok(s@),
        Err(e) => Err(e),
    }
}

/// A decoded list of integers, or the mismatch, as mathematics.
pub open spec fn ints_view(r: Result<Vec<i64>, ShapeError>) -> Result<Seq<i64>, ShapeError> {
    match r {
        Ok(xs) => Ok(xs@),
        Err(e) => Err(e),
    }
}

/// The slots of a decoded block, or the mismatch, as mathematics.
pub open spec fn slots_view(r: Result<&Vec<Value>, ShapeError>) -> Result<Seq<Tree>, ShapeError> {
    match r {
        Ok(slots) => Ok(trees(slots@)),
        Err(e) => Err(e),
    }
}

/// A decoded option, or the mismatch, as mathematics.
pub open spec fn option_view(r: Result<Option<&Value>, ShapeError>) -> Result<
    Option<Tree>,
    ShapeError,
> {
    match r {
        Ok(Some(v)) => Ok(Some(v@)),
        Ok(None) => Ok(None),
        Err(e) => Err(e),
    }
}

/// The trees of borrowed values, slot by slot.
pub open spec fn borrowed_trees(items: Seq<&Value>) -> Seq<Tree> {
    Seq::new(items.len(), |i: int| items[i]@)
}

/// The elements of a decoded list, or the mismatch, as mathematics.
pub open spec fn items_view(r: Result<Vec<&Value>, ShapeError>) -> Result<Seq<Tree>, ShapeError> {
    match r {
        Ok(items) => Ok(borrowed_trees(items@)),
        Err(e) => Err(e),
    }
}

// ---------------------------------------------------------------------------
// Scalars
// ---------------------------------------------------------------------------

/// An integer as an unboxed managed integer. Nothing is allocated.
pub fn encode_int(n: i64) -> (v: Value)
    ensures
        v@ == Tree::Int(n),
{
    Value::Int(n)
}

/// The integer that an unboxed managed integer holds.
pub fn decode_int(v: &Value) -> (r: Result<i64, ShapeError>)
    ensures
        r == read_int(v@),
{
    match v {
        Value::Int(n) => Ok(*n),
        _ => Err(ShapeError::Kind),
    }
}

/// A boolean as the unboxed integer 0 or 1.
pub fn encode_bool(b: bool) -> (v: Value)
    ensures
        v@ == bool_tree(b),
{
    if b {
        Value::Int(1)
    } else {
        Value::Int(0)
    }
}

/// The boolean that a managed value holds.
pub fn decode_bool(v: &Value) -> (r: Result<bool, ShapeError>)
    ensures
        r == read_bool(v@),
{
    match v {
        Value::Int(n) => {
            if *n == 0 {
                Ok(false)
            } else if *n == 1 {
                Ok(true)
            } else {
                Err(ShapeError::Tag)
            }
        },
        _ => Err(ShapeError::Kind),
    }
}

/// A floating-point number, given by its bit pattern, as a boxed managed one.
pub fn encode_float(bits: u64) -> (v: Value)
    ensures
        v@ == Tree::Float(bits),
{
    Value::Float(bits)
}

/// The bit pattern of the floating-point number that a managed value holds.
pub fn decode_float(v: &Value) -> (r: Result<u64, ShapeError>)
    ensures
        r == read_float(v@),
{
    match v {
        Value::Float(bits) => Ok(*bits),
        _ => Err(ShapeError::Kind),
    }
}

/// A 32-bit integer as a boxed managed one.
pub fn encode_int32(n: i32) -> (v: Value)
    ensures
        v@ == Tree::Int32(n),
{
    Value::Int32(n)
}

/// The 32-bit integer that a boxed managed one holds.
pub fn decode_int32(v: &Value) -> (r: Result<i32, ShapeError>)
    ensures
        r == read_int32(v@),
{
    match v {
        Value::Int32(n) => Ok(*n),
        _ => Err(ShapeError::Kind),
    }
}

/// A 64-bit integer as a boxed managed one.
pub fn encode_int64(n: i64) -> (v: Value)
    ensures
        v@ == Tree::Int64(n),
{
    Value::Int64(n)
}

/// The 64-bit integer that a boxed managed one holds.
pub fn decode_int64(v: &Value) -> (r: Result<i64, ShapeError>)
    ensures
        r == read_int64(v@),
{
    match v {
        Value::Int64(n) => Ok(*n),
        _ => Err(ShapeError::Kind),
    }
}

// ---------------------------------------------------------------------------
// Strings
// ---------------------------------------------------------------------------

/// `String::from_utf8` of the standard library, with its error dropped: the
/// string that the bytes spell where they are UTF-8, and nothing where they
/// are not.
#[verifier::external_body]
fn text_of(bytes: Vec<u8>) -> (r: Option<String>)
    ensures
        valid_utf8(bytes@) ==> r is Some && r->0@ == decode_utf8(bytes@),
        !valid_utf8(bytes@) ==> r is None,
{
    match String::from_utf8(bytes) {
        Ok(s) => Some(s),
        Err(_) => None,
    }
}

/// A string as managed bytes.
pub fn encode_string(s: &str) -> (v: Value)
    ensures
        v@ == string_tree(s@),
{
    Value::Bytes(s.as_bytes_vec())
}

/// The string that managed bytes spell.
pub fn decode_string(v: &Value) -> (r: Result<String, ShapeError>)
    ensures
        text_view(r) == read_string(v@),
{
    match v {
        Value::Bytes(bytes) => {
            match text_of(bytes.clone()) {
                Some(s) => Ok(s),
                None => Err(ShapeError::Text),
            }
        },
        _ => Err(ShapeError::Kind),
    }
}

// ---------------------------------------------------------------------------
// Blocks, tuples, options
// ---------------------------------------------------------------------------

/// One block with the given tag, holding the slots in the order given. With
/// tag 0 this is how a tuple or a record is laid out.
pub fn encode_block(tag: u8, slots: Vec<Value>) -> (v: Value)
    ensures
        v@ == Tree::Block(tag, trees(slots@)),
{
    Value::Block(tag, slots)
}

/// The slots of a block that has the given tag and number of slots.
pub fn decode_block<'a>(v: &'a Value, tag: u8, arity: usize) -> (r: Result<
    &'a Vec<Value>,
    ShapeError,
>)
    ensures
        slots_view(r) == read_block(v@, tag, arity as nat),
{
    match v {
        Value::Block(found, slots) => {
            proof {
                lemma_trees(slots@);
            }
            if *found != tag {
                Err(ShapeError::Tag)
            } else if slots.len() != arity {
                Err(ShapeError::Arity)
            } else {
                Ok(slots)
            }
        },
        _ => Err(ShapeError::Kind),
    }
}

/// An option whose payload, where there is one, is already encoded.
pub fn encode_option(payload: Option<Value>) -> (v: Value)
    ensures
        v@ == option_tree(
            match payload {
                Some(p) => Some(p@),
                None => None,
            },
        ),
{
    match payload {
        None => Value::Int(0),
        Some(p) => {
            let slots = vec![p];
            proof {
                lemma_trees(slots@);
                assert(trees(slots@) =~= seq![p@]);
            }
            Value::Block(0, slots)
        },
    }
}

/// The payload of an option, still encoded, or nothing where it is absent.
/// Whether the value is unboxed or a block is looked at first.
pub fn decode_option<'a>(v: &'a Value) -> (r: Result<Option<&'a Value>, ShapeError>)
    ensures
        option_view(r) == read_option(v@),
{
    match v {
        Value::Int(n) => {
            if *n == 0 {
                Ok(None)
            } else {
                Err(ShapeError::Tag)
            }
        },
        _ => {
            match decode_block(v, 0, 1) {
                Ok(slots) => {
                    proof {
                        lemma_trees(slots@);
                    }
                    Ok(Some(&slots[0]))
                },
                Err(e) => Err(e),
            }
        },
    }
}

// ---------------------------------------------------------------------------
// Lists
// ---------------------------------------------------------------------------

/// Moving the last element of a chain into its tail leaves the chain as it
/// was.
proof fn lemma_chain_push(items: Seq<Tree>, last: Tree, tail: Tree)
    ensures
        chain_tree(items.push(last), tail) == chain_tree(
            items,
            Tree::Block(0, seq![last, tail]),
        ),
    decreases items.len(),
{
    if items.len() == 0 {
        assert(items.push(last).drop_first() =~= Seq::<Tree>::empty());
        assert(chain_tree(Seq::<Tree>::empty(), tail) == tail);
    } else {
        lemma_chain_push(items.drop_first(), last, tail);
        assert(items.push(last).drop_first() =~= items.drop_first().push(last));
    }
}

/// A list whose elements are already encoded. The cells are built from the
/// last element back to the first, one at a time.
pub fn encode_list(items: Vec<Value>) -> (v: Value)
    ensures
        v@ == list_tree(trees(items@)),
{
    let ghost all = trees(items@);
    let mut rest = items;
    let mut chain = Value::Int(0);
    while rest.len() > 0
        invariant
            chain_tree(trees(rest@), chain@) == list_tree(all),
        decreases rest.len(),
    {
        let ghost before = rest@;
        let ghost tail = chain@;
        let head = rest.pop().unwrap();
        let slots = vec![head, chain];
        proof {
            lemma_trees(slots@);
            lemma_trees(before);
            lemma_trees(rest@);
            assert(trees(slots@) =~= seq![head@, tail]);
            assert(trees(before) =~= trees(rest@).push(head@));
            lemma_chain_push(trees(rest@), head@, tail);
        }
        chain = Value::Block(0, slots);
    }
    proof {
        lemma_trees(rest@);
        assert(trees(rest@) =~= Seq::<Tree>::empty());
    }
    chain
}

/// The elements of a list, still encoded, in order. The cells are walked in
/// a loop, so a long list costs no stack.
pub fn decode_list<'a>(v: &'a Value) -> (r: Result<Vec<&'a Value>, ShapeError>)
    ensures
        items_view(r) == read_list(v@),
{
    let mut items: Vec<&'a Value> = Vec::new();
    let mut cell: &'a Value = v;
    loop
        invariant
            read_list(v@) == match read_list(cell@) {
                Ok(rest) => Ok::<Seq<Tree>, ShapeError>(borrowed_trees(items@) + rest),
                Err(e) => Err::<Seq<Tree>, ShapeError>(e),
            },
        decreases cells(cell@),
    {
        match cell {
            Value::Int(n) => {
                if *n == 0 {
                    assert(borrowed_trees(items@) + Seq::<Tree>::empty() =~= borrowed_trees(
                        items@,
                    ));
                    return Ok(items);
                } else {
                    return Err(ShapeError::Tag);
                }
            },
            Value::Block(tag, slots) => {
                proof {
                    lemma_trees(slots@);
                }
                if *tag != 0 {
                    return Err(ShapeError::Tag);
                } else if slots.len() != 2 {
                    return Err(ShapeError::Arity);
                } else {
                    let ghost before = borrowed_trees(items@);
                    items.push(&slots[0]);
                    proof {
                        assert(borrowed_trees(items@) =~= before.push(slots@[0]@));
                        match read_list(slots@[1]@) {
                            Ok(rest) => {
                                assert(before + (seq![slots@[0]@] + rest) =~= before.push(
                                    slots@[0]@,
                                ) + rest);
                            },
                            Err(_) => {},
                        }
                    }
                    cell = &slots[1];
                }
            },
            _ => {
                return Err(ShapeError::Kind);
            },
        }
    }
}

/// A list of integers.
pub fn encode_ints(xs: &Vec<i64>) -> (v: Value)
    ensures
        v@ == list_tree(int_trees(xs@)),
{
    let mut items: Vec<Value> = Vec::new();
    let mut i: usize = 0;
    while i < xs.len()
        invariant
            i <= xs.len(),
            items@.len() == i,
            forall|j: int| 0 <= j < i ==> #[trigger] items@[j]@ == Tree::Int(xs@[j]),
        decreases xs.len() - i,
    {
        items.push(Value::Int(xs[i]));
        i += 1;
    }
    proof {
        lemma_trees(items@);
        assert(trees(items@) =~= int_trees(xs@));
    }
    encode_list(items)
}

/// The integers of a list, in order.
pub fn decode_ints(v: &Value) -> (r: Result<Vec<i64>, ShapeError>)
    ensures
        ints_view(r) == read_ints(v@),
{
    let items = match decode_list(v) {
        Ok(items) => items,
        Err(e) => {
            return Err(e);
        },
    };
    let ghost found = borrowed_trees(items@);
    let mut xs: Vec<i64> = Vec::new();
    let mut i: usize = 0;
    while i < items.len()
        invariant
            i <= items.len(),
            found == borrowed_trees(items@),
            read_list(v@) == Ok::<Seq<Tree>, ShapeError>(found),
            xs@.len() == i,
            forall|j: int| 0 <= j < i ==> #[trigger] found[j] == Tree::Int(xs@[j]),
        decreases items.len() - i,
    {
        match items[i] {
            Value::Int(n) => {
                xs.push(*n);
            },
            _ => {
                assert(!(found[i as int] is Int));
                return Err(ShapeError::Kind);
            },
        }
        i += 1;
    }
    proof {
        assert(forall|j: int| 0 <= j < found.len() ==> found[j] is Int);
        assert(xs@ =~= Seq::new(found.len(), |j: int| found[j]->Int_0));
    }
    Ok(xs)
}

// ---------------------------------------------------------------------------
// A string with an integer, and a string that may be absent
// ---------------------------------------------------------------------------

/// A pair of a string and an integer is a tuple of the two.
pub open spec fn pair_tree(s: Seq<char>, n: i64) -> Tree {
    tuple_tree(seq![string_tree(s), Tree::Int(n)])
}

/// Reads a tree as a pair of a string and an integer: the block, then the
/// string, then the integer.
pub open spec fn read_pair(t: Tree) -> Result<(Seq<char>, i64), ShapeError> {
    match read_block(t, 0, 2) {
        Ok(slots) => match read_string(slots[0]) {
            Ok(s) => match read_int(slots[1]) {
                Ok(n) => Ok((s, n)),
                Err(e) => Err(e),
            },
            Err(e) => Err(e),
        },
        Err(e) => Err(e),
    }
}

/// A string that may be absent is an option of the string.
pub open spec fn optional_string_tree(s: Option<Seq<char>>) -> Tree {
    option_tree(
        match s {
            Some(s) => Some(string_tree(s)),
            None => None,
        },
    )
}

/// Reads a tree as a string that may be absent: the option, then the
/// string.
pub open spec fn read_optional_string(t: Tree) -> Result<Option<Seq<char>>, ShapeError> {
    match read_option(t) {
        Ok(Some(payload)) => match read_string(payload) {
            Ok(s) => Ok(Some(s)),
            Err(e) => Err(e),
        },
        Ok(None) => Ok(None),
        Err(e) => Err(e),
    }
}

/// A decoded pair, or the mismatch, as mathematics.
pub open spec fn pair_view(r: Result<(String, i64), ShapeError>) -> Result<
    (Seq<char>, i64),
    ShapeError,
> {
    match r {
        Ok((s, n)) => Ok((s@, n)),
        Err(e) => Err(e),
    }
}

/// A decoded string that may be absent, or the mismatch, as mathematics.
pub open spec fn optional_text_view(r: Result<Option<String>, ShapeError>) -> Result<
    Option<Seq<char>>,
    ShapeError,
> {
    match r {
        Ok(Some(s)) => Ok(Some(s@)),
        Ok(None) => Ok(None),
        Err(e) => Err(e),
    }
}

/// A pair of a string and an integer.
pub fn encode_pair(s: &str, n: i64) -> (v: Value)
    ensures
        v@ == pair_tree(s@, n),
{
    let slots = vec![encode_string(s), encode_int(n)];
    proof {
        lemma_trees(slots@);
        assert(trees(slots@) =~= seq![string_tree(s@), Tree::Int(n)]);
    }
    encode_block(0, slots)
}

/// The string and the integer of a pair.
pub fn decode_pair(v: &Value) -> (r: Result<(String, i64), ShapeError>)
    ensures
        pair_view(r) == read_pair(v@),
{
    let slots = decode_block(v, 0, 2)?;
    proof {
        lemma_trees(slots@);
    }
    let s = decode_string(&slots[0])?;
    let n = decode_int(&slots[1])?;
    Ok((s, n))
}

/// A string that may be absent.
pub fn encode_optional_string(s: Option<&str>) -> (v: Value)
    ensures
        v@ == optional_string_tree(
            match s {
                Some(s) => Some(s@),
                None => None,
            },
        ),
{
    match s {
        Some(s) => encode_option(Some(encode_string(s))),
        None => encode_option(None),
    }
}

/// The string of an option, or nothing where it is absent.
pub fn decode_optional_string(v: &Value) -> (r: Result<Option<String>, ShapeError>)
    ensures
        optional_text_view(r) == read_optional_string(v@),
{
    match decode_option(v)? {
        Some(payload) => {
            let s = decode_string(payload)?;
            Ok(Some(s))
        },
        None => Ok(None),
    }
}

// ---------------------------------------------------------------------------
// Reading undoes writing
// ---------------------------------------------------------------------------

/// An integer, a boolean, a floating-point number and the two boxed integers
/// each read back as the value that was written.
pub proof fn law_scalar_round_trip(n: i64, b: bool, bits: u64, narrow: i32)
    ensures
        read_int(Tree::Int(n)) == Ok::<i64, ShapeError>(n),
        read_bool(bool_tree(b)) == Ok::<bool, ShapeError>(b),
        read_float(Tree::Float(bits)) == Ok::<u64, ShapeError>(bits),
        read_int32(Tree::Int32(narrow)) == Ok::<i32, ShapeError>(narrow),
        read_int64(Tree::Int64(n)) == Ok::<i64, ShapeError>(n),
{
}

/// A string reads back as the string that was written.
pub proof fn law_string_round_trip(s: Seq<char>)
    ensures
        read_string(string_tree(s)) == Ok::<Seq<char>, ShapeError>(s),
{
    encode_utf8_valid_utf8(s);
    encode_utf8_decode_utf8(s);
}

/// Bytes that read as a string are the layout of that string.
pub proof fn law_string_layout(t: Tree, s: Seq<char>)
    requires
        read_string(t) == Ok::<Seq<char>, ShapeError>(s),
    ensures
        t == string_tree(s),
{
    decode_utf8_encode_utf8(t->Bytes_0);
}

/// An option reads back as it was written: absent as absent, present as
/// present with the same payload.
pub proof fn law_option_round_trip(payload: Option<Tree>)
    ensures
        read_option(option_tree(payload)) == Ok::<Option<Tree>, ShapeError>(payload),
{
}

/// A tree that reads as an option is the layout of that option.
pub proof fn law_option_layout(t: Tree, payload: Option<Tree>)
    requires
        read_option(t) == Ok::<Option<Tree>, ShapeError>(payload),
    ensures
        t == option_tree(payload),
{
    if let Tree::Block(_, slots) = t {
        assert(slots =~= seq![slots[0]]);
    }
}

/// A tuple or record reads back as the same components in the same order,
/// when it is read with the number of components it was written with, and
/// as a mismatch of arity with any other number.
pub proof fn law_tuple_round_trip(items: Seq<Tree>, arity: nat)
    ensures
        arity == items.len() ==> read_block(tuple_tree(items), 0, arity) == Ok::<
            Seq<Tree>,
            ShapeError,
        >(items),
        arity != items.len() ==> read_block(tuple_tree(items), 0, arity) == Err::<
            Seq<Tree>,
            ShapeError,
        >(ShapeError::Arity),
{
}

/// A list reads back as the same elements in the same order.
pub proof fn law_list_round_trip(items: Seq<Tree>)
    ensures
        read_list(list_tree(items)) == Ok::<Seq<Tree>, ShapeError>(items),
    decreases items.len(),
{
    if items.len() == 0 {
        assert(items =~= Seq::<Tree>::empty());
    } else {
        let rest = items.drop_first();
        law_list_round_trip(rest);
        let cell = seq![items[0], list_tree(rest)];
        assert(list_tree(items) == Tree::Block(0, cell));
        assert(cell[1] == list_tree(rest));
        assert(seq![cell[0]] + rest =~= items);
    }
}

/// A tree that reads as a list is the layout of that list: no two trees read
/// as the same list.
pub proof fn law_list_layout(t: Tree, items: Seq<Tree>)
    requires
        read_list(t) == Ok::<Seq<Tree>, ShapeError>(items),
    ensures
        t == list_tree(items),
    decreases t,
{
    match t {
        Tree::Block(tag, slots) => {
            let rest = read_list(slots[1])->Ok_0;
            law_list_layout(slots[1], rest);
            assert(items.drop_first() =~= rest);
            assert(slots =~= seq![items[0], list_tree(rest)]);
        },
        _ => {
            assert(items =~= Seq::<Tree>::empty());
        },
    }
}

/// A list of integers reads back as the same integers in the same order.
pub proof fn law_ints_round_trip(xs: Seq<i64>)
    ensures
        read_ints(list_tree(int_trees(xs))) == Ok::<Seq<i64>, ShapeError>(xs),
{
    law_list_round_trip(int_trees(xs));
    assert(Seq::new(int_trees(xs).len(), |i: int| int_trees(xs)[i]->Int_0) =~= xs);
}

/// A pair of a string and an integer reads back as the same string and the
/// same integer.
pub proof fn law_pair_round_trip(s: Seq<char>, n: i64)
    ensures
        read_pair(pair_tree(s, n)) == Ok::<(Seq<char>, i64), ShapeError>((s, n)),
{
    law_string_round_trip(s);
}

/// A string that may be absent reads back as it was written: absent as
/// absent, present as the same string.
pub proof fn law_optional_string_round_trip(s: Option<Seq<char>>)
    ensures
        read_optional_string(optional_string_tree(s)) == Ok::<Option<Seq<char>>, ShapeError>(s),
{
    if let Some(text) = s {
        law_string_round_trip(text);
    }
}

} // verus!
