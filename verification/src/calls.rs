//! The entry points that the managed side registers, each as the call to
//! hand out and the reading of the reply.
//!
//! A function named after an entry point opens a frame, converts the native
//! arguments, and gives the `Call` for the driver to perform; the frame
//! stays open while the call runs. The matching `*_result` function takes
//! the driver's `Reply`, converts what was returned while the frame is still
//! open, and closes the frame. What the entry point computes is the managed
//! side's business: the contracts say what is sent, and what is made of
//! whatever comes back.

use crate::codec::{
    decode_bool, decode_int, decode_ints, decode_optional_string, decode_pair, decode_string,
    encode_int, encode_ints, encode_string, int_trees, list_tree, read_bool, read_int,
    read_ints, read_optional_string, read_pair, read_string, string_tree, ShapeError,
};
use crate::ocaml::{
    encode_movement, encode_record, movement_tree, record_tree, Movement, TestRecord,
};
use crate::runtime::{
    Call, CallError, CallView, Failure, Reply, ReplyView, Runtime, RuntimeState,
};
use crate::value::{Tree, Value};
use vstd::prelude::*;

verus! {

/// Whether `call` is the call of the entry point `name` on `args`, by the
/// place at which the state `s` has bound that name.
pub open spec fn issued(call: CallView, s: RuntimeState, name: Seq<char>, args: Seq<Tree>) -> bool {
    &&& call.name == name
    &&& call.args == args
    &&& s.binds(name, call.entry)
}

/// What a call gives when its reply is read as a type: the value read, the
/// mismatch where the returned value is not of that type, or the failure of
/// the managed side with its description.
pub open spec fn outcome<T>(
    reply: ReplyView,
    read: spec_fn(Tree) -> Result<T, ShapeError>,
) -> Result<T, Failure> {
    match reply {
        ReplyView::Returned(t) => match read(t) {
            Ok(x) => Ok(x),
            Err(e) => Err(Failure::Shape(e)),
        },
        ReplyView::Raised(message) => Err(Failure::Failed(message)),
    }
}

/// A native result, or why there is none, as mathematics.
pub open spec fn seen<T, V>(r: Result<T, CallError>, view: spec_fn(T) -> V) -> Result<
    V,
    Failure,
> {
    match r {
        Ok(x) => Ok(view(x)),
        Err(e) => Err(e@),
    }
}

/// The call of `increment_bytes`, which takes bytes and a count and returns
/// bytes. The bytes are allocated first and registered with the frame,
/// because converting the count is a second allocation point. The count is
/// sent as the signed integer that has the same 64 bits.
pub fn increment_bytes(rt: &mut Runtime, bytes: &str, first_n: usize) -> (call: Call)
    requires
        old(rt)@.ready(),
    ensures
        final(rt)@ == old(rt)@.open(true).allocate().keep(string_tree(bytes@)).allocate().bind(
            "increment_bytes"@,
        ).call(),
        issued(
            call@,
            final(rt)@,
            "increment_bytes"@,
            seq![string_tree(bytes@), Tree::Int(first_n as i64)],
        ),
{
    rt.open_frame();
    let text = rt.allocate(encode_string(bytes));
    let text_ref = rt.keep(text);
    let count = rt.allocate(encode_int(#[verifier::truncate] (first_n as i64)));
    let entry = rt.bind("increment_bytes");
    let args = vec![rt.get(&text_ref), count];
    let call = rt.invoke(&entry, args);
    proof {
        assert(call@.args =~= seq![string_tree(bytes@), Tree::Int(first_n as i64)]);
    }
    call
}

fn string_result(rt: &mut Runtime, reply: Reply) -> (r: Result<String, CallError>)
    requires
        old(rt)@.awaiting,
        old(rt)@.frames.len() > 0,
    ensures
        final(rt)@ == old(rt)@.reply().close(),
        seen(r, |s: String| s@) == outcome(reply@, |t: Tree| read_string(t)),
{
    let r = match rt.accept(reply) {
        Ok(handle) => {
            let decoded = decode_string(rt.read(&handle));
            handle.release();
            match decoded {
                Ok(s) => Ok(s),
                Err(e) => Err(CallError::Shape(e)),
            }
        },
        Err(e) => Err(e),
    };
    rt.close_frame();
    r
}

/// Reads the reply to `increment_bytes` as a string and closes the frame.
pub fn increment_bytes_result(rt: &mut Runtime, reply: Reply) -> (r: Result<String, CallError>)
    requires
        old(rt)@.awaiting,
        old(rt)@.frames.len() > 0,
    ensures
        final(rt)@ == old(rt)@.reply().close(),
        seen(r, |s: String| s@) == outcome(reply@, |t: Tree| read_string(t)),
{
    string_result(rt, reply)
}

/// The call of `increment_ints_list`, which takes a list of integers and
/// returns one. The list is used at once, so the frame keeps no roots.
pub fn increment_ints_list(rt: &mut Runtime, ints: &Vec<i64>) -> (call: Call)
    requires
        old(rt)@.ready(),
    ensures
        final(rt)@ == old(rt)@.open(false).allocate().bind("increment_ints_list"@).call(),
        issued(call@, final(rt)@, "increment_ints_list"@, seq![list_tree(int_trees(ints@))]),
{
    rt.open_frame_nokeep();
    let list = rt.allocate(encode_ints(ints));
    let entry = rt.bind("increment_ints_list");
    let args = vec![list];
    let call = rt.invoke(&entry, args);
    proof {
        assert(call@.args =~= seq![list_tree(int_trees(ints@))]);
    }
    call
}

/// Reads the reply to `increment_ints_list` as a list of integers and
/// closes the frame.
pub fn increment_ints_list_result(rt: &mut Runtime, reply: Reply) -> (r: Result<
    Vec<i64>,
    CallError,
>)
    requires
        old(rt)@.awaiting,
        old(rt)@.frames.len() > 0,
    ensures
        final(rt)@ == old(rt)@.reply().close(),
        seen(r, |xs: Vec<i64>| xs@) == outcome(reply@, |t: Tree| read_ints(t)),
{
    let r = match rt.accept(reply) {
        Ok(handle) => {
            let decoded = decode_ints(rt.read(&handle));
            handle.release();
            match decoded {
                Ok(xs) => Ok(xs),
                Err(e) => Err(CallError::Shape(e)),
            }
        },
        Err(e) => Err(e),
    };
    rt.close_frame();
    r
}

/// The call of `twice`, which takes an integer and returns one. The
/// argument is unboxed, so nothing is allocated.
pub fn twice(rt: &mut Runtime, num: i64) -> (call: Call)
    requires
        old(rt)@.ready(),
    ensures
        final(rt)@ == old(rt)@.open(false).bind("twice"@).call(),
        issued(call@, final(rt)@, "twice"@, seq![Tree::Int(num)]),
{
    rt.open_frame_nokeep();
    let entry = rt.bind("twice");
    let args = vec![Runtime::unboxed(num)];
    let call = rt.invoke(&entry, args);
    proof {
        assert(call@.args =~= seq![Tree::Int(num)]);
    }
    call
}

/// Reads the reply to `twice` as an integer and closes the frame.
pub fn twice_result(rt: &mut Runtime, reply: Reply) -> (r: Result<i64, CallError>)
    requires
        old(rt)@.awaiting,
        old(rt)@.frames.len() > 0,
    ensures
        final(rt)@ == old(rt)@.reply().close(),
        seen(r, |n: i64| n) == outcome(reply@, |t: Tree| read_int(t)),
{
    let r = match rt.accept(reply) {
        Ok(handle) => {
            let decoded = decode_int(rt.read(&handle));
            handle.release();
            match decoded {
                Ok(n) => Ok(n),
                Err(e) => Err(CallError::Shape(e)),
            }
        },
        Err(e) => Err(e),
    };
    rt.close_frame();
    r
}

/// The call of `make_tuple`, which takes a string and an integer and
/// returns the pair of them. The integer is unboxed and made first; the
/// string is the only allocation and is used at once.
pub fn make_tuple(rt: &mut Runtime, fst: String, snd: i64) -> (call: Call)
    requires
        old(rt)@.ready(),
    ensures
        final(rt)@ == old(rt)@.open(false).allocate().bind("make_tuple"@).call(),
        issued(call@, final(rt)@, "make_tuple"@, seq![string_tree(fst@), Tree::Int(snd)]),
{
    rt.open_frame_nokeep();
    let num = Runtime::unboxed(snd);
    let text = rt.allocate(encode_string(fst.as_str()));
    let entry = rt.bind("make_tuple");
    let args = vec![text, num];
    let call = rt.invoke(&entry, args);
    proof {
        assert(call@.args =~= seq![string_tree(fst@), Tree::Int(snd)]);
    }
    call
}

/// Reads the reply to `make_tuple` as a pair of a string and an integer and
/// closes the frame.
pub fn make_tuple_result(rt: &mut Runtime, reply: Reply) -> (r: Result<(String, i64), CallError>)
    requires
        old(rt)@.awaiting,
        old(rt)@.frames.len() > 0,
    ensures
        final(rt)@ == old(rt)@.reply().close(),
        seen(r, |p: (String, i64)| (p.0@, p.1)) == outcome(reply@, |t: Tree| read_pair(t)),
{
    let r = match rt.accept(reply) {
        Ok(handle) => {
            let decoded = decode_pair(rt.read(&handle));
            handle.release();
            match decoded {
                Ok(p) => Ok(p),
                Err(e) => Err(CallError::Shape(e)),
            }
        },
        Err(e) => Err(e),
    };
    rt.close_frame();
    r
}

/// The call of `make_some`, which takes a string and returns an option of
/// a string.
pub fn make_some(rt: &mut Runtime, value: String) -> (call: Call)
    requires
        old(rt)@.ready(),
    ensures
        final(rt)@ == old(rt)@.open(false).allocate().bind("make_some"@).call(),
        issued(call@, final(rt)@, "make_some"@, seq![string_tree(value@)]),
{
    rt.open_frame_nokeep();
    let text = rt.allocate(encode_string(value.as_str()));
    let entry = rt.bind("make_some");
    let args = vec![text];
    let call = rt.invoke(&entry, args);
    proof {
        assert(call@.args =~= seq![string_tree(value@)]);
    }
    call
}

/// The optional string, as mathematics.
pub open spec fn optional_text(s: Option<String>) -> Option<Seq<char>> {
    match s {
        Some(s) => Some(s@),
        None => None,
    }
}

/// Reads the reply to `make_some` as a string that may be absent and closes
/// the frame.
pub fn make_some_result(rt: &mut Runtime, reply: Reply) -> (r: Result<Option<String>, CallError>)
    requires
        old(rt)@.awaiting,
        old(rt)@.frames.len() > 0,
    ensures
        final(rt)@ == old(rt)@.reply().close(),
        seen(r, |s: Option<String>| optional_text(s)) == outcome(
            reply@,
            |t: Tree| read_optional_string(t),
        ),
{
    let r = match rt.accept(reply) {
        Ok(handle) => {
            let decoded = decode_optional_string(rt.read(&handle));
            handle.release();
            match decoded {
                Ok(s) => Ok(s),
                Err(e) => Err(CallError::Shape(e)),
            }
        },
        Err(e) => Err(e),
    };
    rt.close_frame();
    r
}

/// The call of `verify_record`, which takes a record and returns whether
/// each of its fields holds what the managed side expects.
pub fn verify_record_test(rt: &mut Runtime, record: TestRecord) -> (call: Call)
    requires
        old(rt)@.ready(),
    ensures
        final(rt)@ == old(rt)@.open(true).allocate().bind("verify_record"@).call(),
        issued(call@, final(rt)@, "verify_record"@, seq![record_tree(record@)]),
{
    rt.open_frame();
    let block = rt.allocate(encode_record(&record));
    let entry = rt.bind("verify_record");
    let args = vec![block];
    let call = rt.invoke(&entry, args);
    proof {
        assert(call@.args =~= seq![record_tree(record@)]);
    }
    call
}

/// Reads the reply to `verify_record` as a boolean and closes the frame.
pub fn verify_record_test_result(rt: &mut Runtime, reply: Reply) -> (r: Result<bool, CallError>)
    requires
        old(rt)@.awaiting,
        old(rt)@.frames.len() > 0,
    ensures
        final(rt)@ == old(rt)@.reply().close(),
        seen(r, |b: bool| b) == outcome(reply@, |t: Tree| read_bool(t)),
{
    let r = match rt.accept(reply) {
        Ok(handle) => {
            let decoded = decode_bool(rt.read(&handle));
            handle.release();
            match decoded {
                Ok(b) => Ok(b),
                Err(e) => Err(CallError::Shape(e)),
            }
        },
        Err(e) => Err(e),
    };
    rt.close_frame();
    r
}

/// The call of `stringify_variant`, which takes a movement and returns its
/// case and payload spelled out.
pub fn verify_variant_test(rt: &mut Runtime, variant: Movement) -> (call: Call)
    requires
        old(rt)@.ready(),
    ensures
        final(rt)@ == old(rt)@.open(true).allocate().bind("stringify_variant"@).call(),
        issued(call@, final(rt)@, "stringify_variant"@, seq![movement_tree(variant)]),
{
    rt.open_frame();
    let case = rt.allocate(encode_movement(&variant));
    let entry = rt.bind("stringify_variant");
    let args = vec![case];
    let call = rt.invoke(&entry, args);
    proof {
        assert(call@.args =~= seq![movement_tree(variant)]);
    }
    call
}

/// Reads the reply to `stringify_variant` as a string and closes the frame.
pub fn verify_variant_test_result(rt: &mut Runtime, reply: Reply) -> (r: Result<
    String,
    CallError,
>)
    requires
        old(rt)@.awaiting,
        old(rt)@.frames.len() > 0,
    ensures
        final(rt)@ == old(rt)@.reply().close(),
        seen(r, |s: String| s@) == outcome(reply@, |t: Tree| read_string(t)),
{
    string_result(rt, reply)
}

/// The number of frames that `allocate_alot` opens and closes.
pub const ROUNDS: u32 = 49999;

/// Opens a frame, allocates the same ten bytes three times and closes the
/// frame, `ROUNDS` times over. Every frame opened is closed again, so the
/// frames are left as they were found.
pub fn allocate_alot(rt: &mut Runtime) -> (done: bool)
    requires
        old(rt)@.ready(),
    ensures
        done,
        final(rt)@ == (RuntimeState {
            epoch: (old(rt)@.epoch + 3 * ROUNDS) as nat,
            opened: (old(rt)@.opened + ROUNDS) as nat,
            ..old(rt)@
        }),
{
    let bytes: Vec<u8> = vec![1, 2, 3, 4, 5, 6, 7, 8, 9, 10];
    let mut n: u32 = 0;
    while n < ROUNDS
        invariant
            n <= ROUNDS,
            rt@ == (RuntimeState {
                epoch: (old(rt)@.epoch + 3 * n) as nat,
                opened: (old(rt)@.opened + n) as nat,
                ..old(rt)@
            }),
            old(rt)@.ready(),
        decreases ROUNDS - n,
    {
        let ghost before = rt@;
        rt.open_frame();
        let _x = rt.allocate(Value::Bytes(bytes.clone()));
        let _y = rt.allocate(Value::Bytes(bytes.clone()));
        let _z = rt.allocate(Value::Bytes(bytes.clone()));
        rt.close_frame();
        proof {
            assert(rt@.frames =~= before.frames);
        }
        n += 1;
    }
    true
}

} // verus!
