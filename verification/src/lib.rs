//! Calling into the OCaml runtime from native code, with the conversions and
//! the handling of roots verified.
//!
//! An OCaml value cannot simply be held by native code: the collector may
//! move or reclaim it at any allocation. This crate holds the part of the
//! interplay that can be reasoned about ahead of time and proves it:
//!
//! - `value`: how OCaml lays out integers, boxed numbers, strings and
//!   blocks;
//! - `codec`: the conversion of native values to that layout and back, with
//!   the proof that reading undoes writing;
//! - `ocaml`: the native mirrors of a record and a variant declared on the
//!   OCaml side;
//! - `runtime`: the runtime handle, root frames, rooted and unrooted
//!   handles, and the gateway that hands out calls and takes replies;
//! - `calls`: the registered entry points, each as the call that is sent
//!   and the reading of what comes back.
//!
//! The crate never touches the OCaml heap. A driver performs each `Call` on
//! the live runtime and brings back the `Reply`.

pub mod calls;
pub mod codec;
pub mod ocaml;
pub mod runtime;
pub mod value;

pub use crate::calls::{
    allocate_alot, increment_bytes, increment_bytes_result, increment_ints_list,
    increment_ints_list_result, make_some, make_some_result, make_tuple, make_tuple_result,
    twice, twice_result, verify_record_test, verify_record_test_result, verify_variant_test,
    verify_variant_test_result,
};
pub use crate::ocaml::{Movement, TestRecord};
