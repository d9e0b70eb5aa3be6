//! Values turned into the bytes of a message, and messages joined from them.
use vstd::prelude::*;
use vstd::slice::slice_to_vec;
use vstd::utf8::*;

use crate::utils::fmt::{append_bytes, arg_bytes, c_string, to_c_string};

verus! {

broadcast use vstd::string::group_string_axioms;

/// Text that reads as bytes: a string's UTF-8 encoding.
pub trait ToBytes {
    /// The bytes this value stands for in a message.
    spec fn raw_bytes(&self) -> Seq<u8>;

    fn to_raw_bytes(&self) -> (r: Vec<u8>)
        ensures
            r@ == self.raw_bytes(),
    ;
}

impl ToBytes for str {
    open spec fn raw_bytes(&self) -> Seq<u8> {
        encode_utf8(self@)
    }

    fn to_raw_bytes(&self) -> (r: Vec<u8>) {
        slice_to_vec(self.as_bytes())
    }
}

impl ToBytes for String {
    open spec fn raw_bytes(&self) -> Seq<u8> {
        encode_utf8(self@)
    }

    fn to_raw_bytes(&self) -> (r: Vec<u8>) {
        slice_to_vec(self.as_str().as_bytes())
    }
}

/// Values that are bytes already.
pub trait SpecificToBytes {
    /// The bytes this value stands for in a message.
    spec fn raw_bytes(&self) -> Seq<u8>;

    fn to_raw_bytes(&self) -> (r: Vec<u8>)
        ensures
            r@ == self.raw_bytes(),
    ;
}

impl SpecificToBytes for Vec<u8> {
    open spec fn raw_bytes(&self) -> Seq<u8> {
        self@
    }

    fn to_raw_bytes(&self) -> (r: Vec<u8>) {
        slice_to_vec(self.as_slice())
    }
}

/// Joins byte strings into one C string: NUL bytes inside become spaces,
/// and one NUL byte ends it.
pub fn cat_cstr(args: &[Vec<u8>]) -> (c: Vec<u8>)
    ensures
        c@ == c_string(arg_bytes(args@).flatten()),
{
    let ghost a = arg_bytes(args@);
    let mut buf: Vec<u8> = Vec::new();
    let mut i: usize = 0;
    proof {
        assert(a.take(0) =~= Seq::<Seq<u8>>::empty());
    }
    while i < args.len()
        invariant
            a == arg_bytes(args@),
            i <= args@.len(),
            buf@ == a.take(i as int).flatten(),
        decreases args@.len() - i,
    {
        append_bytes(&mut buf, args[i].as_slice());
        proof {
            assert(a.take(i + 1) =~= a.take(i as int).push(a[i as int]));
            a.take(i as int).lemma_flatten_push(a[i as int]);
        }
        i = i + 1;
    }
    proof {
        assert(a.take(args@.len() as int) =~= a);
    }
    to_c_string(buf)
}

} // verus!
