//! Conversions of plain values into `Ipld`.
use vstd::prelude::*;
use vstd::std_specs::convert::FromSpecImpl;
use vstd::slice::slice_to_vec;
use cid::Cid;
use crate::ipld::Ipld;

verus! {

impl From<bool> for Ipld {
    fn from(t: bool) -> (r: Self) {
        Ipld::Bool(t)
    }
}

impl FromSpecImpl<bool> for Ipld {
    open spec fn obeys_from_spec() -> bool {
        true
    }

    open spec fn from_spec(t: bool) -> Self {
        Ipld::Bool(t)
    }
}

impl From<i8> for Ipld {
    fn from(t: i8) -> (r: Self) {
        Ipld::Integer(t as i128)
    }
}

impl FromSpecImpl<i8> for Ipld {
    open spec fn obeys_from_spec() -> bool {
        true
    }

    open spec fn from_spec(t: i8) -> Self {
        Ipld::Integer(t as i128)
    }
}

impl From<i16> for Ipld {
    fn from(t: i16) -> (r: Self) {
        Ipld::Integer(t as i128)
    }
}

impl FromSpecImpl<i16> for Ipld {
    open spec fn obeys_from_spec() -> bool {
        true
    }

    open spec fn from_spec(t: i16) -> Self {
        Ipld::Integer(t as i128)
    }
}

impl From<i32> for Ipld {
    fn from(t: i32) -> (r: Self) {
        Ipld::Integer(t as i128)
    }
}

impl FromSpecImpl<i32> for Ipld {
    open spec fn obeys_from_spec() -> bool {
        true
    }

    open spec fn from_spec(t: i32) -> Self {
        Ipld::Integer(t as i128)
    }
}

impl From<i64> for Ipld {
    fn from(t: i64) -> (r: Self) {
        Ipld::Integer(t as i128)
    }
}

impl FromSpecImpl<i64> for Ipld {
    open spec fn obeys_from_spec() -> bool {
        true
    }

    open spec fn from_spec(t: i64) -> Self {
        Ipld::Integer(t as i128)
    }
}

impl From<i128> for Ipld {
    fn from(t: i128) -> (r: Self) {
        Ipld::Integer(t as i128)
    }
}

impl FromSpecImpl<i128> for Ipld {
    open spec fn obeys_from_spec() -> bool {
        true
    }

    open spec fn from_spec(t: i128) -> Self {
        Ipld::Integer(t as i128)
    }
}

impl From<u16> for Ipld {
    fn from(t: u16) -> (r: Self) {
        Ipld::Integer(t as i128)
    }
}

impl FromSpecImpl<u16> for Ipld {
    open spec fn obeys_from_spec() -> bool {
        true
    }

    open spec fn from_spec(t: u16) -> Self {
        Ipld::Integer(t as i128)
    }
}

impl From<u32> for Ipld {
    fn from(t: u32) -> (r: Self) {
        Ipld::Integer(t as i128)
    }
}

impl FromSpecImpl<u32> for Ipld {
    open spec fn obeys_from_spec() -> bool {
        true
    }

    open spec fn from_spec(t: u32) -> Self {
        Ipld::Integer(t as i128)
    }
}

impl From<u64> for Ipld {
    fn from(t: u64) -> (r: Self) {
        Ipld::Integer(t as i128)
    }
}

impl FromSpecImpl<u64> for Ipld {
    open spec fn obeys_from_spec() -> bool {
        true
    }

    open spec fn from_spec(t: u64) -> Self {
        Ipld::Integer(t as i128)
    }
}

impl From<String> for Ipld {
    fn from(t: String) -> (r: Self) {
        Ipld::String(t)
    }
}

impl FromSpecImpl<String> for Ipld {
    open spec fn obeys_from_spec() -> bool {
        true
    }

    open spec fn from_spec(t: String) -> Self {
        Ipld::String(t)
    }
}

impl From<&str> for Ipld {
    fn from(t: &str) -> (r: Self)
        ensures
            r is String,
            r->String_0@ == t@,
    {
        Ipld::String(t.to_owned())
    }
}

impl FromSpecImpl<&str> for Ipld {
    open spec fn obeys_from_spec() -> bool {
        false
    }

    open spec fn from_spec(t: &str) -> Self {
        arbitrary()
    }
}

impl From<Vec<u8>> for Ipld {
    fn from(t: Vec<u8>) -> (r: Self) {
        Ipld::Bytes(t)
    }
}

impl FromSpecImpl<Vec<u8>> for Ipld {
    open spec fn obeys_from_spec() -> bool {
        true
    }

    open spec fn from_spec(t: Vec<u8>) -> Self {
        Ipld::Bytes(t)
    }
}

impl From<&[u8]> for Ipld {
    fn from(t: &[u8]) -> (r: Self)
        ensures
            r is Bytes,
            r->Bytes_0@ == t@,
    {
        Ipld::Bytes(slice_to_vec(t))
    }
}

impl FromSpecImpl<&[u8]> for Ipld {
    open spec fn obeys_from_spec() -> bool {
        false
    }

    open spec fn from_spec(t: &[u8]) -> Self {
        arbitrary()
    }
}

impl From<Cid> for Ipld {
    fn from(t: Cid) -> (r: Self) {
        Ipld::Link(t)
    }
}

impl FromSpecImpl<Cid> for Ipld {
    open spec fn obeys_from_spec() -> bool {
        true
    }

    open spec fn from_spec(t: Cid) -> Self {
        Ipld::Link(t)
    }
}

} // verus!
