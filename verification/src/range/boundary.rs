//! The boundary between the parts of a multipart body.
use vstd::prelude::*;
use vstd::string::*;

use crate::clock;
use crate::number;

verus! {

/// The boundary made from a time in nanoseconds.
pub open spec fn boundary_text(nanos: nat) -> Seq<char> {
    "quiche_boundary_"@ + number::hex(nanos)
}

/// The boundary for a time in nanoseconds.
pub fn boundary_at(nanos: u128) -> (r: String)
    ensures
        r@ == boundary_text(nanos as nat),
{
    let mut out = "quiche_boundary_".to_owned();
    out.append(number::write_hex(nanos).as_str());
    out
}

/// A boundary made from the current time.
pub fn gen_boundary() -> (r: String)
    ensures
        exists|nanos: u128| r@ == #[trigger] boundary_text(nanos as nat),
{
    let nanos = clock::unix_nanos();
    boundary_at(nanos)
}

/// Different times give different boundaries.
pub proof fn law_boundaries_differ(a: nat, b: nat)
    requires
        a != b,
    ensures
        boundary_text(a) != boundary_text(b),
{
    let prefix = "quiche_boundary_"@;
    if boundary_text(a) == boundary_text(b) {
        assert(boundary_text(a).skip(prefix.len() as int) =~= number::hex(a));
        assert(boundary_text(b).skip(prefix.len() as int) =~= number::hex(b));
        number::law_hex_is_unambiguous(a, b);
    }
}

} // verus!
