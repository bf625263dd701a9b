//! The kernels that the library offers, by the names under which a host
//! finds them.

use vstd::prelude::*;
use vstd::utf8::{encode_utf8, encode_utf8_decode_utf8};

verus! {

/// The width of the numbers that a kernel works on.
#[derive(Clone, Copy, Debug, PartialEq, Eq)]
pub enum Width {
    /// Single precision, [`crate::binary::Binary32`].
    Single,
    /// Double precision, [`crate::binary::Binary64`].
    Double,
}

/// One entry of the registry: a kernel and its name.
#[derive(Clone, Copy, Debug, PartialEq, Eq)]
pub struct Registration {
    pub name: &'static str,
    pub width: Width,
}

/// The name under which the kernel of a width is registered.
pub open spec fn name_of(width: Width) -> Seq<char> {
    match width {
        Width::Single => "cpu_kepler_f32"@,
        Width::Double => "cpu_kepler_f64"@,
    }
}

/// The width of the kernel registered under `name`, if there is one.
pub open spec fn registered(name: Seq<char>) -> Option<Width> {
    if name == name_of(Width::Single) {
        Some(Width::Single)
    } else if name == name_of(Width::Double) {
        Some(Width::Double)
    } else {
        None
    }
}

/// The name under which the kernel of a width is registered.
pub fn kernel_name(width: Width) -> (name: &'static str)
    ensures
        name@ == name_of(width),
{
    match width {
        Width::Single => "cpu_kepler_f32",
        Width::Double => "cpu_kepler_f64",
    }
}

/// The registry: one entry for each width, single precision first.
pub fn registrations() -> (table: Vec<Registration>)
    ensures
        table@.len() == 2,
        table@[0].width == Width::Single,
        table@[1].width == Width::Double,
        forall|i: int| 0 <= i < 2 ==> (#[trigger] table@[i]).name@ == name_of(table@[i].width),
{
    let mut table = Vec::new();
    table.push(Registration { name: kernel_name(Width::Single), width: Width::Single });
    table.push(Registration { name: kernel_name(Width::Double), width: Width::Double });
    table
}

/// Whether two strings hold the same text.
fn same_text(a: &str, b: &str) -> (same: bool)
    ensures
        same == (a@ == b@),
{
    let left = a.as_bytes();
    let right = b.as_bytes();
    if left.len() != right.len() {
        return false;
    }
    let mut i: usize = 0;
    while i < left.len()
        invariant
            i <= left@.len(),
            left@.len() == right@.len(),
            left@ == encode_utf8(a@),
            right@ == encode_utf8(b@),
            forall|k: int| 0 <= k < i ==> left@[k] == right@[k],
        decreases left@.len() - i,
    {
        if left[i] != right[i] {
            return false;
        }
        i = i + 1;
    }
    proof {
        assert(left@ =~= right@);
        encode_utf8_decode_utf8(a@);
        encode_utf8_decode_utf8(b@);
    }
    true
}

/// Looks a kernel up by its name.
pub fn find_kernel(name: &str) -> (found: Option<Width>)
    ensures
        found == registered(name@),
{
    if same_text(name, kernel_name(Width::Single)) {
        Some(Width::Single)
    } else if same_text(name, kernel_name(Width::Double)) {
        Some(Width::Double)
    } else {
        None
    }
}

/// No two kernels share a name, so every kernel is found under its own.
pub proof fn lemma_names_distinct(width: Width)
    ensures
        registered(name_of(width)) == Some(width),
{
    reveal_strlit("cpu_kepler_f32");
    reveal_strlit("cpu_kepler_f64");
    assert("cpu_kepler_f32"@[12] != "cpu_kepler_f64"@[12]);
}

} // verus!
