pub mod download;
pub mod instance;
pub mod java;
pub mod progress;

use vstd::prelude::*;

use crate::launcher::error::{Error, ErrorView};
use crate::text::{char_is_control, chars_of, copy_str, is_control};

verus! {

/// A name that can stand as one component of a path: not empty, not `.`
/// or `..`, and without `/`, `\` or control characters.
pub open spec fn is_safe_component(s: Seq<char>) -> bool {
    &&& s.len() > 0
    &&& !(s.len() == 1 && s[0] == '.')
    &&& !(s.len() == 2 && s[0] == '.' && s[1] == '.')
    &&& forall|i: int|
        0 <= i < s.len() ==> #[trigger] s[i] != '/' && s[i] != '\\' && !is_control(s[i])
}

/// Whether the characters `v` form a safe path component.
pub fn component_is_safe(v: &[char]) -> (r: bool)
    ensures
        r == is_safe_component(v@),
{
    let n = v.len();
    if n == 0 {
        return false;
    }
    if n == 1 && v[0] == '.' {
        return false;
    }
    if n == 2 && v[0] == '.' && v[1] == '.' {
        return false;
    }
    let mut i: usize = 0;
    while i < n
        invariant
            0 <= i <= n,
            n == v@.len(),
            forall|j: int|
                0 <= j < i ==> #[trigger] v@[j] != '/' && v@[j] != '\\' && !is_control(v@[j]),
        decreases n - i,
    {
        let c = v[i];
        if c == '/' || c == '\\' || char_is_control(c) {
            return false;
        }
        i = i + 1;
    }
    true
}

/// `value` itself when it is a safe path component; otherwise
/// `UnsafePath(value)`.
pub fn safe_component(value: &str) -> (r: Result<&str, Error>)
    ensures
        is_safe_component(value@) ==> r == Ok::<&str, Error>(value),
        !is_safe_component(value@) ==> (r matches Err(e) && e@ == ErrorView::UnsafePath(value@)),
{
    let v = chars_of(value);
    if component_is_safe(v.as_slice()) {
        Ok(value)
    } else {
        Err(Error::UnsafePath(copy_str(value)))
    }
}

} // verus!
