//! Card-level helpers: the icon grid arithmetic and the display string a
//! card shows for an entity.

use vstd::prelude::*;

verus! {

use vstd::arithmetic::div_mod::lemma_div_plus_one;
use vstd::string::{StrSliceExecFns, StringExecFns};

/// Grid dimensions for `n` icons: at most five columns, then as many rows
/// as the icons need, capped at six. Icons beyond `rows * columns` are
/// dropped by the caller, not reported as an error.
pub fn icon_grid(n: usize) -> (r: (usize, usize))
    requires
        1 <= n,
    ensures
        r.0 == if n < 5 {
            n as int
        } else {
            5int
        },
        r.1 == ({
            let c = if n < 5 {
                n as int
            } else {
                5int
            };
            let rows = (n + c - 1) / c;
            if rows < 6 {
                rows
            } else {
                6int
            }
        }),
{
    let columns = if n < 5 {
        n
    } else {
        5
    };
    // `(n - 1) / columns + 1` is the ceiling of `n / columns` without the
    // risk of `n + columns - 1` overflowing.
    let rows = (n - 1) / columns + 1;
    proof {
        lemma_div_plus_one((n - 1) as int, columns as int);
        assert((columns as int) + ((n - 1) as int) == n + columns - 1);
    }
    let capped = if rows < 6 {
        rows
    } else {
        6
    };
    (columns, capped)
}

/// The first four and the last four significant characters of an address,
/// joined by an ellipsis of three dots.
pub fn short_address(address: &str) -> (r: String)
    requires
        address@.len() >= 42,
    ensures
        r@ == address@.subrange(0, 4) + "..."@ + address@.subrange(38, 42),
{
    let head = address.substring_char(0, 4);
    let tail = address.substring_char(38, 42);
    let mut out = String::from_str(head);
    out.append("...");
    out.append(tail);
    out
}

/// The string a card displays for an entity: its resolved name when one
/// exists, otherwise its address shortened to the ends.
pub fn display_text(name: &Option<String>, address: &str) -> (r: String)
    requires
        name is None ==> address@.len() >= 42,
    ensures
        name is Some ==> r@ == name->Some_0@,
        name is None ==> r@ == address@.subrange(0, 4) + "..."@ + address@.subrange(38, 42),
{
    match name {
        Some(n) => n.clone(),
        None => short_address(address),
    }
}

} // verus!
