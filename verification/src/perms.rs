//! Decoding of the nine permission bits of a POSIX mode field into the
//! ten-character type-and-permissions column.

use vstd::prelude::*;

verus! {

/// The permission letter that position `i` of the nine-character run shows
/// when its bit is set: `r`, `w`, `x` cycling by position.
pub open spec fn perm_cycle_char(i: int) -> char {
    if i % 3 == 0 {
        'r'
    } else if i % 3 == 1 {
        'w'
    } else {
        'x'
    }
}

/// Whether bit `b` (counted from the least significant) of `mode` is set.
pub open spec fn mode_bit(mode: u32, b: u32) -> bool
    recommends
        b < 32,
{
    mode & (1u32 << b) != 0
}

/// The ten-character permission column: `d` or `.` for the entry type, then
/// one character per permission bit from bit eight down to bit zero, the
/// cycling letter when the bit is set and `-` otherwise.
pub open spec fn perm_string(mode: u32, is_dir: bool) -> Seq<char> {
    seq![if is_dir { 'd' } else { '.' }] + Seq::new(
        9,
        |i: int| if mode_bit(mode, (8 - i) as u32) {
            perm_cycle_char(i)
        } else {
            '-'
        },
    )
}

/// The permission characters of `mode` as a vector, per `perm_string`.
pub fn perm_chars(mode: u32, is_dir: bool) -> (r: Vec<char>)
    ensures
        r@ == perm_string(mode, is_dir),
{
    let mut r: Vec<char> = Vec::new();
    r.push(if is_dir { 'd' } else { '.' });
    let mut i: usize = 0;
    while i < 9
        invariant
            i <= 9,
            r@ == perm_string(mode, is_dir).take(1 + i as int),
        decreases 9 - i,
    {
        let shift: u32 = 8 - (i as u32);
        let set = mode & (1u32 << shift) != 0;
        let c = if set {
            match i % 3 {
                0 => 'r',
                1 => 'w',
                _ => 'x',
            }
        } else {
            '-'
        };
        proof {
            assert(perm_string(mode, is_dir)[1 + i as int] == c);
        }
        r.push(c);
        i += 1;
        proof {
            assert(r@ =~= perm_string(mode, is_dir).take(1 + i as int));
        }
    }
    proof {
        assert(perm_string(mode, is_dir).take(10) =~= perm_string(mode, is_dir));
    }
    r
}

/// Renders the permission column of a mode field as a string.
pub fn format_permissions(mode: u32, is_dir: bool) -> (r: String)
    ensures
        r@ == perm_string(mode, is_dir),
{
    let cs = perm_chars(mode, is_dir);
    crate::text::chars_to_string(&cs)
}

} // verus!
