//! Permissions of files that are created.

use vstd::prelude::*;

verus! {

/// The permissions that are asked for, without those that the mask takes away.
pub open spec fn masked(requested: u32, mask: u32) -> u32 {
    requested & !mask
}

/// The permissions that are asked for, without those that the mask takes away.
pub fn creation_mode(requested: u32, mask: u32) -> (r: u32)
    ensures
        r == masked(requested, mask),
{
    requested & !mask
}

/// A mask can only take permissions away: none that was not asked for is
/// granted, and none that the mask holds.
pub proof fn a_mask_only_removes_permissions(requested: u32, mask: u32)
    ensures
        masked(requested, mask) & !requested == 0,
        masked(requested, mask) & mask == 0,
{
    assert((requested & !mask) & !requested == 0) by (bit_vector);
    assert((requested & !mask) & mask == 0) by (bit_vector);
}

/// A file that asks for its owner's permissions alone never gets any for its
/// group or for others, whatever the mask.
pub proof fn private_files_stay_private(mask: u32)
    ensures
        masked(0o600, mask) & 0o077 == 0,
{
    assert((0o600u32 & !mask) & 0o077u32 == 0) by (bit_vector);
}

/// Whether the permissions grant something to the group or to others.
pub open spec fn grants_others(mode: u32) -> bool {
    mode & 0o077 != 0
}

/// Whether the permissions grant something to the group or to others.
pub fn is_open_to_others(mode: u32) -> (r: bool)
    ensures
        r == grants_others(mode),
{
    mode & 0o077 != 0
}

/// Whether the permissions let the group or others write.
pub open spec fn lets_others_write(mode: u32) -> bool {
    mode & 0o022 != 0
}

/// Whether the permissions let the group or others write.
pub fn is_writable_by_others(mode: u32) -> (r: bool)
    ensures
        r == lets_others_write(mode),
{
    mode & 0o022 != 0
}

/// Whoever may write is granted something.
pub proof fn writers_are_granted_something(mode: u32)
    requires
        lets_others_write(mode),
    ensures
        grants_others(mode),
{
    assert(mode & 0o022u32 != 0 ==> mode & 0o077u32 != 0) by (bit_vector);
}

} // verus!
