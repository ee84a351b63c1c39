//! Defaults of the application's settings.
use vstd::prelude::*;

verus! {

/// Hours back that comparisons look, unless configured.
pub fn default_comparison_offset_h() -> (h: u32)
    ensures
        h == 24,
{
    24
}

/// Port of the local Redis that carries commands, unless configured.
pub fn default_redis_port() -> (port: u16)
    ensures
        port == 6379,
{
    6379
}

} // verus!
