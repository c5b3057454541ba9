use vstd::prelude::*;

verus! {

/// The netmask of a prefix of `n` leading one bits (`n <= 32`).
pub open spec fn prefix_mask(n: nat) -> u32
    decreases n,
{
    if n == 0 {
        0
    } else {
        (prefix_mask((n - 1) as nat) >> 1u32) | 0x8000_0000u32
    }
}

/// A netmask is valid when its one bits form one leading run.
pub open spec fn is_valid_netmask(m: u32) -> bool {
    exists|n: nat| n <= 32 && #[trigger] prefix_mask(n) == m
}

/// An IPv4 address and netmask assigned to a virtual interface. Both are held
/// as big-endian `u32` values: `10.0.0.2` is `0x0A00_0002`.
#[derive(Clone, Copy, Debug, PartialEq, Eq, Structural)]
pub struct TunIpAddr {
    pub ip: u32,
    pub netmask: u32,
}

impl TunIpAddr {
    /// Whether the netmask is a run of leading ones.
    pub fn has_valid_netmask(&self) -> (r: bool)
        ensures
            r == is_valid_netmask(self.netmask),
    {
        let mut m: u32 = 0;
        let mut n: u32 = 0;
        while n < 32
            invariant
                n <= 32,
                m == prefix_mask(n as nat),
                forall|j: nat| j < n ==> prefix_mask(j) != self.netmask,
            decreases 32 - n,
        {
            if m == self.netmask {
                return true;
            }
            m = (m >> 1u32) | 0x8000_0000u32;
            n = n + 1;
        }
        if m == self.netmask {
            return true;
        }
        proof {
            assert forall|j: nat| j <= 32 implies prefix_mask(j) != self.netmask by {
                if j < 32 {
                } else {
                    assert(j == 32);
                }
            }
        }
        false
    }
}

/// A transport address at which a participant is reachable.
#[derive(Clone, Copy, Debug, PartialEq, Eq, Structural)]
pub enum Endpoint {
    V4 { ip: u32, port: u16 },
    V6 { ip6: u128, port: u16 },
}

} // verus!
