use std::sync::Arc;
use vstd::prelude::*;

use crate::addr::{is_valid_netmask, TunIpAddr};

verus! {

/// The operating system whose interface mechanism backs a device.
#[derive(Clone, Copy, Debug, PartialEq, Eq, Structural)]
pub enum Platform {
    Linux,
    Android,
    Ios,
    Macos,
    Windows,
}

/// The OS error code for "invalid argument" on Linux.
pub const LINUX_INVALID_ARGUMENT: i32 = 22;

/// Whether an OS error with this raw code is benign noise on `platform`. Only
/// the Linux backend downgrades one code, "invalid argument"; every other
/// backend reports it like any error.
pub open spec fn is_benign(platform: Platform, raw_os_error: Option<i32>) -> bool {
    platform == Platform::Linux && raw_os_error == Some(LINUX_INVALID_ARGUMENT)
}

/// Whether an interface error with this raw OS code is to be ignored on
/// `platform` rather than reported.
pub fn skip_error(platform: Platform, raw_os_error: Option<i32>) -> (r: bool)
    ensures
        r == is_benign(platform, raw_os_error),
{
    match platform {
        Platform::Linux => match raw_os_error {
            Some(code) => code == LINUX_INVALID_ARGUMENT,
            None => false,
        },
        _ => false,
    }
}

/// Why a device could not be created.
#[derive(Clone, Copy, Debug, PartialEq, Eq, Structural)]
pub enum CreationFault {
    /// The MTU was zero.
    ZeroMtu,
    /// No address was given.
    NoAddresses,
    /// The address at this position has a netmask that is not a prefix.
    BadNetmask { index: usize },
    /// The operating system refused the interface or its addresses.
    Os { raw_os_error: Option<i32> },
}

/// The errors of a virtual interface.
#[derive(Clone, Copy, Debug, PartialEq, Eq, Structural)]
pub enum DeviceError {
    /// Fatal at startup: there is no interface.
    Creation(CreationFault),
    /// A read or write on the interface failed.
    Io { raw_os_error: Option<i32> },
}

/// The first position whose netmask is not a prefix, where there is one.
pub open spec fn first_bad_netmask(addrs: Seq<TunIpAddr>) -> int {
    choose|i: int|
        0 <= i < addrs.len() && !is_valid_netmask(addrs[i].netmask) && forall|j: int|
            0 <= j < i ==> is_valid_netmask(#[trigger] addrs[j].netmask)
}

/// The first configuration fault of `(mtu, addrs)`, if any.
pub open spec fn config_fault(mtu: usize, addrs: Seq<TunIpAddr>) -> Option<CreationFault> {
    if mtu == 0 {
        Some(CreationFault::ZeroMtu)
    } else if addrs.len() == 0 {
        Some(CreationFault::NoAddresses)
    } else if exists|i: int| 0 <= i < addrs.len() && !is_valid_netmask(addrs[i].netmask) {
        Some(CreationFault::BadNetmask { index: first_bad_netmask(addrs) as usize })
    } else {
        None
    }
}

/// Checks a device configuration: a positive MTU and a non-empty list of
/// addresses whose netmasks are prefixes. Reports the first fault. The
/// netmask rule is a pre-check: an interface address whose mask is not a
/// prefix is one the operating system would refuse to assign, so it is
/// reported before the interface is opened.
pub fn check_device_config(mtu: usize, ip_addrs: &[TunIpAddr]) -> (r: Result<(), CreationFault>)
    ensures
        r == (match config_fault(mtu, ip_addrs@) {
            Some(f) => Err(f),
            None => Ok(()),
        }),
{
    if mtu == 0 {
        return Err(CreationFault::ZeroMtu);
    }
    if ip_addrs.len() == 0 {
        return Err(CreationFault::NoAddresses);
    }
    let mut i: usize = 0;
    while i < ip_addrs.len()
        invariant
            mtu != 0,
            ip_addrs@.len() != 0,
            i <= ip_addrs@.len(),
            forall|j: int| 0 <= j < i ==> is_valid_netmask(#[trigger] ip_addrs@[j].netmask),
        decreases ip_addrs@.len() - i,
    {
        if !ip_addrs[i].has_valid_netmask() {
            proof {
                let s = ip_addrs@;
                assert(0 <= i < s.len() && !is_valid_netmask(s[i as int].netmask) && forall|j: int|
                    0 <= j < i ==> is_valid_netmask(#[trigger] s[j].netmask));
                let w = first_bad_netmask(s);
                assert(!is_valid_netmask(s[i as int].netmask));
                if w < i {
                    assert(is_valid_netmask(s[w].netmask));
                } else if w > i {
                    assert(is_valid_netmask(s[i as int].netmask));
                }
                assert(w == i);
            }
            return Err(CreationFault::BadNetmask { index: i });
        }
        i = i + 1;
    }
    Ok(())
}

/// Packet input and output on a virtual interface, implemented once per
/// platform backend.
/// A failed read or write is always an `Io` error, and a read keeps the
/// buffer's length.
pub trait TunDevice {
    /// Writes one complete packet to the interface.
    fn send_packet(&self, packet: &[u8]) -> (r: Result<(), DeviceError>)
        ensures
            r is Err ==> r->Err_0 is Io,
    ;

    /// Reads one packet into `buff`; a packet longer than `buff` is
    /// truncated to it.
    fn recv_packet(&self, buff: &mut [u8]) -> (r: Result<usize, DeviceError>)
        ensures
            final(buff)@.len() == old(buff)@.len(),
            r is Err ==> r->Err_0 is Io,
    ;
}

impl<T: TunDevice> TunDevice for Arc<T> {
    fn send_packet(&self, packet: &[u8]) -> (r: Result<(), DeviceError>) {
        (**self).send_packet(packet)
    }

    fn recv_packet(&self, buff: &mut [u8]) -> (r: Result<usize, DeviceError>) {
        (**self).recv_packet(buff)
    }
}

/// A created interface: the backend's handle with the MTU and the addresses
/// it was configured with. The handle is released when this is dropped.
pub struct Tun<D> {
    dev: D,
    mtu: usize,
    addrs: Vec<TunIpAddr>,
}

impl<D: TunDevice> Tun<D> {
    pub closed spec fn spec_mtu(&self) -> usize {
        self.mtu
    }

    pub closed spec fn spec_addresses(&self) -> Seq<TunIpAddr> {
        self.addrs@
    }

    /// The configured MTU.
    pub fn mtu(&self) -> (r: usize)
        ensures
            r == self.spec_mtu(),
    {
        self.mtu
    }

    /// The assigned addresses, in the order given.
    pub fn addresses(&self) -> (r: &Vec<TunIpAddr>)
        ensures
            r@ == self.spec_addresses(),
    {
        &self.addrs
    }

    /// Writes one packet to the interface; a failure is an `Io` error.
    pub fn send_packet(&self, packet: &[u8]) -> (r: Result<(), DeviceError>)
        ensures
            r is Err ==> r->Err_0 is Io,
    {
        self.dev.send_packet(packet)
    }

    /// Reads one packet from the interface; a failure is an `Io` error.
    pub fn recv_packet(&self, buff: &mut [u8]) -> (r: Result<usize, DeviceError>)
        ensures
            final(buff)@.len() == old(buff)@.len(),
            r is Err ==> r->Err_0 is Io,
    {
        self.dev.recv_packet(buff)
    }
}

/// Builds a device from its configuration and what the backend's attempt to
/// open the interface returned. A bad configuration is reported first; then a
/// refusal by the operating system. On success the device holds exactly the
/// given MTU and addresses.
pub fn create_device<D: TunDevice>(
    mtu: usize,
    ip_addrs: &[TunIpAddr],
    opened: Result<D, Option<i32>>,
) -> (r: Result<Tun<D>, DeviceError>)
    ensures
        config_fault(mtu, ip_addrs@) is Some ==> r == Err::<Tun<D>, DeviceError>(
            DeviceError::Creation(config_fault(mtu, ip_addrs@).unwrap()),
        ),
        config_fault(mtu, ip_addrs@) is None ==> match opened {
            Err(code) => r == Err::<Tun<D>, DeviceError>(
                DeviceError::Creation(CreationFault::Os { raw_os_error: code }),
            ),
            Ok(_) => r is Ok,
        },
        r is Ok ==> r->Ok_0.spec_mtu() == mtu && r->Ok_0.spec_addresses() == ip_addrs@,
{
    match check_device_config(mtu, ip_addrs) {
        Err(f) => Err(DeviceError::Creation(f)),
        Ok(()) => match opened {
            Err(code) => Err(DeviceError::Creation(CreationFault::Os { raw_os_error: code })),
            Ok(dev) => {
                let mut addrs: Vec<TunIpAddr> = Vec::new();
                let mut i: usize = 0;
                while i < ip_addrs.len()
                    invariant
                        i <= ip_addrs@.len(),
                        addrs@ == ip_addrs@.subrange(0, i as int),
                    decreases ip_addrs@.len() - i,
                {
                    addrs.push(ip_addrs[i]);
                    i = i + 1;
                }
                assert(ip_addrs@.subrange(0, ip_addrs@.len() as int) == ip_addrs@);
                Ok(Tun { dev, mtu, addrs })
            },
        },
    }
}

/// Copies a packet into a receive buffer, truncating it to the buffer, and
/// returns the packet's full length. The part of `buff` past the copied bytes
/// is left as it was.
pub fn copy_packet(packet: &[u8], buff: &mut [u8]) -> (r: usize)
    ensures
        r == packet@.len(),
        final(buff)@.len() == old(buff)@.len(),
        forall|i: int|
            0 <= i < old(buff)@.len() ==> #[trigger] final(buff)@[i] == if i < packet@.len() {
                packet@[i]
            } else {
                old(buff)@[i]
            },
{
    let n = if packet.len() < buff.len() {
        packet.len()
    } else {
        buff.len()
    };
    let mut i: usize = 0;
    while i < n
        invariant
            n <= packet@.len(),
            n <= buff@.len(),
            i <= n,
            buff@.len() == old(buff)@.len(),
            n == packet@.len() || n == old(buff)@.len(),
            forall|j: int|
                0 <= j < old(buff)@.len() ==> #[trigger] buff@[j] == if j < i {
                    packet@[j]
                } else {
                    old(buff)@[j]
                },
        decreases n - i,
    {
        buff[i] = packet[i];
        i = i + 1;
    }
    packet.len()
}

} // verus!
