//! Device settings.

use vstd::prelude::*;
use crate::config::{packet_driver_for, Device, LogLevel, PacketDriver};
use crate::driver::{Driver, answered, drew, drew_words, extends, fit, word};
use crate::support::{K8sObjectNameString, is_object_name};

verus! {

/// A well-formed device: its host name has the object-name form, and it
/// has no environment settings and no ports, which are not generated.
pub open spec fn device_ok(dev: Device) -> bool {
    &&& is_object_name(dev.hostname@)
    &&& dev.eal is None
    &&& dev.ports@.len() == 0
}

impl Device {
    pub fn generate<D: Driver>(d: &mut D) -> (r: Option<Self>)
        ensures
            answered(*old(d), *final(d), r),
            r matches Some(dev) ==> device_ok(dev),
            r is Some ==> drew(*old(d), *final(d)).len() >= 1,
            r matches Some(dev) ==> dev.driver == packet_driver_for(
                fit(word(*old(d), *final(d), 0), 0, 1),
            ),
    {
        let driver = PacketDriver::generate(d)?;
        let ghost d1 = *d;
        let hostname = K8sObjectNameString::generate(d)?.0;
        let loglevel = LogLevel::generate(d)?;
        assert(drew(*old(d), *d)[0] == drew(*old(d), d1)[0]);
        // Environment settings and ports are left out: the target system
        // cannot take generated ones yet.
        Some(Device { driver, eal: None, ports: Vec::new(), hostname, loglevel })
    }
}

} // verus!
