//! Basic API value types shared across the server's endpoints.

use vstd::prelude::*;

verus! {

/// Storage space usage information.
#[derive(Clone, Copy, Debug, PartialEq, Eq, Structural)]
pub struct StorageStatus {
    /// Total space (bytes).
    pub total: u64,
    /// Used space (bytes).
    pub used: u64,
    /// Available space (bytes).
    pub avail: u64,
}

impl Default for StorageStatus {
    fn default() -> (r: StorageStatus)
        ensures
            r.total == 0 && r.used == 0 && r.avail == 0,
    {
        StorageStatus { total: 0, used: 0, avail: 0 }
    }
}

/// RSA public key information.
pub struct RsaPubKeyInfo {
    /// Path to key (if stored in a file).
    pub path: Option<String>,
    /// RSA exponent.
    pub exponent: String,
    /// Hex-encoded RSA modulus.
    pub modulus: String,
    /// Key (modulus) length in bits.
    pub length: usize,
}

/// Describes a package for which an update is available.
pub struct APTUpdateInfo {
    /// Package name.
    pub package: String,
    /// Package title.
    pub title: String,
    /// Package architecture.
    pub arch: String,
    /// Human readable package description.
    pub description: String,
    /// New version to be updated to.
    pub version: String,
    /// Old version currently installed.
    pub old_version: String,
    /// Package origin.
    pub origin: String,
    /// Package priority in human-readable form.
    pub priority: String,
    /// Package section.
    pub section: String,
    /// URL under which the package's changelog can be retrieved.
    pub change_log_url: String,
    /// Custom extra field for additional package information.
    pub extra_info: Option<String>,
}

/// How time series data is aggregated.
#[derive(Clone, Copy, Debug, PartialEq, Eq, Structural)]
pub enum RRDMode {
    /// Maximum.
    Max,
    /// Average.
    Average,
}

/// Time series resolutions, named by the span one data point covers.
#[derive(Clone, Copy, Debug, PartialEq, Eq, Structural)]
pub enum RRDTimeFrameResolution {
    /// One minute of data per point, covering the last 70 minutes.
    Hour,
    /// Thirty minutes per point, covering the last 35 hours.
    Day,
    /// Three hours per point, about eight days.
    Week,
    /// Twelve hours per point, the last 35 days.
    Month,
    /// One week per point, the last 490 days.
    Year,
}

impl RRDTimeFrameResolution {
    /// The resolution in seconds.
    pub fn seconds(&self) -> (r: u64)
        ensures
            r == self.spec_seconds(),
    {
        match self {
            RRDTimeFrameResolution::Hour => 60,
            RRDTimeFrameResolution::Day => 60 * 30,
            RRDTimeFrameResolution::Week => 60 * 180,
            RRDTimeFrameResolution::Month => 60 * 720,
            RRDTimeFrameResolution::Year => 60 * 10080,
        }
    }

    pub open spec fn spec_seconds(&self) -> u64 {
        match self {
            RRDTimeFrameResolution::Hour => 60u64,
            RRDTimeFrameResolution::Day => 1800u64,
            RRDTimeFrameResolution::Week => 10800u64,
            RRDTimeFrameResolution::Month => 43200u64,
            RRDTimeFrameResolution::Year => 604800u64,
        }
    }
}

/// Node power command type.
#[derive(Clone, Copy, Debug, PartialEq, Eq, Structural)]
pub enum NodePowerCommand {
    /// Restart the server.
    Reboot,
    /// Shutdown the server.
    Shutdown,
}

} // verus!
