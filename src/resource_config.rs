//! Configuration of the process that owns the shared-memory resources.

use vstd::prelude::*;
use crate::text::{decimal, decimal_text};

verus! {

/// Hugepage sizes that the resource owner knows how to provision.
#[derive(Debug, Clone, Copy, PartialEq, Eq, Structural)]
pub enum HugepageSize {
    /// 2 MB pages (2048 kB).
    Size2MB,
    /// 1 GB pages (1048576 kB).
    Size1GB,
}

impl HugepageSize {
    pub open spec fn spec_sysfs_path(self) -> Seq<char> {
        match self {
            HugepageSize::Size2MB => "/sys/kernel/mm/hugepages/hugepages-2048kB/nr_hugepages"@,
            HugepageSize::Size1GB => "/sys/kernel/mm/hugepages/hugepages-1048576kB/nr_hugepages"@,
        }
    }

    /// The sysfs file that sets how many pages of this size are reserved.
    pub fn sysfs_path(&self) -> (r: &'static str)
        ensures
            r@ == self.spec_sysfs_path(),
    {
        match self {
            HugepageSize::Size2MB => "/sys/kernel/mm/hugepages/hugepages-2048kB/nr_hugepages",
            HugepageSize::Size1GB => "/sys/kernel/mm/hugepages/hugepages-1048576kB/nr_hugepages",
        }
    }

    /// Size of one page, in kB.
    pub open spec fn spec_size_kb(self) -> u32 {
        match self {
            HugepageSize::Size2MB => 2048,
            HugepageSize::Size1GB => 1048576,
        }
    }

    /// Returns the size of one page in kB.
    pub fn size_kb(&self) -> (r: u32)
        ensures
            r == self.spec_size_kb(),
    {
        match self {
            HugepageSize::Size2MB => 2048,
            HugepageSize::Size1GB => 1048576,
        }
    }
}

/// Errors of the resource owner's configuration.
#[derive(Debug, PartialEq, Eq, Structural)]
pub enum HwResourcesConfigError {
    /// The page size is neither 2048 nor 1048576 kB.
    InvalidHugepageSize(u32),
    /// No pages are requested.
    ZeroHugepageCount,
}

impl HwResourcesConfigError {
    pub open spec fn spec_message(self) -> Seq<char> {
        match self {
            HwResourcesConfigError::InvalidHugepageSize(kb) => "Invalid hugepage size: "@ + decimal(kb as nat)
                + "kB. Must be 2048 (2MB) or 1048576 (1GB)"@,
            HwResourcesConfigError::ZeroHugepageCount => "Hugepage count must be greater than 0"@,
        }
    }

    /// A description of the error.
    pub fn message(&self) -> (r: String)
        ensures
            r@ == self.spec_message(),
    {
        match self {
            HwResourcesConfigError::InvalidHugepageSize(kb) => {
                let mut r = String::from_str("Invalid hugepage size: ");
                r.append(decimal_text(*kb as u64).as_str());
                r.append("kB. Must be 2048 (2MB) or 1048576 (1GB)");
                r
            },
            HwResourcesConfigError::ZeroHugepageCount => String::from_str("Hugepage count must be greater than 0"),
        }
    }
}

/// Hugepage configuration.
#[derive(Debug, Clone, Copy, PartialEq, Eq, Structural)]
pub struct HugepagesConfig {
    /// Page size in kB (2048 for 2 MB, 1048576 for 1 GB).
    pub size_kb: u32,
    /// Number of pages to reserve.
    pub count: u32,
}

impl HugepagesConfig {
    pub open spec fn spec_size(self) -> Result<HugepageSize, HwResourcesConfigError> {
        if self.size_kb == 2048 {
            Ok(HugepageSize::Size2MB)
        } else if self.size_kb == 1048576 {
            Ok(HugepageSize::Size1GB)
        } else {
            Err(HwResourcesConfigError::InvalidHugepageSize(self.size_kb))
        }
    }

    /// The page size, if it is one of the two supported ones.
    pub fn size(&self) -> (r: Result<HugepageSize, HwResourcesConfigError>)
        ensures
            r == self.spec_size(),
    {
        match self.size_kb {
            2048 => Ok(HugepageSize::Size2MB),
            1048576 => Ok(HugepageSize::Size1GB),
            _ => Err(HwResourcesConfigError::InvalidHugepageSize(self.size_kb)),
        }
    }
}

/// The resource owner's configuration.
#[derive(Debug, Clone, Copy, PartialEq, Eq, Structural)]
pub struct HwResourcesConfig {
    /// Core the resource owner is pinned to.
    pub cpu: u32,
    pub hugepages: HugepagesConfig,
}

impl HwResourcesConfig {
    /// Checks the page size, then that at least one page is requested.
    pub fn validate(&self) -> (r: Result<(), HwResourcesConfigError>)
        ensures
            self.hugepages.spec_size() is Err ==> r == Err::<(), _>(self.hugepages.spec_size()->Err_0),
            self.hugepages.spec_size() is Ok && self.hugepages.count == 0 ==> r == Err::<(), _>(
                HwResourcesConfigError::ZeroHugepageCount,
            ),
            self.hugepages.spec_size() is Ok && self.hugepages.count > 0 ==> r is Ok,
    {
        match self.hugepages.size() {
            Err(e) => {
                return Err(e);
            },
            Ok(_) => {},
        }
        if self.hugepages.count == 0 {
            return Err(HwResourcesConfigError::ZeroHugepageCount);
        }
        Ok(())
    }

    /// The core to pin to.
    pub fn lcore_id(&self) -> (r: u32)
        ensures
            r == self.cpu,
    {
        self.cpu
    }

    /// The hugepage configuration.
    pub fn hugepages(&self) -> (r: &HugepagesConfig)
        ensures
            *r == self.hugepages,
    {
        &self.hugepages
    }
}

} // verus!
