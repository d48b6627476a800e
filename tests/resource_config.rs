use ctl_feed::resource_config::{HugepageSize, HugepagesConfig, HwResourcesConfig, HwResourcesConfigError};

fn config(cpu: u32, size_kb: u32, count: u32) -> HwResourcesConfig {
    HwResourcesConfig { cpu, hugepages: HugepagesConfig { size_kb, count } }
}

#[test]
fn test_parse_valid_config() {
    let config = config(3, 2048, 128);
    assert!(config.validate().is_ok());
    assert_eq!(config.cpu, 3);
    assert_eq!(config.lcore_id(), 3);
    assert_eq!(config.hugepages.size_kb, 2048);
    assert_eq!(config.hugepages.count, 128);
}

#[test]
fn test_parse_1gb_hugepages() {
    let config = config(0, 1048576, 4);
    assert!(config.validate().is_ok());
    assert_eq!(config.hugepages.size().unwrap(), HugepageSize::Size1GB);
    assert_eq!(config.hugepages.count, 4);
}

#[test]
fn test_hugepage_sysfs_path() {
    assert_eq!(
        HugepageSize::Size2MB.sysfs_path(),
        "/sys/kernel/mm/hugepages/hugepages-2048kB/nr_hugepages"
    );
    assert_eq!(
        HugepageSize::Size1GB.sysfs_path(),
        "/sys/kernel/mm/hugepages/hugepages-1048576kB/nr_hugepages"
    );
}

#[test]
fn test_invalid_hugepage_size() {
    let result = config(0, 4096, 10).validate();
    assert!(result.is_err());
    assert_eq!(result.unwrap_err(), HwResourcesConfigError::InvalidHugepageSize(4096));
}

#[test]
fn test_zero_hugepage_count() {
    let result = config(0, 2048, 0).validate();
    assert!(result.is_err());
    assert_eq!(result.unwrap_err(), HwResourcesConfigError::ZeroHugepageCount);
}

#[test]
fn hugepage_sizes_in_kb() {
    assert_eq!(HugepageSize::Size2MB.size_kb(), 2048);
    assert_eq!(HugepageSize::Size1GB.size_kb(), 1048576);
    assert_eq!(HugepagesConfig { size_kb: 2048, count: 1 }.size(), Ok(HugepageSize::Size2MB));
}

#[test]
fn hugepage_error_messages() {
    assert_eq!(
        HwResourcesConfigError::InvalidHugepageSize(4096).message(),
        "Invalid hugepage size: 4096kB. Must be 2048 (2MB) or 1048576 (1GB)"
    );
    assert_eq!(HwResourcesConfigError::ZeroHugepageCount.message(), "Hugepage count must be greater than 0");
}

#[test]
fn hugepages_accessor_returns_the_configured_pages() {
    let config = config(7, 2048, 16);
    assert_eq!(*config.hugepages(), HugepagesConfig { size_kb: 2048, count: 16 });
}
