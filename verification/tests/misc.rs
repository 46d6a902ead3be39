use proxmox_backup::api_types::{NodePowerCommand, RRDMode, RRDTimeFrameResolution, StorageStatus};
use proxmox_backup::backup_writer::prepare_blob_upload;
use proxmox_backup::blob::DataBlob;
use proxmox_backup::crypt::sha256;
use proxmox_backup::manifest::{BackupManifest, ManifestError};
use proxmox_backup::node_config::{ConfigError, NodeConfig, parse_acme_domain, timezone_from_link};
use proxmox_backup::scsi::{SenseInfo, peripheral_device_type_text, scsi_ascii_to_string};
use proxmox_backup::server_state::{ServerMode, ServerState};

#[test]
fn storage_status_default_is_zero() {
    let status = StorageStatus::default();
    assert_eq!(status.total, 0);
    assert_eq!(status.used, 0);
    assert_eq!(status.avail, 0);
}

#[test]
fn rrd_resolutions_in_seconds() {
    assert_eq!(RRDTimeFrameResolution::Hour.seconds(), 60);
    assert_eq!(RRDTimeFrameResolution::Day.seconds(), 60 * 30);
    assert_eq!(RRDTimeFrameResolution::Week.seconds(), 60 * 180);
    assert_eq!(RRDTimeFrameResolution::Month.seconds(), 60 * 720);
    assert_eq!(RRDTimeFrameResolution::Year.seconds(), 60 * 10080);
    assert_eq!(RRDMode::Max, RRDMode::Max);
    assert_ne!(NodePowerCommand::Reboot, NodePowerCommand::Shutdown);
}

#[test]
fn acme_config_parsing() {
    let config = NodeConfig::new(Some("account=prod".to_string()), None, None, None, None, None);
    let parsed = config.acme_config().unwrap().unwrap();
    assert_eq!(parsed.account(), "prod");

    // a bare value stands for the account
    let config = NodeConfig::new(Some("staging".to_string()), None, None, None, None, None);
    let parsed = config.acme_config().unwrap().unwrap();
    assert_eq!(parsed.account(), "staging");

    let config = NodeConfig::new(Some("unknown=x".to_string()), None, None, None, None, None);
    assert!(config.acme_config().unwrap().is_err());

    let config = NodeConfig::new(None, None, None, None, None, None);
    assert!(config.acme_config().is_none());
}

#[test]
fn acme_domain_parsing() {
    let d = parse_acme_domain("example.com").unwrap();
    assert_eq!(d.domain, "example.com");
    assert!(d.alias.is_none());
    assert!(d.plugin.is_none());

    let d = parse_acme_domain("domain=example.com,alias=acme.example.org,plugin=dns").unwrap();
    assert_eq!(d.domain, "example.com");
    assert_eq!(d.alias.as_deref(), Some("acme.example.org"));
    assert_eq!(d.plugin.as_deref(), Some("dns"));

    assert!(parse_acme_domain("").is_err());
    assert!(parse_acme_domain("alias=only.example.org").is_err());
    assert!(parse_acme_domain("bogus=x,domain=example.com").is_err());
    assert!(parse_acme_domain("domain=a.com,domain=b.com").is_err());
}

#[test]
fn node_config_validate_detects_duplicates() {
    let config = NodeConfig::new(
        None,
        Some("example.com".to_string()),
        Some("other.net".to_string()),
        None,
        None,
        None,
    );
    assert!(config.validate().is_ok());

    // the duplicate check is case-insensitive
    let config = NodeConfig::new(
        None,
        Some("Example.COM".to_string()),
        Some("example.com".to_string()),
        None,
        None,
        None,
    );
    assert_eq!(config.validate().unwrap_err(), ConfigError::DuplicateDomain);

    let config = NodeConfig::new(None, Some("alias=broken".to_string()), None, None, None, None);
    assert_eq!(config.validate().unwrap_err(), ConfigError::Parse);
}

#[test]
fn acme_domain_iter_walks_set_slots() {
    let config = NodeConfig::new(
        None,
        Some("a.com".to_string()),
        None,
        Some("b.com".to_string()),
        None,
        None,
    );
    let mut iter = config.acme_domains();
    let first = iter.next().unwrap().unwrap();
    assert_eq!(first.domain, "a.com");
    let second = iter.next().unwrap().unwrap();
    assert_eq!(second.domain, "b.com");
    assert!(iter.next().is_none());
}

#[test]
fn scsi_ascii_trimming() {
    assert_eq!(scsi_ascii_to_string(b"  VENDOR  \0\0"), "VENDOR");
    assert_eq!(scsi_ascii_to_string(b"\0\0  TAPE 01 \0"), "TAPE 01");
    assert_eq!(scsi_ascii_to_string(b"plain"), "plain");
}

#[test]
fn sense_codes_have_descriptions() {
    let sense = SenseInfo { sense_key: 0x00, asc: 0x00, ascq: 0x00 };
    assert_eq!(sense.to_string(), "No Additional Sense Information");

    let sense = SenseInfo { sense_key: 0x02, asc: 0x04, ascq: 0x01 };
    assert_eq!(sense.to_string(), "Logical Unit Not Ready, Becoming Ready");

    // unlisted codes fall back to printing their numbers
    let sense = SenseInfo { sense_key: 0x00, asc: 0x05, ascq: 0x01 };
    assert_eq!(sense.to_string(), "no sense, ASC = 0x05, ASCQ = 0x01");

    let sense = SenseInfo { sense_key: 0x0F, asc: 0xAB, ascq: 0xCD };
    assert_eq!(sense.to_string(), "sense_key = 0x0f, ASC = 0xab, ASCQ = 0xcd");
}

#[test]
fn peripheral_types_are_named() {
    assert_eq!(peripheral_device_type_text(1), "Tape Drive");
    assert_eq!(peripheral_device_type_text(8), "Medium Changer");
    assert_eq!(peripheral_device_type_text(22), "Reserved");
    assert_eq!(peripheral_device_type_text(31), "Unknown");
}

#[test]
fn server_state_transitions() {
    let mut state = ServerState::new();
    assert!(!state.is_reload_request());
    assert!(!state.check_last_worker());

    state.set_worker_count(2);
    // shutdown with workers still running: no last-worker notification yet
    assert!(!state.server_shutdown());
    assert_eq!(state.mode, ServerMode::Shutdown);

    state.set_reload_request(true);
    assert!(state.is_reload_request());

    // the last worker leaving fires the notification
    assert!(!state.set_worker_count(1));
    assert!(state.set_worker_count(0));
    assert!(state.check_last_worker());
}

#[test]
fn manifest_verifies_matching_files() {
    let mut manifest = BackupManifest::new();
    let csum = sha256(b"archive contents");
    manifest.add_file("disk.didx".to_string(), 4096, csum);
    assert_eq!(manifest.file_count(), 1);
    assert_eq!(manifest.file_at(0).size, 4096);

    assert!(manifest.verify_file("disk.didx", &csum, 4096).is_ok());
    assert_eq!(
        manifest.verify_file("disk.didx", &csum, 4097).unwrap_err(),
        ManifestError::Mismatch
    );
    let wrong = sha256(b"other contents");
    assert_eq!(
        manifest.verify_file("disk.didx", &wrong, 4096).unwrap_err(),
        ManifestError::Mismatch
    );
    assert_eq!(
        manifest.verify_file("root.fidx", &csum, 4096).unwrap_err(),
        ManifestError::NoSuchFile
    );
}

#[test]
fn blob_upload_preparation_reports_frame_totals() {
    let (raw, stats) = prepare_blob_upload(b"configuration blob", None, true).unwrap();
    assert_eq!(stats.size as usize, raw.len());
    assert_eq!(stats.csum, sha256(&raw));
    let blob = DataBlob::from_raw(raw).unwrap();
    assert_eq!(blob.decode(None).unwrap(), b"configuration blob");
}

#[test]
fn timezone_extraction_from_localtime_link() {
    assert_eq!(
        timezone_from_link("/usr/share/zoneinfo/Europe/Vienna"),
        "Europe/Vienna"
    );
    assert_eq!(timezone_from_link("../zoneinfo/UTC"), "UTC");
    // without the marker the whole target is returned
    assert_eq!(timezone_from_link("/etc/localtime.backup"), "/etc/localtime.backup");
}
