//! SCSI sense data and inquiry values.
//!
//! The pass-through calls into the SCSI generic layer live with the
//! process outside; here are the data types those calls fill in, the sense
//! code table, and the text helpers for inquiry strings.

use vstd::prelude::*;

verus! {

/// What lossy UTF-8 decoding reads for a byte sequence.
pub uninterp spec fn utf8_lossy_of(data: Seq<u8>) -> Seq<char>;

/// What trimming NUL characters from both ends leaves of a string.
pub uninterp spec fn trim_nul_of(s: Seq<char>) -> Seq<char>;

/// What trimming whitespace from both ends leaves of a string.
pub uninterp spec fn trim_of(s: Seq<char>) -> Seq<char>;

/// What lower-casing a string yields.
pub uninterp spec fn lower_of(s: Seq<char>) -> Seq<char>;

/// Relies on String::from_utf8_lossy: the result depends on the bytes
/// alone.
#[verifier::external_body]
pub fn utf8_lossy(data: &[u8]) -> (r: String)
    ensures
        r@ == utf8_lossy_of(data@),
{
    String::from_utf8_lossy(data).into_owned()
}

/// Relies on str::trim_matches with the NUL character: the result depends
/// on the characters alone and is a substring of the input.
#[verifier::external_body]
pub fn trim_nul(s: &str) -> (r: String)
    ensures
        r@ == trim_nul_of(s@),
        r@.len() <= s@.len(),
{
    s.trim_matches(char::from(0)).to_string()
}

/// Relies on str::trim: the result depends on the characters alone and is
/// a substring of the input.
#[verifier::external_body]
pub fn trim_ends(s: &str) -> (r: String)
    ensures
        r@ == trim_of(s@),
        r@.len() <= s@.len(),
{
    s.trim().to_string()
}

/// Relies on str::to_lowercase: the result depends on the characters
/// alone, and an empty string stays empty.
#[verifier::external_body]
pub fn lowercase(s: &str) -> (r: String)
    ensures
        r@ == lower_of(s@),
        s@.len() == 0 ==> r@.len() == 0,
{
    s.to_lowercase()
}

/// Converts SCSI ASCII text into a string: decode, trim NULs, trim
/// whitespace.
pub fn scsi_ascii_to_string(data: &[u8]) -> (r: String)
    ensures
        r@ == trim_of(trim_nul_of(utf8_lossy_of(data@))),
{
    let decoded = utf8_lossy(data);
    let nul_trimmed = trim_nul(decoded.as_str());
    trim_ends(nul_trimmed.as_str())
}

/// Clamp a command timeout in seconds to the field the pass-through call
/// takes; values past the field's range mean the largest representable
/// timeout.
pub fn clamp_timeout(seconds: usize) -> (r: i32)
    ensures
        r == if seconds > (i32::MAX as usize) {
            i32::MAX
        } else {
            (seconds as i32)
        },
{
    if seconds > (i32::MAX as usize) {
        i32::MAX
    } else {
        seconds as i32
    }
}

/// Sense data of a failed SCSI command.
#[derive(Clone, Copy, Debug, PartialEq, Eq, Structural)]
pub struct SenseInfo {
    pub sense_key: u8,
    pub asc: u8,
    pub ascq: u8,
}

/// A failed SCSI command: the message, and the sense data when the device
/// reported any.
pub struct ScsiError {
    pub error: String,
    pub sense: Option<SenseInfo>,
}

/// Inquiry result.
pub struct InquiryInfo {
    /// Peripheral device type (0-31).
    pub peripheral_type: u8,
    /// Peripheral device type as string.
    pub peripheral_type_text: String,
    /// Vendor.
    pub vendor: String,
    /// Product.
    pub product: String,
    /// Revision.
    pub revision: String,
}

/// Peripheral device type text (see the inquiry command).
pub fn peripheral_device_type_text(peripheral_type: u8) -> (r: &'static str) {
    match peripheral_type {
        0 => "Disk Drive",
        1 => "Tape Drive",
        2 => "Printer",
        3 => "Processor",
        4 => "Write-once",
        5 => "CD-ROM",
        6 => "Scanner",
        7 => "Optical",
        8 => "Medium Changer",
        9 => "Communications",
        10 => "ASC IT8",
        11 => "ASC IT8",
        12 => "RAID Array",
        13 => "Enclosure Services",
        14 => "Simplified direct-access",
        15 => "Optical card reader/writer",
        16 => "Bridging Expander",
        17 => "Object-based Storage",
        18 => "Automation/Drive Interface",
        19 => "Security manager",
        31 => "Unknown",
        _ => "Reserved",
    }
}

fn d(s: &str) -> (r: String)
    ensures
        r@ == s@,
{
    s.to_owned()
}

/// `<label>, ASC = 0x<asc>, ASCQ = 0x<ascq>`, the generic description of
/// an unlisted code.
fn sense_fallback(label: &str, asc: u8, ascq: u8) -> (r: String) {
    let mut out = label.to_owned();
    out.append(", ASC = 0x");
    let asc_byte: [u8; 1] = [asc];
    out.append(crate::bytes_to_hex_string(asc_byte.as_slice()).as_str());
    out.append(", ASCQ = 0x");
    let ascq_byte: [u8; 1] = [ascq];
    out.append(crate::bytes_to_hex_string(ascq_byte.as_slice()).as_str());
    out
}

impl SenseInfo {
    /// A human-readable description of the sense code, from the code
    /// tables of common drive and library SCSI reference manuals; codes
    /// not listed fall back to printing their numbers.
    pub fn to_string(&self) -> String {
        match (self.sense_key, self.asc, self.ascq) {
            (0x00, 0x00, 0x00) => d("No Additional Sense Information"),
            (0x00, 0x81, 0x00) => d("LA Check Error, LCM bit ="),
            (0x00, asc, ascq) => sense_fallback("no sense", asc, ascq),
            (0x01, 0x03, 0x00) => d("Peripheral Device Write Fault"),
            (0x01, 0x09, 0x00) => d("Track Following Error"),
            (0x01, 0x09, 0x01) => d("Servo Fault"),
            (0x01, 0x09, 0x0D) => d("Write to at least one copy of a redundant file failed"),
            (0x01, 0x09, 0x0E) => d("Redundant files have < 50% good copies"),
            (0x01, 0x09, 0xF8) => d(
                "Calibration is needed but the QST is set without the Recal Only bit",
            ),
            (0x01, 0x09, 0xFF) => d("Servo Cal completed as part of self-test"),
            (0x01, 0x0B, 0x01) => d("Warning-Specified Temperature Exceeded"),
            (0x01, 0x0B, 0x02) => d("Warning, Enclosure Degraded"),
            (0x01, 0x0C, 0x01) => d("Write Error Recovered With Auto-Reallocation"),
            (0x01, 0x11, 0x00) => d("Unrecovered Read Error"),
            (0x01, 0x15, 0x01) => d("Mechanical Positioning Error"),
            (0x01, 0x16, 0x00) => d("Data Synchronization Mark Error"),
            (0x01, 0x17, 0x01) => d("Recovered Data Using Retries"),
            (0x01, 0x17, 0x02) => d("Recovered Data Using Positive Offset"),
            (0x01, 0x17, 0x03) => d("Recovered Data Using Negative Offset"),
            (0x01, 0x18, 0x00) => d("Recovered Data With ECC"),
            (0x01, 0x18, 0x01) => d("Recovered Data With ECC And Retries Applied"),
            (0x01, 0x18, 0x02) => d(
                "Recovered Data With ECC And/Or Retries, Data Auto-Reallocated",
            ),
            (0x01, 0x18, 0x07) => d("Recovered Data With ECC-Data Rewritten"),
            (0x01, 0x19, 0x00) => d("Defect List Error"),
            (0x01, 0x1C, 0x00) => d("Defect List Not Found"),
            (0x01, 0x1F, 0x00) => d(
                "Number of Defects Overflows the Allocated Space That The Read Defect Command Can Handle",
            ),
            (0x01, 0x37, 0x00) => d("Parameter Rounded"),
            (0x01, 0x3F, 0x80) => d("Buffer contents have changed"),
            (0x01, 0x40, 0x01) => d("DRAM Parity Error"),
            (0x01, 0x40, 0x02) => d("Spinup Error recovered with retries"),
            (0x01, 0x44, 0x00) => d("Internal Target Failure"),
            (0x01, 0x5D, 0x00) => d("Failure Prediction Threshold Exceeded"),
            (0x01, 0x5D, 0xFF) => d("False Failure Prediction Threshold Exceeded"),
            (0x01, asc, ascq) => sense_fallback("recovered error", asc, ascq),
            (0x02, 0x04, 0x00) => d("Logical Unit Not Ready, Cause Not Reportable"),
            (0x02, 0x04, 0x01) => d("Logical Unit Not Ready, Becoming Ready"),
            (0x02, 0x04, 0x02) => d("Logical Unit Not Ready, START UNIT Required"),
            (0x02, 0x04, 0x03) => d("Logical Unit Not Ready, Manual Intervention Required"),
            (0x02, 0x04, 0x04) => d("Logical Unit Not Ready, Format in Progress"),
            (0x02, 0x04, 0x09) => d("Logical Unit Not Ready, Self Test in Progress"),
            (0x02, 0x04, 0x0A) => d(
                "Logical Unit Not Ready, NVC recovery in progress after and exception event",
            ),
            (0x02, 0x04, 0x11) => d("Logical Unit Not Ready, Notify (Enable Spinup) required"),
            (0x02, 0x04, 0x12) => d("Not ready, offline"),
            (0x02, 0x04, 0x22) => d("Logical unit not ready, power cycle required"),
            (0x02, 0x04, 0x83) => d("The library is not ready due to aisle power being disabled"),
            (0x02, 0x04, 0x8D) => d(" The library is not ready because it is offline"),
            (0x02, 0x04, 0xF0) => d("Logical unit not ready, super certify in progress"),
            (0x02, 0x35, 0x02) => d("Enclosure Services Unavailable"),
            (0x02, 0x3B, 0x12) => d("Not ready, magazine removed"),
            (0x02, asc, ascq) => sense_fallback("not ready", asc, ascq),
            (0x03, 0x03, 0x00) => d("Peripheral Device Write Fault"),
            (0x03, 0x09, 0x00) => d("Track Following Error"),
            (0x03, 0x09, 0x04) => d("Head Select Fault"),
            (0x03, 0x0A, 0x01) => d("Failed to write super certify log file"),
            (0x03, 0x0A, 0x02) => d("Failed to read super certify log file"),
            (0x03, 0x0C, 0x00) => d("Write Error"),
            (0x03, 0x0C, 0x02) => d("Write Error-Auto Reallocation Failed"),
            (0x03, 0x0C, 0x03) => d("Write Error-Recommend Reassignment"),
            (0x03, 0x0C, 0xFF) => d("Write Error-Too many error recovery revs"),
            (0x03, 0x11, 0x00) => d("Unrecovered Read Error"),
            (0x03, 0x11, 0x04) => d("Unrecovered Read Error-Auto Reallocation Failed"),
            (0x03, 0x11, 0xFF) => d("Unrecovered Read Error-Too many error recovery revs"),
            (0x03, 0x14, 0x01) => d("Record Not Found"),
            (0x03, 0x15, 0x01) => d("Mechanical Positioning Error"),
            (0x03, 0x16, 0x00) => d("Data Synchronization Mark Error"),
            (0x03, 0x30, 0x00) => d("Media error"),
            (0x03, 0x30, 0x07) => d("Cleaning failure"),
            (0x03, 0x31, 0x00) => d("Medium Format Corrupted"),
            (0x03, 0x31, 0x01) => d("Corruption in R/W format request"),
            (0x03, 0x31, 0x91) => d("Corrupt World Wide Name (WWN) in drive information file"),
            (0x03, 0x32, 0x01) => d("Defect List Update Error"),
            (0x03, 0x32, 0x03) => d("Defect list longer than allocated memory"),
            (0x03, 0x33, 0x00) => d("Flash not ready for access"),
            (0x03, 0x44, 0x00) => d("Internal Target Failure"),
            (0x03, asc, ascq) => sense_fallback("media error", asc, ascq),
            (0x04, 0x01, 0x00) => d("No Index/Logical Block Signal"),
            (0x04, 0x02, 0x00) => d("No SEEK Complete"),
            (0x04, 0x03, 0x00) => d("Peripheral Device Write Fault"),
            (0x04, 0x09, 0x00) => d("Track Following Error"),
            (0x04, 0x09, 0x01) => d("Servo Fault"),
            (0x04, 0x09, 0x04) => d("Head Select Fault"),
            (0x04, 0x15, 0x01) => d("Mechanical Positioning Error"),
            (0x04, 0x16, 0x00) => d("Data Synchronization Mark Error"),
            (0x04, 0x19, 0x00) => d("Defect List Error"),
            (0x04, 0x1C, 0x00) => d("Defect List Not Found"),
            (0x04, 0x29, 0x00) => d("Flashing LED occurred"),
            (0x04, 0x32, 0x00) => d("No Defect Spare Location Available"),
            (0x04, 0x32, 0x01) => d("Defect List Update Error"),
            (0x04, 0x35, 0x00) => d("Unspecified Enclosure Services Failure"),
            (0x04, 0x35, 0x03) => d("Enclosure Transfer Failure"),
            (0x04, 0x35, 0x04) => d("Enclosure Transfer Refused"),
            (0x04, 0x3B, 0x0D) => d("Medium destination element full"),
            (0x04, 0x3B, 0x0E) => d("Medium source element empty"),
            (0x04, 0x3E, 0x03) => d("Logical Unit Failed Self Test"),
            (0x04, 0x3F, 0x0F) => d("Echo buffer overwritten"),
            (0x04, 0x40, 0x01) => d("DRAM Parity Error"),
            (0x04, 0x40, 0x80) => d("Component failure"),
            (0x04, 0x42, 0x00) => d("Power-On Or Self-Test Failure"),
            (0x04, 0x42, 0x0A) => d("Port A failed loopback test"),
            (0x04, 0x42, 0x0B) => d("Port B failed loopback test"),
            (0x04, 0x44, 0x00) => d("Internal Target Failure"),
            (0x04, 0x44, 0xF2) => d("Data Integrity Check Failed on verify"),
            (0x04, 0x44, 0xF6) => d("Data Integrity Check Failed during write"),
            (0x04, 0x44, 0xFF) => d("XOR CDB check error"),
            (0x04, 0x53, 0x00) => d("A drive did not load or unload a tape"),
            (0x04, 0x53, 0x01) => d("A drive did not unload a cartridge"),
            (0x04, 0x53, 0x82) => d("Cannot lock the I/E station"),
            (0x04, 0x53, 0x83) => d("Cannot unlock the I/E station"),
            (0x04, 0x65, 0x00) => d("Voltage Fault"),
            (0x04, 0x80, 0xD7) => d("Internal software error"),
            (0x04, 0x80, 0xD8) => d("Database access error"),
            (0x04, 0x81, 0x00) => d("LA Check Error, LCM bit ="),
            (0x04, 0x81, 0xB0) => d("Internal system communication failed"),
            (0x04, 0x81, 0xB2) => d("Robotic controller communication failed"),
            (0x04, 0x81, 0xB3) => d("Mechanical positioning error"),
            (0x04, 0x81, 0xB4) => d("Cartridge did not transport completely."),
            (0x04, 0x82, 0xFC) => d("Drive configuration failed"),
            (0x04, 0x83, 0x00) => d("Label too short or too long"),
            (0x04, asc, ascq) => sense_fallback("hardware error", asc, ascq),
            (0x05, 0x04, 0x83) => d("Door open"),
            (0x05, 0x1A, 0x00) => d("Parameter List Length Error"),
            (0x05, 0x20, 0x00) => d("Invalid Command Operation Code"),
            (0x05, 0x20, 0xF3) => d("Invalid linked command operation code"),
            (0x05, 0x21, 0x01) => d("Invalid element address"),
            (0x05, 0x24, 0x00) => d("Invalid Field In CDB"),
            (0x05, 0x24, 0x01) => d(
                "Illegal Queue Type for CDB (Low priority commands must be SIMPLE queue)",
            ),
            (0x05, 0x24, 0xF0) => d("Invalid LBA in linked command"),
            (0x05, 0x24, 0xF2) => d("Invalid linked command operation code"),
            (0x05, 0x24, 0xF3) => d("Illegal G->P operation request"),
            (0x05, 0x25, 0x00) => d("Logical Unit Not Supported"),
            (0x05, 0x26, 0x00) => d("Invalid Field In Parameter List"),
            (0x05, 0x26, 0x01) => d("Parameter Not Supported"),
            (0x05, 0x26, 0x02) => d("Parameter Value Invalid"),
            (0x05, 0x26, 0x03) => d("Invalid Field Parameter-Threshold Parameter"),
            (0x05, 0x26, 0x04) => d("Invalid Release of Active Persistent Reserve"),
            (0x05, 0x26, 0x05) => d("Fail to read valid log dump data"),
            (0x05, 0x2C, 0x00) => d("Command Sequence Error"),
            (0x05, 0x30, 0x00) => d("Incompatible medium installed"),
            (0x05, 0x30, 0x12) => d("Incompatible Media loaded to drive"),
            (0x05, 0x32, 0x01) => d("Defect List Update Error"),
            (0x05, 0x35, 0x01) => d("Unsupported Enclosure Function"),
            (0x05, 0x39, 0x00) => d("Saving parameters is not supported"),
            (0x05, 0x3B, 0x0D) => d("Medium destination element full"),
            (0x05, 0x3B, 0x0E) => d("Medium source element empty"),
            (0x05, 0x3B, 0x11) => d("Magazine not accessible"),
            (0x05, 0x3B, 0x12) => d("Magazine not installed"),
            (0x05, 0x3B, 0x18) => d("Element disabled"),
            (0x05, 0x3B, 0x1A) => d("Data transfer element removed"),
            (0x05, 0x3B, 0xA0) => d("Media type does not match destination media type"),
            (0x05, 0x3F, 0x01) => d("New firmware loaded"),
            (0x05, 0x3F, 0x03) => d("Inquiry data changed"),
            (0x05, 0x44, 0x81) => d("Source element not ready"),
            (0x05, 0x44, 0x82) => d("Destination element not ready"),
            (0x05, 0x53, 0x02) => d("Library media removal prevented state set."),
            (0x05, 0x53, 0x03) => d("Drive media removal prevented state set"),
            (0x05, 0x53, 0x81) => d("Insert/Eject station door is open"),
            (0x05, 0x55, 0x04) => d("PRKT table is full"),
            (0x05, 0x82, 0x93) => d("Failure session sequence error"),
            (0x05, 0x82, 0x94) => d("Failover command sequence error"),
            (0x05, 0x82, 0x95) => d("Duplicate failover session key"),
            (0x05, 0x82, 0x96) => d("Invalid failover key"),
            (0x05, 0x82, 0x97) => d("Failover session that is released"),
            (0x05, 0x83, 0x02) => d("Barcode label questionable"),
            (0x05, 0x83, 0x03) => d("Cell status and barcode label questionable"),
            (0x05, 0x83, 0x04) => d("Data transfer element not installed"),
            (0x05, 0x83, 0x05) => d(
                "Data transfer element is varied off and not accessible for library operations",
            ),
            (0x05, 0x83, 0x06) => d(
                "Element is contained within an offline tower or I/E station and is not accessible for library operations",
            ),
            (0x05, asc, ascq) => sense_fallback("illegal request", asc, ascq),
            (0x06, 0x0B, 0x01) => d("Warning-Specified Temperature Exceeded"),
            (0x06, 0x28, 0x00) => d("Not ready to change, medium changed"),
            (0x06, 0x28, 0x01) => d("Import/export element that is accessed"),
            (0x06, 0x29, 0x00) => d("Power On, Reset, Or Bus Device Reset Occurred"),
            (0x06, 0x29, 0x01) => d("Power-On Reset Occurred"),
            (0x06, 0x29, 0x02) => d("SCSI Bus Reset Occurred"),
            (0x06, 0x29, 0x03) => d("Bus Device Reset Function Occurred"),
            (0x06, 0x29, 0x04) => d("Internal Reset Occurred"),
            (0x06, 0x29, 0x05) => d("Transceiver Mode Changed To Single-Ended"),
            (0x06, 0x29, 0x06) => d("Transceiver Mode Changed To LVD"),
            (0x06, 0x29, 0x07) => d("Write Log Dump data to disk successful OR IT Nexus Loss"),
            (0x06, 0x29, 0x08) => d("Write Log Dump data to disk fail"),
            (0x06, 0x29, 0x09) => d("Write Log Dump Entry information fail"),
            (0x06, 0x29, 0x0A) => d("Reserved disk space is full"),
            (0x06, 0x29, 0x0B) => d(
                "SDBP test service contained an error, examine status packet(s) for details",
            ),
            (0x06, 0x29, 0x0C) => d("SDBP incoming buffer overflow (incoming packet too big)"),
            (0x06, 0x29, 0xCD) => d("Flashing LED occurred. (Cold reset)"),
            (0x06, 0x29, 0xCE) => d("Flashing LED occurred. (Warm reset)"),
            (0x06, 0x2A, 0x01) => d("Mode Parameters Changed"),
            (0x06, 0x2A, 0x02) => d("Log Parameters Changed"),
            (0x06, 0x2A, 0x03) => d("Reservations preempted"),
            (0x06, 0x2A, 0x04) => d("Reservations Released"),
            (0x06, 0x2A, 0x05) => d("Registrations Preempted"),
            (0x06, 0x2F, 0x00) => d("Tagged Commands Cleared By Another Initiator"),
            (0x06, 0x3F, 0x00) => d("Target Operating Conditions Have Changed"),
            (0x06, 0x3F, 0x01) => d("Device internal reset occurred"),
            (0x06, 0x3F, 0x02) => d("Changed Operating Definition"),
            (0x06, 0x3F, 0x05) => d("Device Identifier Changed"),
            (0x06, 0x3F, 0x91) => d("World Wide Name (WWN) Mismatch"),
            (0x06, 0x5C, 0x00) => d("RPL Status Change"),
            (0x06, 0x5D, 0x00) => d("Failure Prediction Threshold Exceeded"),
            (0x06, 0x5D, 0xFF) => d("False Failure Prediction Threshold Exceeded"),
            (0x06, 0xB4, 0x00) => d(
                "Unreported Deferred Errors have been logged on log page 34h",
            ),
            (0x06, asc, ascq) => sense_fallback("unit attention", asc, ascq),
            (0x0B, 0x08, 0x00) => d("Logical Unit Communication Failure"),
            (0x0B, 0x08, 0x01) => d("Logical Unit Communication Time-Out"),
            (0x0B, 0x0B, 0x00) => d("Aborted Command"),
            (0x0B, 0x3F, 0x0F) => d("Echo buffer overwritten"),
            (0x0B, 0x43, 0x00) => d("Message Reject Error"),
            (0x0B, 0x44, 0x00) => d("Firmware detected an internal logic failure"),
            (0x0B, 0x45, 0x00) => d("Select/Reselection Failure"),
            (0x0B, 0x47, 0x00) => d("SCSI Parity Error"),
            (0x0B, 0x47, 0x03) => d("Information Unit CRC Error"),
            (0x0B, 0x47, 0x80) => d("Fibre Channel Sequence Error"),
            (0x0B, 0x48, 0x00) => d("Initiator Detected Error Message Received"),
            (0x0B, 0x49, 0x00) => d("Invalid Message Received"),
            (0x0B, 0x4A, 0x00) => d("Command phase error"),
            (0x0B, 0x4B, 0x00) => d("Data Phase Error"),
            (0x0B, 0x4B, 0x01) => d("Invalid transfer tag"),
            (0x0B, 0x4B, 0x02) => d("Too many write data"),
            (0x0B, 0x4B, 0x03) => d("ACK NAK Timeout"),
            (0x0B, 0x4B, 0x04) => d("NAK received"),
            (0x0B, 0x4B, 0x05) => d("Data Offset error"),
            (0x0B, 0x4B, 0x06) => d("Initiator response timeout"),
            (0x0B, 0x4E, 0x00) => d("Overlapped Commands Attempted"),
            (0x0B, 0x81, 0x00) => d("LA Check Error"),
            (0x0B, asc, ascq) => sense_fallback("aborted command", asc, ascq),
            (0x0D, 0x0D, 0x00) => d("Volume Overflow Constants"),
            (0x0D, 0x21, 0x00) => d("Logical Block Address Out Of Range"),
            (0x0E, 0x0E, 0x00) => d("Data Miscompare"),
            (0x0E, 0x1D, 0x00) => d("Miscompare During Verify Operation"),
            (sense_key, asc, ascq) => {
                let mut out = String::new();
                out.append("sense_key = 0x");
                let key_byte: [u8; 1] = [sense_key];
                out.append(crate::bytes_to_hex_string(key_byte.as_slice()).as_str());
                let rest = sense_fallback("", asc, ascq);
                out.append(rest.as_str());
                out
            },
        }
    }
}

} // verus!
