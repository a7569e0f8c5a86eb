//! The serial session model: the configuration record, the session
//! state machine with its decisions (what to allow, what to report, how
//! to word failures), and the encodings a session sends and emits.
//!
//! The hardware handle and the background reader thread live with the
//! caller that performs the I/O; a present configuration here stands for
//! a present handle, and the running flag is the sole signal that winds
//! the reader down before the handle is released.

use vstd::prelude::*;
use crate::sys::{new_uuid_string, now_millis};
use crate::text::hex_spaced_chars;
use crate::text::to_hex_spaced;

verus! {

/// Data bits of a serial configuration.
#[derive(Debug, Clone, Copy, PartialEq, Eq, Structural)]
pub enum DataBits {
    Five,
    Six,
    Seven,
    Eight,
}

/// Stop bits of a serial configuration.
#[derive(Debug, Clone, Copy, PartialEq, Eq, Structural)]
pub enum StopBits {
    One,
    Two,
}

/// Parity of a serial configuration.
#[derive(Debug, Clone, Copy, PartialEq, Eq, Structural)]
pub enum Parity {
    NoParity,
    Odd,
    Even,
}

/// Flow control of a serial configuration.
#[derive(Debug, Clone, Copy, PartialEq, Eq, Structural)]
pub enum FlowControl {
    NoFlow,
    Software,
    Hardware,
}

/// The status a session reports. Error exists in the model but no
/// transition currently produces it.
#[derive(Debug, Clone, Copy, PartialEq, Eq, Structural)]
pub enum SerialStatus {
    Closed,
    Open,
    Error,
}

/// Which way a data packet travelled.
#[derive(Debug, Clone, Copy, PartialEq, Eq, Structural)]
pub enum DataDirection {
    Rx,
    Tx,
}

/// How a data payload is written.
#[derive(Debug, Clone, Copy, PartialEq, Eq, Structural)]
pub enum DataFormat {
    Hex,
    Ascii,
}

/// The kind of port the host reports.
#[derive(Debug, Clone, Copy, PartialEq, Eq, Structural)]
pub enum PortKind {
    Usb,
    Bluetooth,
    Pci,
    Unknown,
}

/// A full serial port configuration.
#[derive(Debug, Clone)]
pub struct SerialConfig {
    pub port_name: String,
    pub baud_rate: u32,
    pub data_bits: DataBits,
    pub stop_bits: StopBits,
    pub parity: Parity,
    pub flow_control: FlowControl,
}

/// The mathematical reading of a SerialConfig.
pub ghost struct SerialConfigView {
    pub port_name: Seq<char>,
    pub baud_rate: u32,
    pub data_bits: DataBits,
    pub stop_bits: StopBits,
    pub parity: Parity,
    pub flow_control: FlowControl,
}

impl View for SerialConfig {
    type V = SerialConfigView;

    open spec fn view(&self) -> SerialConfigView {
        (SerialConfigView {
            port_name: self.port_name@,
            baud_rate: self.baud_rate,
            data_bits: self.data_bits,
            stop_bits: self.stop_bits,
            parity: self.parity,
            flow_control: self.flow_control,
        })
    }
}

impl Default for SerialConfig {
    /// 115200 baud, eight data bits, one stop bit, no parity, no flow
    /// control, and an empty port name.
    fn default() -> (r: Self)
        ensures
            r@.port_name.len() == 0,
            r@.baud_rate == 115200,
            r@.data_bits == DataBits::Eight,
            r@.stop_bits == StopBits::One,
            r@.parity == Parity::NoParity,
            r@.flow_control == FlowControl::NoFlow,
    {
        SerialConfig {
            port_name: String::new(),
            baud_rate: 115200,
            data_bits: DataBits::Eight,
            stop_bits: StopBits::One,
            parity: Parity::NoParity,
            flow_control: FlowControl::NoFlow,
        }
    }
}

/// One available port as the host reports it.
#[derive(Debug, Clone)]
pub struct PortInfo {
    pub name: String,
    pub port_type: String,
    pub manufacturer: Option<String>,
    pub product: Option<String>,
}

/// The mathematical reading of a PortInfo.
pub ghost struct PortInfoView {
    pub name: Seq<char>,
    pub port_type: Seq<char>,
    pub manufacturer: Option<Seq<char>>,
    pub product: Option<Seq<char>>,
}

impl View for PortInfo {
    type V = PortInfoView;

    open spec fn view(&self) -> PortInfoView {
        (PortInfoView {
            name: self.name@,
            port_type: self.port_type@,
            manufacturer: match self.manufacturer {
                Some(ref m) => Some(m@),
                None => None,
            },
            product: match self.product {
                Some(ref p) => Some(p@),
                None => None,
            },
        })
    }
}

/// The label under which a port kind is reported.
pub open spec fn spec_port_kind_label(kind: PortKind) -> Seq<char> {
    match kind {
        PortKind::Usb => "USB"@,
        PortKind::Bluetooth => "Bluetooth"@,
        PortKind::Pci => "PCI"@,
        PortKind::Unknown => "Unknown"@,
    }
}

/// The label under which a port kind is reported.
pub fn port_kind_label(kind: PortKind) -> (r: String)
    ensures
        r@ == spec_port_kind_label(kind),
{
    match kind {
        PortKind::Usb => String::from_str("USB"),
        PortKind::Bluetooth => String::from_str("Bluetooth"),
        PortKind::Pci => String::from_str("PCI"),
        PortKind::Unknown => String::from_str("Unknown"),
    }
}

/// A port record from the host's plain description of one port.
pub fn make_port_info(
    name: String,
    kind: PortKind,
    manufacturer: Option<String>,
    product: Option<String>,
) -> (r: PortInfo)
    ensures
        r@.name == name@,
        r@.port_type == spec_port_kind_label(kind),
        r@.manufacturer == (match manufacturer {
            Some(m) => Some(m@),
            None => None::<Seq<char>>,
        }),
        r@.product == (match product {
            Some(p) => Some(p@),
            None => None::<Seq<char>>,
        }),
{
    PortInfo { name, port_type: port_kind_label(kind), manufacturer, product }
}

/// One emitted data event: a fresh id, a rendered payload, a timestamp,
/// a direction and a format tag.
#[derive(Debug, Clone)]
pub struct DataPacket {
    pub id: String,
    pub data: String,
    pub timestamp: i64,
    pub direction: DataDirection,
    pub format: DataFormat,
}

/// The mathematical reading of a DataPacket.
pub ghost struct DataPacketView {
    pub id: Seq<char>,
    pub data: Seq<char>,
    pub timestamp: int,
    pub direction: DataDirection,
    pub format: DataFormat,
}

impl View for DataPacket {
    type V = DataPacketView;

    open spec fn view(&self) -> DataPacketView {
        (DataPacketView {
            id: self.id@,
            data: self.data@,
            timestamp: self.timestamp as int,
            direction: self.direction,
            format: self.format,
        })
    }
}

/// The receive packet for one emitted batch: hex-rendered payload under
/// a fresh 36-character id, stamped with the current time.
pub fn make_receive_packet(payload: &[u8]) -> (r: DataPacket)
    ensures
        r@.data == hex_spaced_chars(payload@),
        r@.id.len() == 36,
        r@.direction == DataDirection::Rx,
        r@.format == DataFormat::Hex,
{
    DataPacket {
        id: new_uuid_string(),
        data: to_hex_spaced(payload),
        timestamp: now_millis(),
        direction: DataDirection::Rx,
        format: DataFormat::Hex,
    }
}

/// The session state machine: at most one open configuration, and a
/// running flag shared with the background reader.
pub struct SerialManager {
    config: Option<SerialConfig>,
    running: bool,
}

/// The mathematical reading of a SerialManager.
pub ghost struct SerialManagerView {
    pub config: Option<SerialConfigView>,
    pub running: bool,
}

impl View for SerialManager {
    type V = SerialManagerView;

    closed spec fn view(&self) -> SerialManagerView {
        (SerialManagerView {
            config: match self.config {
                Some(ref c) => Some(c@),
                None => None,
            },
            running: self.running,
        })
    }
}

/// Whether a session state holds an open handle.
pub open spec fn spec_is_open(s: SerialManagerView) -> bool {
    s.config is Some
}

/// The status a session state reports: derived, not separately tracked.
pub open spec fn spec_status(s: SerialManagerView) -> SerialStatus {
    if spec_is_open(s) {
        SerialStatus::Open
    } else {
        SerialStatus::Closed
    }
}

/// Whether the background reader should take another turn: it runs only
/// while the flag is up and a handle is present.
pub open spec fn spec_reader_runs(s: SerialManagerView) -> bool {
    s.running && spec_is_open(s)
}

impl SerialManager {
    /// A closed session with no reader running.
    pub fn new() -> (r: Self)
        ensures
            r@.config is None,
            !r@.running,
    {
        SerialManager { config: None, running: false }
    }

    /// The derived status: open exactly when a configuration is held.
    pub fn status(&self) -> (r: SerialStatus)
        ensures
            r == spec_status(self@),
    {
        if self.config.is_some() {
            SerialStatus::Open
        } else {
            SerialStatus::Closed
        }
    }

    /// The decision of `open` before any hardware is touched: a second
    /// open is refused while one configuration is held.
    pub fn check_can_open(&self) -> (r: Result<(), String>)
        ensures
            (r is Ok) == !spec_is_open(self@),
            r is Err ==> r->Err_0@ == "already open"@,
    {
        if self.config.is_some() {
            Err(String::from_str("already open"))
        } else {
            Ok(())
        }
    }

    /// Records a successful hardware open: the configuration is held
    /// from here until the close completes.
    pub fn complete_open(&mut self, config: SerialConfig)
        requires
            !spec_is_open(old(self)@),
        ensures
            final(self)@.config == Some(config@),
            final(self)@.running == old(self)@.running,
    {
        self.config = Some(config);
    }

    /// Raises the running flag as the background reader starts.
    pub fn start_reader(&mut self)
        ensures
            final(self)@.running,
            final(self)@.config == old(self)@.config,
    {
        self.running = true;
    }

    /// Lowers the running flag: the first step of `close`, after which
    /// the caller joins the reader before releasing the handle.
    pub fn request_stop(&mut self)
        ensures
            !final(self)@.running,
            final(self)@.config == old(self)@.config,
    {
        self.running = false;
    }

    /// Whether the reader loop takes another turn, as it decides at the
    /// top of each iteration.
    pub fn reader_should_continue(&self) -> (r: bool)
        ensures
            r == spec_reader_runs(self@),
    {
        self.running && self.config.is_some()
    }

    /// Completes a close after the reader has stopped: releases the
    /// configuration, or reports that nothing was open.
    pub fn complete_close(&mut self) -> (r: Result<(), String>)
        ensures
            (r is Ok) == spec_is_open(old(self)@),
            r is Err ==> r->Err_0@ == "not open"@ && final(self)@ == old(self)@,
            r is Ok ==> final(self)@.config is None && final(self)@.running == old(self)@.running,
    {
        if self.config.is_some() {
            self.config = None;
            Ok(())
        } else {
            Err(String::from_str("not open"))
        }
    }

    /// The decision of `send`: bytes go out only while a handle is held.
    pub fn check_send(&self) -> (r: Result<(), String>)
        ensures
            (r is Ok) == spec_is_open(self@),
            r is Err ==> r->Err_0@ == "not open"@,
    {
        if self.config.is_some() {
            Ok(())
        } else {
            Err(String::from_str("not open"))
        }
    }

    /// The configuration currently held, if the session is open.
    pub fn current_config(&self) -> (r: &Option<SerialConfig>)
        ensures
            (match r {
                Some(c) => self@.config == Some(c@),
                None => self@.config is None,
            }),
    {
        &self.config
    }
}

impl Default for SerialManager {
    /// The same closed session as `new`.
    fn default() -> (r: Self)
        ensures
            r@.config is None,
            !r@.running,
    {
        SerialManager::new()
    }
}

/// The wording of an open failure: the port name and the underlying
/// driver message, both verbatim.
pub fn open_error_message(port_name: &str, cause: &str) -> (r: String)
    ensures
        r@ == "failed to open serial port "@ + port_name@ + ": "@ + cause@,
{
    let mut s = String::from_str("failed to open serial port ");
    s.append(port_name);
    s.append(": ");
    s.append(cause);
    proof {
        assert(s@ =~= "failed to open serial port "@ + port_name@ + ": "@ + cause@);
    }
    s
}

/// The wording of a write failure, with the underlying cause appended.
pub fn write_error_message(cause: &str) -> (r: String)
    ensures
        r@ == "failed to write data: "@ + cause@,
{
    let mut s = String::from_str("failed to write data: ");
    s.append(cause);
    proof {
        assert(s@ =~= "failed to write data: "@ + cause@);
    }
    s
}

/// The wording of a flush failure, with the underlying cause appended.
pub fn flush_error_message(cause: &str) -> (r: String)
    ensures
        r@ == "failed to flush serial port: "@ + cause@,
{
    let mut s = String::from_str("failed to flush serial port: ");
    s.append(cause);
    proof {
        assert(s@ =~= "failed to flush serial port: "@ + cause@);
    }
    s
}

/// The wording of a port enumeration failure.
pub fn list_ports_error_message(cause: &str) -> (r: String)
    ensures
        r@ == "failed to list serial ports: "@ + cause@,
{
    let mut s = String::from_str("failed to list serial ports: ");
    s.append(cause);
    proof {
        assert(s@ =~= "failed to list serial ports: "@ + cause@);
    }
    s
}

/// The session lifecycle, read off the state machine: a state holding a
/// configuration reports open; a state holding none reports closed and
/// refuses a send. With `complete_open` and `complete_close`, a session
/// reports open right after an open succeeds, and closed — with sends
/// refused — right after a close completes.
pub proof fn lemma_session_lifecycle(s: SerialManagerView)
    ensures
        spec_is_open(s) ==> spec_status(s) == SerialStatus::Open,
        !spec_is_open(s) ==> spec_status(s) == SerialStatus::Closed,
        !spec_is_open(s) ==> spec_status(s) != SerialStatus::Open,
        spec_reader_runs(s) ==> spec_is_open(s),
{
}

} // verus!
