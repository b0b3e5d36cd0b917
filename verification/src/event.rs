//! Sysmon events.

use crate::guid::ProcessGuid;
use crate::interner;
use crate::interner::SharedRodeo;
use crate::text;
use crate::textmap;
use crate::textmap::FieldMap;
use crate::types;
use crate::types::{MitreTechnique, Timestamp};
use lasso::Spur;
use vstd::prelude::*;

verus! {

// ---------------------------------------------------------------------------
// Event types
// ---------------------------------------------------------------------------

/// The Sysmon event types, numbered from 1 in this order.
#[derive(Debug, Clone, Copy, PartialEq, Eq, Hash, Structural)]
pub enum SysmonEventType {
    ProcessCreate,
    FileCreateTime,
    NetworkConnect,
    SysmonServiceState,
    ProcessTerminate,
    DriverLoad,
    ImageLoad,
    CreateRemoteThread,
    RawAccessRead,
    ProcessAccess,
    FileCreate,
    RegistryCreateDelete,
    RegistryValueSet,
    RegistryRename,
    FileCreateStreamHash,
    SysmonConfigChange,
    PipeCreated,
    PipeConnected,
    WmiFilter,
    WmiConsumer,
    WmiBinding,
    DnsQuery,
    FileDelete,
    ClipboardChange,
    ProcessTampering,
    FileDeleteDetected,
    FileBlockExecutable,
    FileBlockShredding,
    FileExecutableDetected,
    Unknown(u16),
}

impl SysmonEventType {
    /// The event number of a type.
    pub open spec fn number(self) -> u16 {
        match self {
            SysmonEventType::ProcessCreate => 1,
            SysmonEventType::FileCreateTime => 2,
            SysmonEventType::NetworkConnect => 3,
            SysmonEventType::SysmonServiceState => 4,
            SysmonEventType::ProcessTerminate => 5,
            SysmonEventType::DriverLoad => 6,
            SysmonEventType::ImageLoad => 7,
            SysmonEventType::CreateRemoteThread => 8,
            SysmonEventType::RawAccessRead => 9,
            SysmonEventType::ProcessAccess => 10,
            SysmonEventType::FileCreate => 11,
            SysmonEventType::RegistryCreateDelete => 12,
            SysmonEventType::RegistryValueSet => 13,
            SysmonEventType::RegistryRename => 14,
            SysmonEventType::FileCreateStreamHash => 15,
            SysmonEventType::SysmonConfigChange => 16,
            SysmonEventType::PipeCreated => 17,
            SysmonEventType::PipeConnected => 18,
            SysmonEventType::WmiFilter => 19,
            SysmonEventType::WmiConsumer => 20,
            SysmonEventType::WmiBinding => 21,
            SysmonEventType::DnsQuery => 22,
            SysmonEventType::FileDelete => 23,
            SysmonEventType::ClipboardChange => 24,
            SysmonEventType::ProcessTampering => 25,
            SysmonEventType::FileDeleteDetected => 26,
            SysmonEventType::FileBlockExecutable => 27,
            SysmonEventType::FileBlockShredding => 28,
            SysmonEventType::FileExecutableDetected => 29,
            SysmonEventType::Unknown(n) => n,
        }
    }

    /// The type with a given event number.
    pub open spec fn of_number(id: u16) -> SysmonEventType {
        if id == 1 {
            SysmonEventType::ProcessCreate
        } else if id == 2 {
            SysmonEventType::FileCreateTime
        } else if id == 3 {
            SysmonEventType::NetworkConnect
        } else if id == 4 {
            SysmonEventType::SysmonServiceState
        } else if id == 5 {
            SysmonEventType::ProcessTerminate
        } else if id == 6 {
            SysmonEventType::DriverLoad
        } else if id == 7 {
            SysmonEventType::ImageLoad
        } else if id == 8 {
            SysmonEventType::CreateRemoteThread
        } else if id == 9 {
            SysmonEventType::RawAccessRead
        } else if id == 10 {
            SysmonEventType::ProcessAccess
        } else if id == 11 {
            SysmonEventType::FileCreate
        } else if id == 12 {
            SysmonEventType::RegistryCreateDelete
        } else if id == 13 {
            SysmonEventType::RegistryValueSet
        } else if id == 14 {
            SysmonEventType::RegistryRename
        } else if id == 15 {
            SysmonEventType::FileCreateStreamHash
        } else if id == 16 {
            SysmonEventType::SysmonConfigChange
        } else if id == 17 {
            SysmonEventType::PipeCreated
        } else if id == 18 {
            SysmonEventType::PipeConnected
        } else if id == 19 {
            SysmonEventType::WmiFilter
        } else if id == 20 {
            SysmonEventType::WmiConsumer
        } else if id == 21 {
            SysmonEventType::WmiBinding
        } else if id == 22 {
            SysmonEventType::DnsQuery
        } else if id == 23 {
            SysmonEventType::FileDelete
        } else if id == 24 {
            SysmonEventType::ClipboardChange
        } else if id == 25 {
            SysmonEventType::ProcessTampering
        } else if id == 26 {
            SysmonEventType::FileDeleteDetected
        } else if id == 27 {
            SysmonEventType::FileBlockExecutable
        } else if id == 28 {
            SysmonEventType::FileBlockShredding
        } else if id == 29 {
            SysmonEventType::FileExecutableDetected
        } else {
            SysmonEventType::Unknown(id)
        }
    }

    /// The name that a type is shown by.
    pub open spec fn shown_as(self) -> Seq<char> {
        match self {
            SysmonEventType::ProcessCreate => "ProcessCreate"@,
            SysmonEventType::FileCreateTime => "FileCreateTime"@,
            SysmonEventType::NetworkConnect => "NetworkConnect"@,
            SysmonEventType::SysmonServiceState => "SysmonServiceState"@,
            SysmonEventType::ProcessTerminate => "ProcessTerminate"@,
            SysmonEventType::DriverLoad => "DriverLoad"@,
            SysmonEventType::ImageLoad => "ImageLoad"@,
            SysmonEventType::CreateRemoteThread => "CreateRemoteThread"@,
            SysmonEventType::RawAccessRead => "RawAccessRead"@,
            SysmonEventType::ProcessAccess => "ProcessAccess"@,
            SysmonEventType::FileCreate => "FileCreate"@,
            SysmonEventType::RegistryCreateDelete => "RegistryCreateDelete"@,
            SysmonEventType::RegistryValueSet => "RegistryValueSet"@,
            SysmonEventType::RegistryRename => "RegistryRename"@,
            SysmonEventType::FileCreateStreamHash => "FileCreateStreamHash"@,
            SysmonEventType::SysmonConfigChange => "SysmonConfigChange"@,
            SysmonEventType::PipeCreated => "PipeCreated"@,
            SysmonEventType::PipeConnected => "PipeConnected"@,
            SysmonEventType::WmiFilter => "WmiFilter"@,
            SysmonEventType::WmiConsumer => "WmiConsumer"@,
            SysmonEventType::WmiBinding => "WmiBinding"@,
            SysmonEventType::DnsQuery => "DnsQuery"@,
            SysmonEventType::FileDelete => "FileDelete"@,
            SysmonEventType::ClipboardChange => "ClipboardChange"@,
            SysmonEventType::ProcessTampering => "ProcessTampering"@,
            SysmonEventType::FileDeleteDetected => "FileDeleteDetected"@,
            SysmonEventType::FileBlockExecutable => "FileBlockExecutable"@,
            SysmonEventType::FileBlockShredding => "FileBlockShredding"@,
            SysmonEventType::FileExecutableDetected => "FileExecutableDetected"@,
            SysmonEventType::Unknown(_) => "Unknown"@,
        }
    }

    /// The type of the events with the given number.
    pub fn from_event_id(id: u16) -> (t: Self)
        ensures
            t == SysmonEventType::of_number(id),
    {
        match id {
            1 => SysmonEventType::ProcessCreate,
            2 => SysmonEventType::FileCreateTime,
            3 => SysmonEventType::NetworkConnect,
            4 => SysmonEventType::SysmonServiceState,
            5 => SysmonEventType::ProcessTerminate,
            6 => SysmonEventType::DriverLoad,
            7 => SysmonEventType::ImageLoad,
            8 => SysmonEventType::CreateRemoteThread,
            9 => SysmonEventType::RawAccessRead,
            10 => SysmonEventType::ProcessAccess,
            11 => SysmonEventType::FileCreate,
            12 => SysmonEventType::RegistryCreateDelete,
            13 => SysmonEventType::RegistryValueSet,
            14 => SysmonEventType::RegistryRename,
            15 => SysmonEventType::FileCreateStreamHash,
            16 => SysmonEventType::SysmonConfigChange,
            17 => SysmonEventType::PipeCreated,
            18 => SysmonEventType::PipeConnected,
            19 => SysmonEventType::WmiFilter,
            20 => SysmonEventType::WmiConsumer,
            21 => SysmonEventType::WmiBinding,
            22 => SysmonEventType::DnsQuery,
            23 => SysmonEventType::FileDelete,
            24 => SysmonEventType::ClipboardChange,
            25 => SysmonEventType::ProcessTampering,
            26 => SysmonEventType::FileDeleteDetected,
            27 => SysmonEventType::FileBlockExecutable,
            28 => SysmonEventType::FileBlockShredding,
            29 => SysmonEventType::FileExecutableDetected,
            n => SysmonEventType::Unknown(n),
        }
    }

    /// The number of the events of this type.
    pub fn event_id(&self) -> (id: u16)
        ensures
            id == self.number(),
    {
        match self {
            SysmonEventType::ProcessCreate => 1,
            SysmonEventType::FileCreateTime => 2,
            SysmonEventType::NetworkConnect => 3,
            SysmonEventType::SysmonServiceState => 4,
            SysmonEventType::ProcessTerminate => 5,
            SysmonEventType::DriverLoad => 6,
            SysmonEventType::ImageLoad => 7,
            SysmonEventType::CreateRemoteThread => 8,
            SysmonEventType::RawAccessRead => 9,
            SysmonEventType::ProcessAccess => 10,
            SysmonEventType::FileCreate => 11,
            SysmonEventType::RegistryCreateDelete => 12,
            SysmonEventType::RegistryValueSet => 13,
            SysmonEventType::RegistryRename => 14,
            SysmonEventType::FileCreateStreamHash => 15,
            SysmonEventType::SysmonConfigChange => 16,
            SysmonEventType::PipeCreated => 17,
            SysmonEventType::PipeConnected => 18,
            SysmonEventType::WmiFilter => 19,
            SysmonEventType::WmiConsumer => 20,
            SysmonEventType::WmiBinding => 21,
            SysmonEventType::DnsQuery => 22,
            SysmonEventType::FileDelete => 23,
            SysmonEventType::ClipboardChange => 24,
            SysmonEventType::ProcessTampering => 25,
            SysmonEventType::FileDeleteDetected => 26,
            SysmonEventType::FileBlockExecutable => 27,
            SysmonEventType::FileBlockShredding => 28,
            SysmonEventType::FileExecutableDetected => 29,
            SysmonEventType::Unknown(n) => *n,
        }
    }

    /// The name that this type is shown by.
    pub fn display_name(&self) -> (name: &'static str)
        ensures
            name@ == self.shown_as(),
    {
        match self {
            SysmonEventType::ProcessCreate => "ProcessCreate",
            SysmonEventType::FileCreateTime => "FileCreateTime",
            SysmonEventType::NetworkConnect => "NetworkConnect",
            SysmonEventType::SysmonServiceState => "SysmonServiceState",
            SysmonEventType::ProcessTerminate => "ProcessTerminate",
            SysmonEventType::DriverLoad => "DriverLoad",
            SysmonEventType::ImageLoad => "ImageLoad",
            SysmonEventType::CreateRemoteThread => "CreateRemoteThread",
            SysmonEventType::RawAccessRead => "RawAccessRead",
            SysmonEventType::ProcessAccess => "ProcessAccess",
            SysmonEventType::FileCreate => "FileCreate",
            SysmonEventType::RegistryCreateDelete => "RegistryCreateDelete",
            SysmonEventType::RegistryValueSet => "RegistryValueSet",
            SysmonEventType::RegistryRename => "RegistryRename",
            SysmonEventType::FileCreateStreamHash => "FileCreateStreamHash",
            SysmonEventType::SysmonConfigChange => "SysmonConfigChange",
            SysmonEventType::PipeCreated => "PipeCreated",
            SysmonEventType::PipeConnected => "PipeConnected",
            SysmonEventType::WmiFilter => "WmiFilter",
            SysmonEventType::WmiConsumer => "WmiConsumer",
            SysmonEventType::WmiBinding => "WmiBinding",
            SysmonEventType::DnsQuery => "DnsQuery",
            SysmonEventType::FileDelete => "FileDelete",
            SysmonEventType::ClipboardChange => "ClipboardChange",
            SysmonEventType::ProcessTampering => "ProcessTampering",
            SysmonEventType::FileDeleteDetected => "FileDeleteDetected",
            SysmonEventType::FileBlockExecutable => "FileBlockExecutable",
            SysmonEventType::FileBlockShredding => "FileBlockShredding",
            SysmonEventType::FileExecutableDetected => "FileExecutableDetected",
            SysmonEventType::Unknown(_) => "Unknown",
        }
    }
}

/// Every event number is that of its type.
pub proof fn law_number_of_type(id: u16)
    ensures
        SysmonEventType::of_number(id).number() == id,
{
}

/// A type is found again by its number; the exception is a type called unknown
/// whose number is one of the known ones.
pub proof fn law_type_of_number(t: SysmonEventType)
    requires
        t matches SysmonEventType::Unknown(n) ==> !(1 <= n <= 29),
    ensures
        SysmonEventType::of_number(t.number()) == t,
{
}

// ---------------------------------------------------------------------------
// Event details
// ---------------------------------------------------------------------------

/// Type-specific event detail payload. `S` is how texts are held and `M` how
/// the fields of an exotic event are.
#[allow(inconsistent_fields)]
pub enum EventDetail<S = String, M = FieldMap> {
    ProcessCreate {
        command_line: Option<S>,
        current_directory: Option<S>,
        hashes: Option<S>,
        parent_process_guid: Option<ProcessGuid>,
        parent_process_id: Option<u32>,
        parent_image: Option<S>,
        parent_command_line: Option<S>,
        parent_user: Option<S>,
        logon_guid: Option<S>,
        logon_id: Option<S>,
        terminal_session_id: Option<u32>,
        integrity_level: Option<S>,
        file_version: Option<S>,
        description: Option<S>,
        product: Option<S>,
        company: Option<S>,
        original_file_name: Option<S>,
    },
    NetworkConnect {
        protocol: Option<S>,
        initiated: Option<bool>,
        source_ip: Option<S>,
        source_port: Option<u16>,
        source_hostname: Option<S>,
        destination_ip: Option<S>,
        destination_port: Option<u16>,
        destination_hostname: Option<S>,
    },
    FileCreate {
        target_filename: Option<S>,
        creation_utc_time: Option<S>,
    },
    RegistryEvent {
        /// SetValue, CreateKey, DeleteKey, RenameKey
        event_type: Option<S>,
        target_object: Option<S>,
        details: Option<S>,
        new_name: Option<S>,
    },
    DnsQuery {
        query_name: Option<S>,
        query_status: Option<S>,
        query_results: Option<S>,
    },
    PipeEvent {
        /// CreatePipe or ConnectPipe
        event_type: S,
        pipe_name: Option<S>,
    },
    ProcessTerminate,
    CreateRemoteThread {
        source_process_guid: Option<ProcessGuid>,
        source_process_id: Option<u32>,
        source_image: Option<S>,
        target_process_guid: Option<ProcessGuid>,
        target_process_id: Option<u32>,
        target_image: Option<S>,
        start_address: Option<S>,
        start_module: Option<S>,
        start_function: Option<S>,
    },
    ProcessAccess {
        source_process_guid: Option<ProcessGuid>,
        source_process_id: Option<u32>,
        source_image: Option<S>,
        target_process_guid: Option<ProcessGuid>,
        target_process_id: Option<u32>,
        target_image: Option<S>,
        granted_access: Option<S>,
        call_trace: Option<S>,
    },
    FileDeleteEvent {
        target_filename: Option<S>,
        hashes: Option<S>,
        is_executable: Option<bool>,
    },
    DriverLoad {
        image_loaded: Option<S>,
        hashes: Option<S>,
        signature: Option<S>,
        signature_status: Option<S>,
    },
    ImageLoad {
        image_loaded: Option<S>,
        hashes: Option<S>,
        signature: Option<S>,
        signature_status: Option<S>,
        signed: Option<bool>,
    },
    FileCreateStreamHash {
        target_filename: Option<S>,
        hash: Option<S>,
        contents: Option<S>,
    },
    ProcessTampering {
        tampering_type: Option<S>,
    },
    ClipboardChange {
        session: Option<S>,
        client_info: Option<S>,
        hashes: Option<S>,
    },
    RawAccessRead {
        device: Option<S>,
    },
    SysmonConfigChange {
        configuration: Option<S>,
        configuration_file_hash: Option<S>,
    },
    FileCreateTime {
        target_filename: Option<S>,
        creation_utc_time: Option<S>,
        previous_creation_utc_time: Option<S>,
    },
    WmiActivity {
        event_type: S,
        operation: Option<S>,
        user: Option<S>,
        event_namespace: Option<S>,
        name: Option<S>,
        query: Option<S>,
        destination: Option<S>,
        consumer_type: Option<S>,
        filter_name: Option<S>,
    },
    /// Fallback for unrecognized or exotic event types.
    Generic {
        fields: M,
    },
}

/// A detail payload as text.
pub type DetailText = EventDetail<Seq<char>, Map<Seq<char>, Seq<char>>>;

impl EventDetail {
    /// The payload as text.
    pub open spec fn view(&self) -> DetailText {
        match self {
            EventDetail::ProcessCreate {
                command_line,
                current_directory,
                hashes,
                parent_process_guid,
                parent_process_id,
                parent_image,
                parent_command_line,
                parent_user,
                logon_guid,
                logon_id,
                terminal_session_id,
                integrity_level,
                file_version,
                description,
                product,
                company,
                original_file_name,
            } => EventDetail::ProcessCreate {
                command_line: text::opt_text(*command_line),
                current_directory: text::opt_text(*current_directory),
                hashes: text::opt_text(*hashes),
                parent_process_guid: *parent_process_guid,
                parent_process_id: *parent_process_id,
                parent_image: text::opt_text(*parent_image),
                parent_command_line: text::opt_text(*parent_command_line),
                parent_user: text::opt_text(*parent_user),
                logon_guid: text::opt_text(*logon_guid),
                logon_id: text::opt_text(*logon_id),
                terminal_session_id: *terminal_session_id,
                integrity_level: text::opt_text(*integrity_level),
                file_version: text::opt_text(*file_version),
                description: text::opt_text(*description),
                product: text::opt_text(*product),
                company: text::opt_text(*company),
                original_file_name: text::opt_text(*original_file_name),
            },
            EventDetail::NetworkConnect {
                protocol,
                initiated,
                source_ip,
                source_port,
                source_hostname,
                destination_ip,
                destination_port,
                destination_hostname,
            } => EventDetail::NetworkConnect {
                protocol: text::opt_text(*protocol),
                initiated: *initiated,
                source_ip: text::opt_text(*source_ip),
                source_port: *source_port,
                source_hostname: text::opt_text(*source_hostname),
                destination_ip: text::opt_text(*destination_ip),
                destination_port: *destination_port,
                destination_hostname: text::opt_text(*destination_hostname),
            },
            EventDetail::FileCreate {
                target_filename,
                creation_utc_time,
            } => EventDetail::FileCreate {
                target_filename: text::opt_text(*target_filename),
                creation_utc_time: text::opt_text(*creation_utc_time),
            },
            EventDetail::RegistryEvent {
                event_type,
                target_object,
                details,
                new_name,
            } => EventDetail::RegistryEvent {
                event_type: text::opt_text(*event_type),
                target_object: text::opt_text(*target_object),
                details: text::opt_text(*details),
                new_name: text::opt_text(*new_name),
            },
            EventDetail::DnsQuery {
                query_name,
                query_status,
                query_results,
            } => EventDetail::DnsQuery {
                query_name: text::opt_text(*query_name),
                query_status: text::opt_text(*query_status),
                query_results: text::opt_text(*query_results),
            },
            EventDetail::PipeEvent {
                event_type,
                pipe_name,
            } => EventDetail::PipeEvent {
                event_type: event_type@,
                pipe_name: text::opt_text(*pipe_name),
            },
            EventDetail::ProcessTerminate => EventDetail::ProcessTerminate,
            EventDetail::CreateRemoteThread {
                source_process_guid,
                source_process_id,
                source_image,
                target_process_guid,
                target_process_id,
                target_image,
                start_address,
                start_module,
                start_function,
            } => EventDetail::CreateRemoteThread {
                source_process_guid: *source_process_guid,
                source_process_id: *source_process_id,
                source_image: text::opt_text(*source_image),
                target_process_guid: *target_process_guid,
                target_process_id: *target_process_id,
                target_image: text::opt_text(*target_image),
                start_address: text::opt_text(*start_address),
                start_module: text::opt_text(*start_module),
                start_function: text::opt_text(*start_function),
            },
            EventDetail::ProcessAccess {
                source_process_guid,
                source_process_id,
                source_image,
                target_process_guid,
                target_process_id,
                target_image,
                granted_access,
                call_trace,
            } => EventDetail::ProcessAccess {
                source_process_guid: *source_process_guid,
                source_process_id: *source_process_id,
                source_image: text::opt_text(*source_image),
                target_process_guid: *target_process_guid,
                target_process_id: *target_process_id,
                target_image: text::opt_text(*target_image),
                granted_access: text::opt_text(*granted_access),
                call_trace: text::opt_text(*call_trace),
            },
            EventDetail::FileDeleteEvent {
                target_filename,
                hashes,
                is_executable,
            } => EventDetail::FileDeleteEvent {
                target_filename: text::opt_text(*target_filename),
                hashes: text::opt_text(*hashes),
                is_executable: *is_executable,
            },
            EventDetail::DriverLoad {
                image_loaded,
                hashes,
                signature,
                signature_status,
            } => EventDetail::DriverLoad {
                image_loaded: text::opt_text(*image_loaded),
                hashes: text::opt_text(*hashes),
                signature: text::opt_text(*signature),
                signature_status: text::opt_text(*signature_status),
            },
            EventDetail::ImageLoad {
                image_loaded,
                hashes,
                signature,
                signature_status,
                signed,
            } => EventDetail::ImageLoad {
                image_loaded: text::opt_text(*image_loaded),
                hashes: text::opt_text(*hashes),
                signature: text::opt_text(*signature),
                signature_status: text::opt_text(*signature_status),
                signed: *signed,
            },
            EventDetail::FileCreateStreamHash {
                target_filename,
                hash,
                contents,
            } => EventDetail::FileCreateStreamHash {
                target_filename: text::opt_text(*target_filename),
                hash: text::opt_text(*hash),
                contents: text::opt_text(*contents),
            },
            EventDetail::ProcessTampering {
                tampering_type,
            } => EventDetail::ProcessTampering {
                tampering_type: text::opt_text(*tampering_type),
            },
            EventDetail::ClipboardChange {
                session,
                client_info,
                hashes,
            } => EventDetail::ClipboardChange {
                session: text::opt_text(*session),
                client_info: text::opt_text(*client_info),
                hashes: text::opt_text(*hashes),
            },
            EventDetail::RawAccessRead {
                device,
            } => EventDetail::RawAccessRead {
                device: text::opt_text(*device),
            },
            EventDetail::SysmonConfigChange {
                configuration,
                configuration_file_hash,
            } => EventDetail::SysmonConfigChange {
                configuration: text::opt_text(*configuration),
                configuration_file_hash: text::opt_text(*configuration_file_hash),
            },
            EventDetail::FileCreateTime {
                target_filename,
                creation_utc_time,
                previous_creation_utc_time,
            } => EventDetail::FileCreateTime {
                target_filename: text::opt_text(*target_filename),
                creation_utc_time: text::opt_text(*creation_utc_time),
                previous_creation_utc_time: text::opt_text(*previous_creation_utc_time),
            },
            EventDetail::WmiActivity {
                event_type,
                operation,
                user,
                event_namespace,
                name,
                query,
                destination,
                consumer_type,
                filter_name,
            } => EventDetail::WmiActivity {
                event_type: event_type@,
                operation: text::opt_text(*operation),
                user: text::opt_text(*user),
                event_namespace: text::opt_text(*event_namespace),
                name: text::opt_text(*name),
                query: text::opt_text(*query),
                destination: text::opt_text(*destination),
                consumer_type: text::opt_text(*consumer_type),
                filter_name: text::opt_text(*filter_name),
            },
            EventDetail::Generic {
                fields,
            } => EventDetail::Generic {
                fields: textmap::fields_of(*fields),
            },
        }
    }
}

impl<S, M> EventDetail<S, M> {
    /// The process that a cross-process event is aimed at.
    pub open spec fn target(self) -> Option<ProcessGuid> {
        match self {
            EventDetail::CreateRemoteThread { target_process_guid, .. } => target_process_guid,
            EventDetail::ProcessAccess { target_process_guid, .. } => target_process_guid,
            _ => None,
        }
    }
}

// ---------------------------------------------------------------------------
// Events
// ---------------------------------------------------------------------------

/// A fully parsed Sysmon event: common fields and type-specific detail.
///
/// `computer`, `image` and `user` are held as keys of a `SharedRodeo`, through
/// which they are resolved. `K`, `S` and `M` are how interned texts, other
/// texts and field maps are held.
pub struct SysmonEvent<K = Spur, S = String, M = FieldMap> {
    pub event_id: u16,
    pub event_type: SysmonEventType,
    pub time_created: Timestamp,
    pub record_number: u64,
    /// Host name.
    pub computer: K,
    pub process_guid: Option<ProcessGuid>,
    pub process_id: Option<u32>,
    /// Image path (e.g. `C:\Windows\System32\svchost.exe`).
    pub image: Option<K>,
    /// User name.
    pub user: Option<K>,
    pub rule_name: Option<S>,
    pub mitre_technique: Option<MitreTechnique<S>>,
    pub detail: EventDetail<S, M>,
}

/// An event as text.
pub type EventText = SysmonEvent<Seq<char>, Seq<char>, Map<Seq<char>, Seq<char>>>;

/// The text behind an optional key.
pub open spec fn opt_interned(r: SharedRodeo, key: Option<Spur>) -> Option<Seq<char>> {
    match key {
        Some(k) => Some(interner::text_of(r, k)),
        None => None,
    }
}

impl SysmonEvent {
    /// Whether the interner holds every key of the event.
    pub open spec fn held_by(&self, r: SharedRodeo) -> bool {
        &&& interner::holds(r, self.computer)
        &&& self.image matches Some(k) ==> interner::holds(r, k)
        &&& self.user matches Some(k) ==> interner::holds(r, k)
    }

    /// The event as text, its keys resolved through the interner.
    pub open spec fn resolved(&self, r: SharedRodeo) -> EventText {
        SysmonEvent {
            event_id: self.event_id,
            event_type: self.event_type,
            time_created: self.time_created,
            record_number: self.record_number,
            computer: interner::text_of(r, self.computer),
            process_guid: self.process_guid,
            process_id: self.process_id,
            image: opt_interned(r, self.image),
            user: opt_interned(r, self.user),
            rule_name: text::opt_text(self.rule_name),
            mitre_technique: types::opt_mitre(self.mitre_technique),
            detail: self.detail@,
        }
    }

    /// For cross-process events the process that the event is aimed at.
    pub fn secondary_process_guid(&self) -> (g: Option<ProcessGuid>)
        ensures
            g == self.detail.target(),
    {
        match &self.detail {
            EventDetail::CreateRemoteThread { target_process_guid, .. } => *target_process_guid,
            EventDetail::ProcessAccess { target_process_guid, .. } => *target_process_guid,
            _ => None,
        }
    }
}

} // verus!
