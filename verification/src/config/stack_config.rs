//! Network and cell settings of the stack, and its run-time state.
use vstd::prelude::*;

verus! {

/// Role the stack runs in.
#[derive(Debug, Clone, Copy, PartialEq, Eq, Structural)]
pub enum StackMode {
    Bs,
    Ms,
    Mon,
}

/// The PHY layer backend type.
#[derive(Debug, Clone, Copy, PartialEq, Eq, Structural)]
pub enum PhyBackend {
    Undefined,
    /// No backend (for testing)
    NoBackend,
    SoapySdr,
}

/// Network identity.
#[derive(Debug, Clone, Copy, PartialEq, Eq, Structural)]
pub struct CfgNetInfo {
    /// 10 bits, from 18.4.2.1 D-MLE-SYNC
    pub mcc: u16,
    /// 14 bits, from 18.4.2.1 D-MLE-SYNC
    pub mnc: u16,
}

/// Cell settings broadcast in SYNC, SYSINFO, D-MLE-SYNC and D-MLE-SYSINFO.
#[derive(Debug, Clone, Copy, PartialEq, Eq)]
pub struct CfgCellInfo {
    /// 2 bits, from 18.4.2.1 D-MLE-SYNC
    pub neighbor_cell_broadcast: u8,
    /// 2 bits, from 18.4.2.1 D-MLE-SYNC
    pub cell_load_ca: u8,
    /// 1 bit, from 18.4.2.1 D-MLE-SYNC
    pub late_entry_supported: bool,
    /// 12 bits, from MAC SYSINFO
    pub main_carrier: u16,
    /// 4 bits, from MAC SYSINFO
    pub freq_band: u8,
    /// Offset in Hz from the 25 kHz aligned carrier: 0, 6250, -6250 or 12500 Hz
    /// (0 to 3 in SYSINFO)
    pub freq_offset_hz: i16,
    /// Index in the duplex setting table, sent in SYSINFO
    pub duplex_spacing_id: u8,
    /// Custom duplex spacing in Hz, for a non-standard duplex spacing table
    pub custom_duplex_spacing: Option<u32>,
    /// 1 bit, from MAC SYSINFO
    pub reverse_operation: bool,
    /// 14 bits, from 18.4.2.2 D-MLE-SYSINFO
    pub location_area: u16,
    /// 16 bits, from 18.4.2.2 D-MLE-SYSINFO
    pub subscriber_class: u16,
    pub registration: bool,
    pub deregistration: bool,
    pub priority_cell: bool,
    pub no_minimum_mode: bool,
    pub migration: bool,
    pub system_wide_services: bool,
    pub voice_service: bool,
    pub circuit_mode_data_service: bool,
    pub sndcp_service: bool,
    pub aie_service: bool,
    pub advanced_link: bool,
    /// From SYNC
    pub system_code: u8,
    pub colour_code: u8,
    pub sharing_mode: u8,
    pub ts_reserved_frames: u8,
    pub u_plane_dtx: bool,
    pub frame_18_ext: bool,
}

/// Default frequency band.
pub fn default_freq_band() -> (r: u8)
    ensures
        r == 4,
{
    4
}

/// Default main carrier.
pub fn default_main_carrier() -> (r: u16)
    ensures
        r == 1521,
{
    1521
}

/// Default role of the stack: base station.
pub fn default_stack_mode() -> (r: StackMode)
    ensures
        r == StackMode::Bs,
{
    StackMode::Bs
}

/// The default cell settings: frequency band 4, main carrier 1521, registration and
/// deregistration offered, everything else zero, off or absent.
pub open spec fn default_cell_info() -> CfgCellInfo {
    CfgCellInfo {
        freq_band: 4,
        main_carrier: 1521,
        freq_offset_hz: 0,
        duplex_spacing_id: 0,
        custom_duplex_spacing: None,
        reverse_operation: false,
        neighbor_cell_broadcast: 0,
        cell_load_ca: 0,
        late_entry_supported: false,
        location_area: 0,
        subscriber_class: 0,
        registration: true,
        deregistration: true,
        priority_cell: false,
        no_minimum_mode: false,
        migration: false,
        system_wide_services: false,
        voice_service: false,
        circuit_mode_data_service: false,
        sndcp_service: false,
        aie_service: false,
        advanced_link: false,
        system_code: 0,
        colour_code: 0,
        sharing_mode: 0,
        ts_reserved_frames: 0,
        u_plane_dtx: false,
        frame_18_ext: false,
    }
}

impl Default for CfgCellInfo {
    fn default() -> (r: Self)
        ensures
            r == default_cell_info(),
    {
        Self {
            freq_band: default_freq_band(),
            main_carrier: default_main_carrier(),
            freq_offset_hz: 0,
            duplex_spacing_id: 0,
            custom_duplex_spacing: None,
            reverse_operation: false,
            neighbor_cell_broadcast: 0,
            cell_load_ca: 0,
            late_entry_supported: false,
            location_area: 0,
            subscriber_class: 0,
            registration: true,
            deregistration: true,
            priority_cell: false,
            no_minimum_mode: false,
            migration: false,
            system_wide_services: false,
            voice_service: false,
            circuit_mode_data_service: false,
            sndcp_service: false,
            aie_service: false,
            advanced_link: false,
            system_code: 0,
            colour_code: 0,
            sharing_mode: 0,
            ts_reserved_frames: 0,
            u_plane_dtx: false,
            frame_18_ext: false,
        }
    }
}

/// Mutable, stack-editable state.
#[derive(Debug, Clone, Copy, PartialEq, Eq, Structural)]
pub struct StackState {
    pub cell_load_ca: u8,
}

impl Default for StackState {
    fn default() -> (r: Self)
        ensures
            r == (StackState { cell_load_ca: 0 }),
    {
        StackState { cell_load_ca: 0 }
    }
}

} // verus!
