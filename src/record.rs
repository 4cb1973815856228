use vstd::prelude::*;

verus! {

/// One frequency-domain subcarrier coefficient.
#[derive(Clone, Copy, Debug, PartialEq, Eq, Structural)]
pub struct ComplexSample {
    pub real: i16,
    pub imaginary: i16,
}

/// The decoded, reorder-corrected content of one raw frame.
#[derive(Clone, Debug, PartialEq, Eq)]
pub struct CsiRecord {
    pub rssi: i8,
    pub frame_control: u8,
    pub source_mac: u64,
    pub sequence_number: u16,
    pub subcarriers: Vec<ComplexSample>,
}

/// What a `CsiRecord` holds, as a mathematical value.
pub struct CsiRecordView {
    pub rssi: i8,
    pub frame_control: u8,
    pub source_mac: u64,
    pub sequence_number: u16,
    pub subcarriers: Seq<ComplexSample>,
}

impl View for CsiRecord {
    type V = CsiRecordView;

    open spec fn view(&self) -> CsiRecordView {
        CsiRecordView {
            rssi: self.rssi,
            frame_control: self.frame_control,
            source_mac: self.source_mac,
            sequence_number: self.sequence_number,
            subcarriers: self.subcarriers@,
        }
    }
}

} // verus!
