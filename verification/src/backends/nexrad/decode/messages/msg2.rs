//! RDA Status Data message: sixty big-endian halfwords.

use crate::backends::nexrad::decode::error::{eof, NexradDecodeError};
use crate::backends::nexrad::decode::reader::SliceReader;
use crate::wire::{be16, be16s, to_signed16};
use vstd::prelude::*;

verus! {

/// Wire size of the message body: 60 halfwords.
pub const MSG2_BYTES: usize = 120;

/// Decoded RDA status. Fields follow the message table in order.
#[derive(Debug, Clone, Copy, PartialEq, Eq)]
pub struct Msg2 {
    pub rda_status: u16,
    pub operability_status: u16,
    pub control_status: u16,
    pub auxiliary_power_generator_state: u16,
    pub average_transmitter_power_w: u16,
    pub horizontal_reflectivity_calibration_correction: i16,
    pub data_transmission_enabled: u16,
    pub volume_coverage_pattern_number: i16,
    pub rda_control_authorization: u16,
    /// Build number as a scaled integer (`1900` = 19.0).
    pub rda_build_number: u16,
    pub operational_mode: u16,
    pub super_resolution_status: u16,
    pub clutter_mitigation_decision_status: u16,
    /// AVSET, EBC, RDA log and time series flag bits.
    pub rda_scan_and_data_flags: u16,
    pub rda_alarm_summary: u16,
    pub command_acknowledgement: u16,
    pub channel_control_status: u16,
    pub spot_blanking_status: u16,
    pub bypass_map_generation_date: u16,
    pub bypass_map_generation_time: u16,
    pub clutter_filter_map_generation_date: u16,
    pub clutter_filter_map_generation_time: u16,
    pub vertical_reflectivity_calibration_correction: i16,
    pub transition_power_source_status: u16,
    pub rms_control_status: u16,
    pub performance_check_status: u16,
    /// Fourteen alarm codes; the most significant bit marks a cleared alarm.
    pub alarm_codes: [u16; 14],
    pub signal_processing_options: u16,
    /// Seventeen reserved halfwords, kept as transmitted.
    pub spares: [u16; 17],
    pub downloaded_pattern_number: u16,
    pub status_version: u16,
}

/// Halfword `n`, counted from one, of the message that starts at `p`.
pub open spec fn halfword(d: Seq<u8>, p: int, n: int) -> u16 {
    be16(d, p + 2 * (n - 1))
}

impl Msg2 {
    /// `self` is what the 120 bytes at `p` encode.
    pub open spec fn is_at(&self, d: Seq<u8>, p: int) -> bool {
        &&& self.rda_status == halfword(d, p, 1)
        &&& self.operability_status == halfword(d, p, 2)
        &&& self.control_status == halfword(d, p, 3)
        &&& self.auxiliary_power_generator_state == halfword(d, p, 4)
        &&& self.average_transmitter_power_w == halfword(d, p, 5)
        &&& self.horizontal_reflectivity_calibration_correction == be16s(d, p + 10)
        &&& self.data_transmission_enabled == halfword(d, p, 7)
        &&& self.volume_coverage_pattern_number == be16s(d, p + 14)
        &&& self.rda_control_authorization == halfword(d, p, 9)
        &&& self.rda_build_number == halfword(d, p, 10)
        &&& self.operational_mode == halfword(d, p, 11)
        &&& self.super_resolution_status == halfword(d, p, 12)
        &&& self.clutter_mitigation_decision_status == halfword(d, p, 13)
        &&& self.rda_scan_and_data_flags == halfword(d, p, 14)
        &&& self.rda_alarm_summary == halfword(d, p, 15)
        &&& self.command_acknowledgement == halfword(d, p, 16)
        &&& self.channel_control_status == halfword(d, p, 17)
        &&& self.spot_blanking_status == halfword(d, p, 18)
        &&& self.bypass_map_generation_date == halfword(d, p, 19)
        &&& self.bypass_map_generation_time == halfword(d, p, 20)
        &&& self.clutter_filter_map_generation_date == halfword(d, p, 21)
        &&& self.clutter_filter_map_generation_time == halfword(d, p, 22)
        &&& self.vertical_reflectivity_calibration_correction == be16s(d, p + 44)
        &&& self.transition_power_source_status == halfword(d, p, 24)
        &&& self.rms_control_status == halfword(d, p, 25)
        &&& self.performance_check_status == halfword(d, p, 26)
        &&& self.alarm_codes@ == Seq::new(14, |i: int| halfword(d, p, 27 + i))
        &&& self.signal_processing_options == halfword(d, p, 41)
        &&& self.spares@ == Seq::new(17, |i: int| halfword(d, p, 42 + i))
        &&& self.downloaded_pattern_number == halfword(d, p, 59)
        &&& self.status_version == halfword(d, p, 60)
    }

    /// Parse exactly [`MSG2_BYTES`] from `reader`. A short input fails at the
    /// first halfword that is not whole.
    pub fn read(reader: &mut SliceReader<'_>) -> (r: Result<Self, NexradDecodeError>)
        requires
            old(reader).wf(),
        ensures
            final(reader).wf(),
            final(reader).data() == old(reader).data(),
            match r {
                Ok(m) => {
                    &&& old(reader).pos() + MSG2_BYTES <= old(reader).data().len()
                    &&& m.is_at(old(reader).data(), old(reader).pos())
                    &&& final(reader).pos() == old(reader).pos() + MSG2_BYTES
                },
                Err(e) => {
                    let len = old(reader).data().len() as int;
                    let whole = (len - old(reader).pos()) / 2;
                    &&& old(reader).pos() + MSG2_BYTES > len
                    &&& e == eof(old(reader).pos() + 2 * whole, 2, len)
                },
            },
    {
        let ghost d = reader.data();
        let ghost p = reader.pos();
        let mut hw: [u16; 60] = [0u16; 60];
        let mut n: usize = 0;
        while n < 60
            invariant
                n <= 60,
                reader.wf(),
                reader.data() == d,
                reader.pos() == p + 2 * n,
                hw@.len() == 60,
                forall|j: int| 0 <= j < n ==> hw@[j] == halfword(d, p, 1 + j),
                d == old(reader).data(),
                p == old(reader).pos(),
            decreases 60 - n,
        {
            let v: u16 = reader.read_u16_be()?;
            hw[n] = v;
            n += 1;
        }
        let mut alarm_codes: [u16; 14] = [0u16; 14];
        let mut i: usize = 0;
        while i < 14
            invariant
                i <= 14,
                alarm_codes@.len() == 14,
                hw@.len() == 60,
                forall|j: int| 0 <= j < i ==> alarm_codes@[j] == hw@[26 + j],
            decreases 14 - i,
        {
            alarm_codes[i] = hw[26 + i];
            i += 1;
        }
        let mut spares: [u16; 17] = [0u16; 17];
        let mut k: usize = 0;
        while k < 17
            invariant
                k <= 17,
                spares@.len() == 17,
                hw@.len() == 60,
                forall|j: int| 0 <= j < k ==> spares@[j] == hw@[41 + j],
            decreases 17 - k,
        {
            spares[k] = hw[41 + k];
            k += 1;
        }
        assert(alarm_codes@ =~= Seq::new(14, |i: int| halfword(d, p, 27 + i)));
        assert(spares@ =~= Seq::new(17, |i: int| halfword(d, p, 42 + i)));
        Ok(
            Self {
                rda_status: hw[0],
                operability_status: hw[1],
                control_status: hw[2],
                auxiliary_power_generator_state: hw[3],
                average_transmitter_power_w: hw[4],
                horizontal_reflectivity_calibration_correction: to_signed16(hw[5]),
                data_transmission_enabled: hw[6],
                volume_coverage_pattern_number: to_signed16(hw[7]),
                rda_control_authorization: hw[8],
                rda_build_number: hw[9],
                operational_mode: hw[10],
                super_resolution_status: hw[11],
                clutter_mitigation_decision_status: hw[12],
                rda_scan_and_data_flags: hw[13],
                rda_alarm_summary: hw[14],
                command_acknowledgement: hw[15],
                channel_control_status: hw[16],
                spot_blanking_status: hw[17],
                bypass_map_generation_date: hw[18],
                bypass_map_generation_time: hw[19],
                clutter_filter_map_generation_date: hw[20],
                clutter_filter_map_generation_time: hw[21],
                vertical_reflectivity_calibration_correction: to_signed16(hw[22]),
                transition_power_source_status: hw[23],
                rms_control_status: hw[24],
                performance_check_status: hw[25],
                alarm_codes,
                signal_processing_options: hw[40],
                spares,
                downloaded_pattern_number: hw[58],
                status_version: hw[59],
            },
        )
    }
}

/// Halfword `n` of a status, counted from one, takes the bytes from
/// `2 * (n - 1)` on.
pub proof fn status_fields_stand_at_their_halfwords(m: Msg2, body: Seq<u8>)
    requires
        m.is_at(body, 0),
    ensures
        m.rda_status == be16(body, 0),
        m.operability_status == be16(body, 2),
        m.control_status == be16(body, 4),
        m.auxiliary_power_generator_state == be16(body, 6),
        m.average_transmitter_power_w == be16(body, 8),
        m.horizontal_reflectivity_calibration_correction == be16s(body, 10),
        m.data_transmission_enabled == be16(body, 12),
        m.volume_coverage_pattern_number == be16s(body, 14),
        m.rda_control_authorization == be16(body, 16),
        m.rda_build_number == be16(body, 18),
        m.operational_mode == be16(body, 20),
        m.super_resolution_status == be16(body, 22),
        m.clutter_mitigation_decision_status == be16(body, 24),
        m.rda_scan_and_data_flags == be16(body, 26),
        m.rda_alarm_summary == be16(body, 28),
        m.command_acknowledgement == be16(body, 30),
        m.channel_control_status == be16(body, 32),
        m.spot_blanking_status == be16(body, 34),
        m.bypass_map_generation_date == be16(body, 36),
        m.bypass_map_generation_time == be16(body, 38),
        m.clutter_filter_map_generation_date == be16(body, 40),
        m.clutter_filter_map_generation_time == be16(body, 42),
        m.vertical_reflectivity_calibration_correction == be16s(body, 44),
        m.transition_power_source_status == be16(body, 46),
        m.rms_control_status == be16(body, 48),
        m.performance_check_status == be16(body, 50),
        forall|i: int| 0 <= i < 14 ==> #[trigger] m.alarm_codes@[i] == be16(body, 52 + 2 * i),
        m.signal_processing_options == be16(body, 80),
        m.downloaded_pattern_number == be16(body, 116),
        m.status_version == be16(body, 118),
{
}

} // verus!
