use h264::nal::{
    annex_b_nal_units, length_prefixed_nal_units, nal_units_to_annex_b,
    remove_emulation_prevention, AvcDecoderConfigurationRecord, NalUnitHeader, NalUnitType,
};

#[test]
fn recognizes_three_and_four_byte_annex_b_prefixes() {
    let bytes = [0, 0, 0, 1, 0x67, 1, 2, 0, 0, 1, 0x68, 3];
    let units = annex_b_nal_units(&bytes).unwrap();
    assert_eq!(units.len(), 2);
    assert_eq!(units[0].header.unit_type, NalUnitType::Sps);
    assert_eq!(units[1].header.unit_type, NalUnitType::Pps);
}

#[test]
fn converts_length_prefixes_and_rejects_truncation() {
    let bytes = [0, 2, 0x65, 0x88, 0, 1, 0x06];
    let units = length_prefixed_nal_units(&bytes, 2).unwrap();
    assert_eq!(units.len(), 2);
    assert_eq!(units[0].header.unit_type, NalUnitType::IdrSlice);
    assert_eq!(nal_units_to_annex_b(&bytes, 2).unwrap()[..4], [0, 0, 0, 1]);
    assert!(length_prefixed_nal_units(&bytes[..6], 2).is_err());
}

#[test]
fn parses_avcc_and_builds_parameter_set_preamble() {
    let bytes = [1, 100, 0, 40, 0xff, 0xe1, 0, 2, 0x67, 0x64, 1, 0, 1, 0x68];
    let record = AvcDecoderConfigurationRecord::parse(&bytes).unwrap();
    assert_eq!(record.length_size, 4);
    assert_eq!(record.sequence_parameter_sets, vec![vec![0x67, 0x64]]);
    assert_eq!(record.picture_parameter_sets, vec![vec![0x68]]);
    assert_eq!(&record.parameter_sets_annex_b()[..4], &[0, 0, 0, 1]);
}

#[test]
fn removes_only_emulation_prevention_bytes() {
    assert_eq!(
        remove_emulation_prevention(&[0, 0, 3, 1, 0, 0, 3, 3, 4]),
        [0, 0, 1, 0, 0, 3, 4]
    );
}

#[test]
fn unit_types_keep_their_numbers() {
    for number in 0..32_u8 {
        assert_eq!(NalUnitType::from_value(number).value(), number);
    }
    assert_eq!(NalUnitType::from_value(7), NalUnitType::Sps);
}

#[test]
fn headers_split_into_reference_and_type() {
    let header = NalUnitHeader::parse(0x65).unwrap();
    assert_eq!(header.reference_idc, 3);
    assert_eq!(header.unit_type, NalUnitType::IdrSlice);
    assert!(NalUnitHeader::parse(0x80).is_err());
}
