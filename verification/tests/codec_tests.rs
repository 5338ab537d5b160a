use did_ethr_linked_resources::codec::{
    bitmap_to_bytes, bytes_to_bitmap, LedgerDataTransformer, StatusListUpdateLedgerData,
};
use did_ethr_linked_resources::errors::DlrError;
use did_ethr_linked_resources::ACCUMULATOR_BYTE_SIZE;

fn sample_accumulator() -> Vec<u8> {
    (0..ACCUMULATOR_BYTE_SIZE).map(|i| (i * 7 % 251) as u8).collect()
}

#[test]
fn bit_zero_sets_high_bit_of_byte_zero() {
    let mut bits = vec![false; 8];
    bits[0] = true;
    let bytes = bitmap_to_bytes(&bits);
    assert_eq!(bytes, vec![0x80]);
}

#[test]
fn bit_seven_sets_low_bit_of_byte_zero() {
    let mut bits = vec![false; 8];
    bits[7] = true;
    let bytes = bitmap_to_bytes(&bits);
    assert_eq!(bytes, vec![0x01]);
}

#[test]
fn bit_eight_sets_high_bit_of_byte_one() {
    let mut bits = vec![false; 16];
    bits[8] = true;
    let bytes = bitmap_to_bytes(&bits);
    assert_eq!(bytes, vec![0x00, 0x80]);
}

#[test]
fn packing_rounds_up_to_whole_bytes() {
    assert_eq!(bitmap_to_bytes(&vec![false; 0]).len(), 0);
    assert_eq!(bitmap_to_bytes(&vec![false; 1]).len(), 1);
    assert_eq!(bitmap_to_bytes(&vec![false; 8]).len(), 1);
    assert_eq!(bitmap_to_bytes(&vec![false; 9]).len(), 2);
    assert_eq!(bitmap_to_bytes(&vec![false; 16]).len(), 2);
}

#[test]
fn unpacking_reads_high_bit_first() {
    let bits = bytes_to_bitmap(&vec![0xA5]);
    assert_eq!(bits, vec![true, false, true, false, false, true, false, true]);
}

#[test]
fn status_list_round_trips_through_ledger_bytes() {
    let original = StatusListUpdateLedgerData {
        accumulator: sample_accumulator(),
        rev_list: vec![
            true, false, false, true, true, false, true, false, false, false, true, true, false,
            false, false, true,
        ],
    };
    let encoded = original.clone().into_ledger_bytes();
    assert_eq!(encoded.len(), ACCUMULATOR_BYTE_SIZE + 2);
    let decoded = StatusListUpdateLedgerData::from_ledger_bytes(&encoded).unwrap();
    assert_eq!(decoded.accumulator, original.accumulator);
    assert_eq!(decoded.rev_list, original.rev_list);
}

#[test]
fn encoded_length_is_accumulator_plus_bitmap_ceiling() {
    for n in [0usize, 1, 7, 8, 9, 15, 16, 17, 100] {
        let data = StatusListUpdateLedgerData {
            accumulator: sample_accumulator(),
            rev_list: vec![true; n],
        };
        let encoded = data.into_ledger_bytes();
        assert_eq!(encoded.len(), ACCUMULATOR_BYTE_SIZE + n.div_ceil(8));
    }
}

#[test]
fn short_input_fails_decoding() {
    let r = StatusListUpdateLedgerData::from_ledger_bytes(&vec![0u8; ACCUMULATOR_BYTE_SIZE - 1]);
    assert_eq!(r.unwrap_err(), DlrError::DataTooShort);
    assert!(StatusListUpdateLedgerData::from_ledger_bytes(&[]).is_err());
}

#[test]
fn accumulator_alone_decodes_to_empty_bitmap() {
    let decoded =
        StatusListUpdateLedgerData::from_ledger_bytes(&vec![3u8; ACCUMULATOR_BYTE_SIZE]).unwrap();
    assert_eq!(decoded.accumulator, vec![3u8; ACCUMULATOR_BYTE_SIZE]);
    assert!(decoded.rev_list.is_empty());
}

#[test]
fn decoding_splits_exactly_at_the_accumulator_boundary() {
    let mut encoded = sample_accumulator();
    encoded.push(0x80);
    let decoded = StatusListUpdateLedgerData::from_ledger_bytes(&encoded).unwrap();
    assert_eq!(decoded.accumulator, sample_accumulator());
    assert_eq!(
        decoded.rev_list,
        vec![true, false, false, false, false, false, false, false]
    );
}
