use std_reference::struct_types::{RefData, ReferenceData};

#[test]
fn has_coins_matches() {
    let ref_data = RefData::new(100u128, 200, 300);

    assert_eq!(100u128, ref_data.rate);
    assert_eq!(200, ref_data.resolve_time);
    assert_eq!(300, ref_data.request_id);
}

#[test]
fn reference_data_keeps_its_fields() {
    let data = ReferenceData::new(7u128, 8, 9);

    assert_eq!(7u128, data.rate);
    assert_eq!(8, data.last_updated_base);
    assert_eq!(9, data.last_updated_quote);
    assert_eq!(data, ReferenceData { rate: 7, last_updated_base: 8, last_updated_quote: 9 });
}
