use drisk_api::{id_from_bytes, id_to_bytes, IdError};

#[test]
fn sixteen_bytes_are_read_most_significant_first() {
    let bytes = [
        0x00, 0x00, 0x00, 0x00, 0x00, 0x00, 0x00, 0x00, 0x00, 0x00, 0x00, 0x00, 0x00, 0x00, 0x01,
        0x02,
    ];
    assert_eq!(id_from_bytes(&bytes), Ok(258));
    let high = [
        0x80, 0, 0, 0, 0, 0, 0, 0, 0, 0, 0, 0, 0, 0, 0, 0,
    ];
    assert_eq!(id_from_bytes(&high), Ok(1u128 << 127));
    assert_eq!(id_from_bytes(&[0xff; 16]), Ok(u128::MAX));
    assert_eq!(id_from_bytes(&[0; 16]), Ok(0));
}

#[test]
fn any_other_length_is_refused() {
    assert_eq!(id_from_bytes(&[]), Err(IdError::WrongLength));
    assert_eq!(id_from_bytes(&[1; 15]), Err(IdError::WrongLength));
    assert_eq!(id_from_bytes(&[1; 17]), Err(IdError::WrongLength));
    assert_eq!(IdError::WrongLength.message(), "Expected 16 bytes.");
}

#[test]
fn an_identifier_is_written_most_significant_first() {
    let bytes = id_to_bytes(0x0102_0304_0506_0708_090a_0b0c_0d0e_0f10);
    assert_eq!(
        bytes,
        [1, 2, 3, 4, 5, 6, 7, 8, 9, 10, 11, 12, 13, 14, 15, 16]
    );
    assert_eq!(id_to_bytes(0), [0; 16]);
}

#[test]
fn identifiers_survive_the_round_trip() {
    for id in [0u128, 1, 255, 256, 1 << 64, u128::MAX - 1, u128::MAX] {
        assert_eq!(id_from_bytes(&id_to_bytes(id)), Ok(id));
    }
    let bytes = [9, 8, 7, 6, 5, 4, 3, 2, 1, 0, 1, 2, 3, 4, 5, 6];
    assert_eq!(id_to_bytes(id_from_bytes(&bytes).unwrap()), bytes);
}
