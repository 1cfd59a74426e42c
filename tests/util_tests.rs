use u2fhid::util::{from_unix_result, io_err, set_data, to_hex_string, IoError, Signed};

#[test]
fn hex_string_of_bytes() {
    assert_eq!(to_hex_string(&vec![0x00, 0x0f, 0xa5, 0xff, 0x10]), "000fa5ff10");
    assert_eq!(to_hex_string(&vec![]), "");
}

#[test]
fn negative_return_codes() {
    assert!(Signed::is_negative(&-1i32));
    assert!(Signed::is_negative(&i32::MIN));
    assert!(!Signed::is_negative(&0i32));
    assert!(!Signed::is_negative(&i32::MAX));
    assert!(!Signed::is_negative(&(usize::MAX / 2)));
    assert!(Signed::is_negative(&usize::MAX));
    assert!(!Signed::is_negative(&0usize));
}

#[test]
fn unix_result_maps_negative_to_errno() {
    assert_eq!(from_unix_result(-1i32, 13), Err(IoError::Os(13)));
    assert_eq!(from_unix_result(7i32, 13), Ok(7));
    assert_eq!(from_unix_result(usize::MAX, 2), Err(IoError::Os(2)));
}

#[test]
fn io_err_carries_message() {
    assert_eq!(io_err("boom"), IoError::Other("boom".to_string()));
}

#[test]
fn set_data_copies_up_to_max() {
    let src = [1u8, 2, 3, 4, 5];
    let mut data = [0u8; 4];
    let mut pos = 0usize;
    set_data(&mut data, &src, &mut pos, 3);
    assert_eq!(data, [1, 2, 3, 0]);
    assert_eq!(pos, 3);
    let mut rest = [9u8; 4];
    set_data(&mut rest, &src, &mut pos, 4);
    assert_eq!(rest, [4, 5, 9, 9]);
    assert_eq!(pos, 5);
}
