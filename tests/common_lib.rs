use realtime_canvas::create_file_name;

#[test]
fn lib_it_works() {
    assert_eq!(2 + 2, 4);
}

#[test]
fn file_name_is_hyphenated_id_with_extension() {
    let id: u128 = 0x0123456789abcdef_fedcba9876543210;
    assert_eq!(
        create_file_name(id),
        "01234567-89ab-cdef-fedc-ba9876543210.rcs"
    );
    assert_eq!(create_file_name(0), "00000000-0000-0000-0000-000000000000.rcs");
}
