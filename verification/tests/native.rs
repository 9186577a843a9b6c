use tv_proxy::native::{
    is_elf_on_windows, looks_like_transport_stream, next_directory, platform_lib_name,
    JstvSigner, Platform, TsDecryptor,
};

fn packets(n: usize) -> Vec<u8> {
    let mut data = vec![0u8; n * 188];
    for i in 0..n {
        data[i * 188] = 0x47;
    }
    data
}

#[test]
fn names_of_libraries() {
    assert_eq!(platform_lib_name("delib", Platform::Windows), "delib.dll");
    assert_eq!(platform_lib_name("delib", Platform::MacOs), "delib.dylib");
    assert_eq!(platform_lib_name("media_utils", Platform::Other), "media_utils.so");
}

#[test]
fn directories_are_tried_until_a_library_is_loaded() {
    assert_eq!(next_directory(&vec![], 2, true), Some(0));
    assert_eq!(next_directory(&vec![false], 2, true), Some(1));
    assert_eq!(next_directory(&vec![false, false], 2, true), None);
    assert_eq!(next_directory(&vec![true], 2, true), None);
    assert_eq!(next_directory(&vec![], 2, false), None);
}

#[test]
fn linux_programs_are_recognised_on_windows() {
    let elf = [0x7f, b'E', b'L', b'F'];
    assert!(is_elf_on_windows(&elf, Platform::Windows));
    assert!(!is_elf_on_windows(&elf, Platform::Other));
    assert!(!is_elf_on_windows(b"MZ\0\0", Platform::Windows));
    assert!(!is_elf_on_windows(&elf[..3], Platform::Windows));
}

#[test]
fn synchronisation_bytes_are_checked() {
    assert!(looks_like_transport_stream(&packets(3), 3 * 188));
    let mut third = packets(3);
    third[2 * 188] = 0;
    assert!(!looks_like_transport_stream(&third, 3 * 188));
    let mut eleventh = packets(11);
    eleventh[10 * 188] = 0;
    assert!(looks_like_transport_stream(&eleventh, 11 * 188));
    assert!(!looks_like_transport_stream(&packets(1), 2 * 188));
}

#[test]
fn decrypted_segments_are_used_where_they_are_streams() {
    let data = vec![1u8; 376];
    assert!(TsDecryptor::wants(&data));
    assert!(!TsDecryptor::wants(&data[..187]));
    assert_eq!(TsDecryptor::decrypt(&data, Some(packets(2))), Some(packets(2)));
    assert_eq!(TsDecryptor::decrypt(&data, Some(vec![0; 376])), None);
    assert_eq!(TsDecryptor::decrypt(&data, None), None);
    assert_eq!(TsDecryptor::decrypt(&data[..187], Some(packets(1))), None);
}

#[test]
fn signed_addresses_are_used_where_they_are_not_empty() {
    assert!(JstvSigner::accepts("js_1"));
    assert!(!JstvSigner::accepts("js\0_1"));
    assert_eq!(JstvSigner::get_signed_url(Some("u".to_string())), Some("u".to_string()));
    assert_eq!(JstvSigner::get_signed_url(Some(String::new())), None);
    assert_eq!(JstvSigner::get_signed_url(None), None);
}
