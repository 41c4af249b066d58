use disk_analyzer::drives::{find_drive, get_computer_drives};

fn pair(label: &str) -> (String, String) {
    (label.to_string(), format!("{}:", label))
}

#[test]
fn no_bit_means_no_drive() {
    assert!(get_computer_drives(0).is_empty());
}

#[test]
fn each_bit_is_one_drive_in_the_order_of_the_letters() {
    assert_eq!(get_computer_drives(1), vec![pair("A")]);
    assert_eq!(get_computer_drives(0b100), vec![pair("C")]);
    assert_eq!(get_computer_drives(0b1100), vec![pair("C"), pair("D")]);
    assert_eq!(get_computer_drives(0b101), vec![pair("A"), pair("C")]);
    assert_eq!(get_computer_drives(1 << 25), vec![pair("Z")]);
}

#[test]
fn bits_beyond_the_alphabet_are_no_drives() {
    assert!(get_computer_drives(1 << 26).is_empty());
    assert!(get_computer_drives(0xfc00_0000).is_empty());
    let all = get_computer_drives(u32::MAX);
    assert_eq!(all.len(), 26);
    assert_eq!(all[0], pair("A"));
    assert_eq!(all[12], pair("M"));
    assert_eq!(all[25], pair("Z"));
}

#[test]
fn path_of_a_drive_is_found_by_its_label() {
    let drives = get_computer_drives(0b1101);
    assert_eq!(find_drive(&drives, &"C".to_string()), Some("C:".to_string()));
    assert_eq!(find_drive(&drives, &"A".to_string()), Some("A:".to_string()));
    assert_eq!(find_drive(&drives, &"B".to_string()), None);
    assert_eq!(find_drive(&Vec::new(), &"C".to_string()), None);
}

#[test]
fn first_of_two_drives_with_one_label_is_found() {
    let drives = vec![
        ("X".to_string(), "first".to_string()),
        ("X".to_string(), "second".to_string()),
    ];
    assert_eq!(find_drive(&drives, &"X".to_string()), Some("first".to_string()));
}
