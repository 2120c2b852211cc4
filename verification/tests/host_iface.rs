use acode::host::{config_flags_value, ConfigFlags, KeyboardKey};

#[test]
fn flags_pack_into_one_word() {
    assert_eq!(config_flags_value(&Vec::new()), 0);
    assert_eq!(config_flags_value(&vec![ConfigFlags::Msaa4xHint]), 0x20);
    assert_eq!(config_flags_value(&vec![ConfigFlags::WindowResizable]), 0x4);
    assert_eq!(
        config_flags_value(&vec![ConfigFlags::Msaa4xHint, ConfigFlags::WindowResizable]),
        0x24,
    );
}

#[test]
fn key_codes_match_the_host_table() {
    assert_eq!(KeyboardKey::Space.code(), 32);
    assert_eq!(KeyboardKey::Minus.code(), 45);
    assert_eq!(KeyboardKey::Equal.code(), 61);
    assert_eq!(KeyboardKey::R.code(), 82);
}
