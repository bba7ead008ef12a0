use roblox_steam_launcher::shortcuts::{
    add_roblox_launcher, quote_bytes, remove_roblox_launcher, ShortcutError, ShortcutValue,
};
use roblox_steam_launcher::users::{parse_persona_name, unescape_quotes};
use roblox_steam_launcher::vdf::{
    decode_shortcut_data, empty_shortcut_list, encode_shortcut_data, encode_shortcuts_file,
};

fn string_prop(name: &str, value: Vec<u8>) -> ShortcutValue {
    ShortcutValue::StringProp(name.as_bytes().to_vec(), value)
}

fn entry(index: &str, exe_value: Vec<u8>) -> ShortcutValue {
    ShortcutValue::List(
        index.as_bytes().to_vec(),
        vec![
            string_prop("AppName", b"Game".to_vec()),
            string_prop("exe", exe_value),
        ],
    )
}

fn entry_fields(v: &ShortcutValue) -> (&Vec<u8>, &Vec<ShortcutValue>) {
    match v {
        ShortcutValue::List(name, items) => (name, items),
        _ => panic!("expected a list"),
    }
}

#[test]
fn removal_renumbers_the_survivors() {
    // Entries indexed 0, 1, 2; entry 1 matches the removal target.
    let keep_a = quote_bytes(&b"C:\\other\\a.exe".to_vec());
    let target_path = b"C:\\launcher\\master.exe".to_vec();
    let target_quoted = quote_bytes(&target_path);
    let keep_b = quote_bytes(&b"C:\\other\\b.exe".to_vec());
    let mut list = ShortcutValue::List(
        b"shortcuts".to_vec(),
        vec![
            entry("0", keep_a.clone()),
            entry("1", target_quoted),
            entry("2", keep_b.clone()),
        ],
    );
    let removed = remove_roblox_launcher(&mut list, &target_path).unwrap();
    assert_eq!(removed, 1);
    let (name, entries) = entry_fields(&list);
    assert_eq!(name, &b"shortcuts".to_vec());
    assert_eq!(entries.len(), 2);
    let (n0, p0) = entry_fields(&entries[0]);
    assert_eq!(n0, &b"0".to_vec());
    assert_eq!(
        encode_shortcut_data(&p0[1]),
        encode_shortcut_data(&string_prop("exe", keep_a))
    );
    let (n1, p1) = entry_fields(&entries[1]);
    assert_eq!(n1, &b"1".to_vec());
    assert_eq!(
        encode_shortcut_data(&p1[1]),
        encode_shortcut_data(&string_prop("exe", keep_b))
    );
}

#[test]
fn removal_counts_every_match() {
    let path = b"C:\\m.exe".to_vec();
    let quoted = quote_bytes(&path);
    let mut list = ShortcutValue::List(
        b"shortcuts".to_vec(),
        vec![entry("0", quoted.clone()), entry("1", quoted)],
    );
    assert_eq!(remove_roblox_launcher(&mut list, &path).unwrap(), 2);
    let (_, entries) = entry_fields(&list);
    assert!(entries.is_empty());
}

#[test]
fn removal_refuses_a_non_list() {
    let mut not_list = string_prop("exe", b"x".to_vec());
    assert_eq!(
        remove_roblox_launcher(&mut not_list, &b"x".to_vec()),
        Err(ShortcutError::NotAList)
    );
}

#[test]
fn adding_to_an_empty_list_starts_at_zero() {
    let mut list = empty_shortcut_list();
    add_roblox_launcher(
        &mut list,
        &b"C:\\dir\\m.exe".to_vec(),
        &b"C:\\dir".to_vec(),
        b"Roblox".to_vec(),
    )
    .unwrap();
    let (_, entries) = entry_fields(&list);
    assert_eq!(entries.len(), 1);
    let (n, props) = entry_fields(&entries[0]);
    assert_eq!(n, &b"0".to_vec());
    assert_eq!(props.len(), 11);
    assert_eq!(
        encode_shortcut_data(&props[0]),
        encode_shortcut_data(&string_prop("AppName", b"Roblox".to_vec()))
    );
    assert_eq!(
        encode_shortcut_data(&props[1]),
        encode_shortcut_data(&string_prop("exe", b"\"C:\\dir\\m.exe\"".to_vec()))
    );
    assert_eq!(
        encode_shortcut_data(&props[2]),
        encode_shortcut_data(&string_prop("StartDir", b"\"C:\\dir\"".to_vec()))
    );
    match &props[6] {
        ShortcutValue::Bytes4Prop(name, val) => {
            assert_eq!(name, &b"IsHidden".to_vec());
            assert_eq!(val, &vec![1, 0, 0, 0]);
        }
        _ => panic!("expected a four-byte property"),
    }
    match &props[10] {
        ShortcutValue::List(name, items) => {
            assert_eq!(name, &b"tags".to_vec());
            assert!(items.is_empty());
        }
        _ => panic!("expected the tag list"),
    }
}

#[test]
fn adding_derives_the_next_index_from_the_last_entry() {
    let mut list = ShortcutValue::List(
        b"shortcuts".to_vec(),
        vec![entry("0", b"a".to_vec()), entry("4", b"b".to_vec())],
    );
    add_roblox_launcher(
        &mut list,
        &b"C:\\m.exe".to_vec(),
        &b"C:\\".to_vec(),
        b"Roblox".to_vec(),
    )
    .unwrap();
    let (_, entries) = entry_fields(&list);
    assert_eq!(entries.len(), 3);
    let (n, _) = entry_fields(&entries[2]);
    assert_eq!(n, &b"5".to_vec());
}

#[test]
fn adding_surfaces_shape_violations() {
    let mut not_list = string_prop("x", b"y".to_vec());
    assert_eq!(
        add_roblox_launcher(&mut not_list, &b"p".to_vec(), &b"d".to_vec(), b"N".to_vec()),
        Err(ShortcutError::NotAList)
    );
    let mut bad_last = ShortcutValue::List(
        b"shortcuts".to_vec(),
        vec![string_prop("stray", b"v".to_vec())],
    );
    assert_eq!(
        add_roblox_launcher(&mut bad_last, &b"p".to_vec(), &b"d".to_vec(), b"N".to_vec()),
        Err(ShortcutError::EntryNotAList)
    );
    let mut bad_index = ShortcutValue::List(
        b"shortcuts".to_vec(),
        vec![entry("seven", b"v".to_vec())],
    );
    assert_eq!(
        add_roblox_launcher(&mut bad_index, &b"p".to_vec(), &b"d".to_vec(), b"N".to_vec()),
        Err(ShortcutError::BadIndex)
    );
}

#[test]
fn file_encoding_is_exact() {
    let empty = empty_shortcut_list();
    assert_eq!(
        encode_shortcuts_file(&empty),
        vec![0x00, b's', b'h', b'o', b'r', b't', b'c', b'u', b't', b's', 0x00, 0x08, 0x08]
    );
    let one = ShortcutValue::List(
        b"l".to_vec(),
        vec![
            ShortcutValue::StringProp(b"n".to_vec(), b"v".to_vec()),
            ShortcutValue::Bytes4Prop(b"b".to_vec(), vec![1, 0, 0, 0]),
        ],
    );
    assert_eq!(
        encode_shortcut_data(&one),
        vec![
            0x00, b'l', 0x00, 0x01, b'n', 0x00, b'v', 0x00, 0x02, b'b', 0x00, 1, 0, 0, 0, 0x08,
        ]
    );
}

#[test]
fn decoding_inverts_encoding() {
    let original = ShortcutValue::List(
        b"shortcuts".to_vec(),
        vec![
            entry("0", quote_bytes(&b"C:\\a.exe".to_vec())),
            ShortcutValue::Bytes4Prop(b"LastPlayTime".to_vec(), vec![9, 8, 7, 6]),
            ShortcutValue::List(b"tags".to_vec(), vec![]),
        ],
    );
    let bytes = encode_shortcuts_file(&original);
    let decoded = decode_shortcut_data(&bytes).unwrap();
    assert_eq!(encode_shortcut_data(&decoded), encode_shortcut_data(&original));
}

#[test]
fn decoding_rejects_truncated_data() {
    assert!(decode_shortcut_data(&vec![]).is_none());
    assert!(decode_shortcut_data(&vec![0x00, b'x']).is_none());
    assert!(decode_shortcut_data(&vec![0x01, b'n', 0x00, b'v']).is_none());
    assert!(decode_shortcut_data(&vec![0x02, b'b', 0x00, 1, 0]).is_none());
    assert!(decode_shortcut_data(&vec![0x07, 0x00]).is_none());
}

#[test]
fn persona_name_is_found_and_unescaped() {
    let contents = "\"user\"\n{\n\t\"PersonaName\"\t\t\"Player \\\"One\\\"\"\r\n}\n";
    assert_eq!(parse_persona_name(contents).unwrap(), "Player \"One\"");
}

#[test]
fn persona_name_takes_the_earliest_match() {
    let contents = "\"PersonaName\" \"First\"\n\"PersonaName\" \"Second\"\n";
    assert_eq!(parse_persona_name(contents).unwrap(), "First");
}

#[test]
fn persona_name_requires_the_full_pattern() {
    assert_eq!(parse_persona_name(""), None);
    assert_eq!(parse_persona_name("\"PersonaName\" \"NoBreak\""), None);
    assert_eq!(parse_persona_name("\"PersonaName\" unquoted\n"), None);
    assert_eq!(parse_persona_name("\"PersonaName\" \"\"\n"), None);
    assert_eq!(parse_persona_name("\"OtherKey\" \"Name\"\n"), None);
}

#[test]
fn quote_unescaping_is_literal() {
    let cs: Vec<char> = "a\\\"b\\\\\"c".chars().collect();
    let out: String = unescape_quotes(&cs).into_iter().collect();
    assert_eq!(out, "a\"b\\\"c");
}
