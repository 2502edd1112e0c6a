use wrap::registry::{
    bind_version, find_global, keymap, paste_keystrokes, read_global, Global, KeyStep,
};
use wrap::wire::{
    decode_message, encode_message, has_buffered_message, message_size, padded_len, push_string, push_u32,
    source_send_event, u32_at, Arg, ByteOrder, Reader,
};

const ORDERS: [ByteOrder; 2] = [ByteOrder::Little, ByteOrder::Big];

fn native() -> ByteOrder {
    if u32::from_ne_bytes([1, 0, 0, 0]) == 1 {
        ByteOrder::Little
    } else {
        ByteOrder::Big
    }
}

#[test]
fn words_use_the_byte_order() {
    let mut le = Vec::new();
    push_u32(&mut le, 0x0102_0304, ByteOrder::Little);
    assert_eq!(le, vec![4, 3, 2, 1]);
    let mut be = Vec::new();
    push_u32(&mut be, 0x0102_0304, ByteOrder::Big);
    assert_eq!(be, vec![1, 2, 3, 4]);
    let mut ne = Vec::new();
    push_u32(&mut ne, 0xdead_beef, native());
    assert_eq!(ne, 0xdead_beefu32.to_ne_bytes().to_vec());
    for order in ORDERS {
        assert_eq!(u32_at(&le, 0, order), if order == ByteOrder::Little { 0x0102_0304 } else { 0x0403_0201 });
    }
}

#[test]
fn strings_are_padded_to_four_bytes() {
    assert_eq!(padded_len(0), 0);
    assert_eq!(padded_len(5), 8);
    assert_eq!(padded_len(8), 8);
    let mut data = Vec::new();
    push_string(&mut data, "wl_seat", ByteOrder::Little);
    assert_eq!(data, vec![8, 0, 0, 0, b'w', b'l', b'_', b's', b'e', b'a', b't', 0]);
    let mut data = Vec::new();
    push_string(&mut data, "abcd", ByteOrder::Little);
    assert_eq!(data, vec![5, 0, 0, 0, b'a', b'b', b'c', b'd', 0, 0, 0, 0]);
}

#[test]
fn messages_carry_size_and_opcode() {
    let data = encode_message(7, 2, &[Arg::U32(9), Arg::String("ab"), Arg::Fd], ByteOrder::Little);
    assert_eq!(
        data,
        vec![7, 0, 0, 0, 2, 0, 20, 0, 9, 0, 0, 0, 3, 0, 0, 0, b'a', b'b', 0, 0]
    );
    assert_eq!(message_size(&data, ByteOrder::Little), Ok(20));
    assert_eq!(has_buffered_message(&data, ByteOrder::Little), Ok(true));
    assert_eq!(has_buffered_message(&data[..12], ByteOrder::Little), Ok(false));
    assert_eq!(has_buffered_message(&data[..4], ByteOrder::Little), Ok(false));
    let (sender, opcode, args) = decode_message(&data, ByteOrder::Little);
    assert_eq!((sender, opcode), (7, 2));
    assert_eq!(args, data[8..].to_vec());
    let bad = [1, 0, 0, 0, 0, 0, 4, 0];
    assert_eq!(
        message_size(&bad, ByteOrder::Little),
        Err("invalid wayland message size 4".to_string())
    );
    let native_msg = encode_message(1, 0, &[Arg::U32(3)], native());
    assert_eq!(native_msg[0..4], 1u32.to_ne_bytes());
    assert_eq!(native_msg[4..8], ((12u32 << 16) | 0).to_ne_bytes());
}

#[test]
fn source_send_events_are_recognised() {
    let mut data = Vec::new();
    push_string(&mut data, "text/plain", ByteOrder::Little);
    assert!(source_send_event(0, &data, ByteOrder::Little));
    assert!(!source_send_event(1, &data, ByteOrder::Little));
    assert!(!source_send_event(0, &data[..4], ByteOrder::Little));
    assert!(!source_send_event(0, &[0, 0, 0, 0], ByteOrder::Little));
}

#[test]
fn reader_reads_back_what_was_written() {
    for order in ORDERS {
        let mut data = Vec::new();
        push_u32(&mut data, 42, order);
        push_string(&mut data, "zwlr_data_control_manager_v1", order);
        push_u32(&mut data, 2, order);
        let mut r = Reader::new(&data, order);
        assert_eq!(r.u32(), Ok(42));
        assert_eq!(r.string(), Ok("zwlr_data_control_manager_v1".to_string()));
        assert_eq!(r.u32(), Ok(2));
        assert_eq!(r.u32(), Err("short wayland event".to_string()));
        let g = read_global(&data, order).unwrap();
        assert_eq!((g.name, g.interface.as_str(), g.version), (42, "zwlr_data_control_manager_v1", 2));
    }
}

#[test]
fn reader_refuses_bad_strings() {
    let mut data = Vec::new();
    push_u32(&mut data, 0, ByteOrder::Little);
    assert_eq!(Reader::new(&data, ByteOrder::Little).string(), Err("invalid wayland string".to_string()));
    let mut data = Vec::new();
    push_u32(&mut data, 9, ByteOrder::Little);
    data.extend_from_slice(b"ab");
    assert_eq!(Reader::new(&data, ByteOrder::Little).string(), Err("invalid wayland string".to_string()));
    let data = vec![3, 0, 0, 0, 0xff, 0xfe, 0, 0];
    let err = Reader::new(&data, ByteOrder::Little).string().unwrap_err();
    assert!(err.starts_with("invalid utf-8 from compositor: "));
    assert_eq!(read_global(&[1, 0], ByteOrder::Little).err(), Some("short wayland event".to_string()));
}

#[test]
fn globals_are_found_by_interface() {
    let globals = vec![
        Global { name: 1, interface: "wl_compositor".to_string(), version: 4 },
        Global { name: 2, interface: "wl_seat".to_string(), version: 7 },
    ];
    assert_eq!(find_global(&globals, "wl_seat").map(|g| g.name), Ok(2));
    assert_eq!(
        find_global(&globals, "zwp_virtual_keyboard_manager_v1").map(|g| g.name),
        Err("compositor did not advertise zwp_virtual_keyboard_manager_v1".to_string())
    );
    assert_eq!(bind_version(7, 1), 1);
    assert_eq!(bind_version(1, 2), 1);
}

#[test]
fn paste_keystroke_is_ctrl_shift_v() {
    assert_eq!(
        paste_keystrokes(),
        vec![
            KeyStep::Key(29, 1),
            KeyStep::Key(42, 1),
            KeyStep::Modifiers(5),
            KeyStep::Key(47, 1),
            KeyStep::Key(47, 0),
            KeyStep::Key(42, 0),
            KeyStep::Key(29, 0),
            KeyStep::Modifiers(0),
        ]
    );
    assert!(keymap().starts_with("xkb_keymap {\n"));
    assert!(keymap().contains("key <K047> { [ v, V ] };"));
}
