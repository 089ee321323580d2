use cosmic_toplevel::payload::{
    decode_toplevel_states, decode_words, decode_workspace_states, ByteOrder, DecodeError,
    ToplevelState, WorkspaceState,
};

#[test]
fn words_little_endian() {
    let bytes = [1u8, 0, 0, 0, 0, 1, 0, 0];
    assert_eq!(decode_words(&bytes, ByteOrder::Little), Ok(vec![1, 256]));
}

#[test]
fn words_big_endian() {
    let bytes = [0u8, 0, 0, 1, 0, 0, 1, 0];
    assert_eq!(decode_words(&bytes, ByteOrder::Big), Ok(vec![1, 256]));
}

#[test]
fn words_largest_value() {
    let bytes = [255u8, 255, 255, 255];
    assert_eq!(decode_words(&bytes, ByteOrder::Little), Ok(vec![u32::MAX]));
    assert_eq!(decode_words(&bytes, ByteOrder::Big), Ok(vec![u32::MAX]));
}

#[test]
fn words_of_empty_array() {
    assert_eq!(decode_words(&[], ByteOrder::Little), Ok(vec![]));
}

#[test]
fn words_wrong_length() {
    assert_eq!(decode_words(&[1, 2, 3], ByteOrder::Little), Err(DecodeError::Length));
    assert_eq!(decode_words(&[1, 2, 3, 4, 5], ByteOrder::Big), Err(DecodeError::Length));
}

#[test]
fn native_order_agrees_with_std() {
    let bytes = [0x78u8, 0x56, 0x34, 0x12];
    let expected = u32::from_ne_bytes(bytes);
    assert_eq!(decode_words(&bytes, ByteOrder::native()), Ok(vec![expected]));
}

#[test]
fn toplevel_states_all_flags() {
    let bytes = [
        0u8, 0, 0, 0, 1, 0, 0, 0, 2, 0, 0, 0, 3, 0, 0, 0, 4, 0, 0, 0,
    ];
    assert_eq!(
        decode_toplevel_states(&bytes, ByteOrder::Little),
        Ok(vec![
            ToplevelState::Maximized,
            ToplevelState::Minimized,
            ToplevelState::Activated,
            ToplevelState::Fullscreen,
            ToplevelState::Sticky,
        ])
    );
}

#[test]
fn toplevel_states_unmapped_word() {
    let bytes = [2u8, 0, 0, 0, 9, 0, 0, 0, 7, 0, 0, 0];
    assert_eq!(
        decode_toplevel_states(&bytes, ByteOrder::Little),
        Err(DecodeError::Unmapped(9))
    );
}

#[test]
fn toplevel_states_wrong_length() {
    assert_eq!(
        decode_toplevel_states(&[2, 0, 0], ByteOrder::Little),
        Err(DecodeError::Length)
    );
}

#[test]
fn workspace_states_all_flags() {
    let bytes = [0u8, 0, 0, 0, 0, 0, 0, 1, 0, 0, 0, 2];
    assert_eq!(
        decode_workspace_states(&bytes, ByteOrder::Big),
        Ok(vec![WorkspaceState::Active, WorkspaceState::Urgent, WorkspaceState::Hidden])
    );
}

#[test]
fn workspace_states_unmapped_word() {
    let bytes = [3u8, 0, 0, 0];
    assert_eq!(
        decode_workspace_states(&bytes, ByteOrder::Little),
        Err(DecodeError::Unmapped(3))
    );
}

#[test]
fn probe_tells_the_byte_order() {
    assert_eq!(ByteOrder::from_probe(1), ByteOrder::Little);
    assert_eq!(ByteOrder::from_probe(0x0100_0000), ByteOrder::Big);
    assert_eq!(ByteOrder::from_probe(u32::from_le_bytes([1, 0, 0, 0])), ByteOrder::Little);
    assert_eq!(ByteOrder::from_probe(u32::from_be_bytes([1, 0, 0, 0])), ByteOrder::Big);
    assert_eq!(ByteOrder::native(), ByteOrder::from_probe(u32::from_ne_bytes([1, 0, 0, 0])));
}
