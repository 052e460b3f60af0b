use sim8086::decoder::{decode, is_decodable};

fn listing(bytes: &[u8]) -> Vec<String> {
    let bytes = bytes.to_vec();
    assert!(is_decodable(&bytes));
    decode(&bytes)
        .iter()
        .map(|r| match r {
            Ok(a) => a.decode().text(),
            Err(e) => e.clone(),
        })
        .collect()
}

#[test]
fn decodes_register_moves() {
    assert_eq!(listing(&[0x89, 0xD9, 0x88, 0xE5]), vec!["mov cx, bx", "mov ch, ah"]);
}

#[test]
fn decodes_immediates_and_displacements() {
    assert_eq!(
        listing(&[0xB1, 0x0C, 0xB5, 0xF4, 0xB9, 0x0C, 0x00, 0x8B, 0x56, 0x00, 0x8A, 0x60, 0x04, 0x8B, 0x41, 0xDB]),
        vec!["mov cl, 12", "mov ch, -12", "mov cx, 12", "mov dx, [bp]", "mov ah, [bx + si + 4]", "mov ax, [bx + di - 37]"]
    );
}

#[test]
fn decodes_direct_addresses_and_explicit_sizes() {
    assert_eq!(
        listing(&[0x8B, 0x2E, 0x05, 0x00, 0xC6, 0x03, 0x07, 0xC7, 0x85, 0x85, 0x03, 0x5B, 0x01]),
        vec!["mov bp, [5]", "mov byte [bp + di], 7", "mov word [di + 901], 347"]
    );
}

#[test]
fn decodes_arithmetic_families() {
    assert_eq!(
        listing(&[0x03, 0x18, 0x83, 0xC6, 0x02, 0x05, 0xE8, 0x03, 0x2C, 0x09, 0x3B, 0x46, 0x00, 0x81, 0x3F, 0xE8, 0x03]),
        vec!["add bx, [bx + si]", "add si, 2", "add ax, 1000", "sub al, 9", "cmp ax, [bp]", "cmp word [bx], 1000"]
    );
}

#[test]
fn decodes_accumulator_memory_moves() {
    assert_eq!(listing(&[0xA1, 0xFB, 0x09, 0xA3, 0x0F, 0x00]), vec!["mov ax, [2555]", "mov [15], ax"]);
}

#[test]
fn backward_jump_gets_label_before_target() {
    assert_eq!(
        listing(&[0xB9, 0x03, 0x00, 0x83, 0xE9, 0x01, 0x75, 0xFB]),
        vec!["mov cx, 3", "label_1:", "sub cx, 1", "jnz label_1"]
    );
}

#[test]
fn forward_jumps_share_labels() {
    // jz +2; jnz +0; nop-free: two jumps to the same target, then a mov
    assert_eq!(
        listing(&[0x74, 0x02, 0x75, 0x00, 0xB0, 0x01]),
        vec!["je label_1", "jnz label_1", "label_1:", "mov al, 1"]
    );
}

#[test]
fn unknown_opcode_is_an_error_row_in_place() {
    assert_eq!(listing(&[0x90, 0xB0, 0x01, 0x0F]), vec!["10010000", "mov al, 1", "1111"]);
}

#[test]
fn label_rows_have_no_bytes() {
    let bytes = vec![0xE2_u8, 0xFE];
    let rows = decode(&bytes);
    assert_eq!(rows.len(), 2);
    let label = rows[0].as_ref().unwrap();
    assert!(label.is_label());
    assert_eq!(label.ip(), -1);
    let jump = rows[1].as_ref().unwrap();
    assert_eq!(jump.encoded(), &vec![0xE2_u8, 0xFE]);
}

#[test]
fn truncated_input_is_rejected() {
    assert!(!is_decodable(&vec![0xB8, 0x01]));
    assert!(!is_decodable(&vec![0x89]));
    assert!(!is_decodable(&vec![0x80, 0xC8, 0x01]));
    assert!(is_decodable(&vec![]));
}

#[test]
fn empty_input_gives_empty_listing() {
    assert!(decode(&vec![]).is_empty());
}
