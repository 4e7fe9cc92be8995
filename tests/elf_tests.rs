use wheelc::elf_writer::ELFWriter;

fn u16_at(b: &[u8], i: usize) -> u16 {
    u16::from_le_bytes([b[i], b[i + 1]])
}

fn u32_at(b: &[u8], i: usize) -> u32 {
    u32::from_le_bytes([b[i], b[i + 1], b[i + 2], b[i + 3]])
}

fn u64_at(b: &[u8], i: usize) -> u64 {
    let mut a = [0u8; 8];
    a.copy_from_slice(&b[i..i + 8]);
    u64::from_le_bytes(a)
}

#[test]
fn header_fields() {
    let mut w = ELFWriter::new();
    w.add_text(vec![0x48, 0x31, 0xff]);
    w.add_rodata(b"Hello".to_vec());
    let img = w.image();
    assert_eq!(&img[0..4], &[0x7f, b'E', b'L', b'F']);
    assert_eq!(&img[4..8], &[2, 1, 1, 0]);
    assert_eq!(u16_at(&img, 16), 2);
    assert_eq!(u16_at(&img, 18), 62);
    assert_eq!(u32_at(&img, 20), 1);
    assert_eq!(u64_at(&img, 24), 0x400000);
    assert_eq!(u64_at(&img, 32), 64);
    assert_eq!(u64_at(&img, 40), 0);
    assert_eq!(u16_at(&img, 52), 64);
    assert_eq!(u16_at(&img, 54), 56);
    assert_eq!(u16_at(&img, 56), 1);
    assert_eq!(u16_at(&img, 60), 0);
}

#[test]
fn load_descriptor_and_layout() {
    let mut w = ELFWriter::new();
    w.add_text(vec![0xc3]);
    w.add_rodata(vec![1, 2]);
    let img = w.image();
    assert_eq!(img.len(), 64 + 56 + 0x1000 + 2);
    assert_eq!(u32_at(&img, 64), 1);
    assert_eq!(u32_at(&img, 68), 5);
    assert_eq!(u64_at(&img, 72), 120);
    assert_eq!(u64_at(&img, 80), 0x400000);
    assert_eq!(u64_at(&img, 88), 0x400000);
    assert_eq!(u64_at(&img, 96), 0x1002);
    assert_eq!(u64_at(&img, 104), 0x1002);
    assert_eq!(u64_at(&img, 112), 0x1000);
    assert_eq!(img[120], 0xc3);
    assert!(img[121..120 + 0x1000].iter().all(|b| *b == 0));
    assert_eq!(&img[120 + 0x1000..], &[1, 2]);
}

#[test]
fn code_over_a_page_is_not_padded() {
    let mut w = ELFWriter::new();
    w.add_text(vec![0x90; 0x1800]);
    w.add_text(vec![0xc3]);
    let img = w.image();
    assert_eq!(img.len(), 120 + 0x1801);
    assert_eq!(u64_at(&img, 96), 0x1801);
    assert_eq!(img[120 + 0x1800], 0xc3);
}

#[test]
fn empty_writer_gives_one_page() {
    let img = ELFWriter::new().image();
    assert_eq!(img.len(), 120 + 0x1000);
    assert_eq!(u64_at(&img, 96), 0x1000);
}
