use vstd::prelude::*;

verus! {

/// Where the code is loaded, and where execution starts.
pub const TEXT_VADDR: u64 = 0x400000;

/// The size of a page; the code region is padded to at least this size.
pub const PAGE_SIZE: usize = 0x1000;

/// The size of the file header.
pub const EHDR_SIZE: usize = 64;

/// The size of one load descriptor.
pub const PHDR_SIZE: usize = 56;

/// The `n` low bytes of `v`, least significant first.
pub open spec fn le_bytes(v: nat, n: nat) -> Seq<u8>
    decreases n,
{
    if n == 0 {
        Seq::empty()
    } else {
        seq![(v % 256) as u8] + le_bytes(v / 256, (n - 1) as nat)
    }
}

/// The marker that opens every executable image.
pub open spec fn magic() -> Seq<u8> {
    seq![0x7fu8, 0x45u8, 0x4cu8, 0x46u8]
}

/// The file header: a 64-bit little-endian executable for x86-64 whose
/// entry point is the code load address, with one load descriptor right
/// after the header and no section headers.
pub open spec fn elf_header() -> Seq<u8> {
    magic() + seq![2u8, 1u8, 1u8, 0u8] + le_bytes(0, 8) + le_bytes(2, 2) + le_bytes(62, 2)
        + le_bytes(1, 4) + le_bytes(TEXT_VADDR as nat, 8) + le_bytes(EHDR_SIZE as nat, 8)
        + le_bytes(0, 8) + le_bytes(0, 4) + le_bytes(EHDR_SIZE as nat, 2) + le_bytes(
        PHDR_SIZE as nat,
        2,
    ) + le_bytes(1, 2) + le_bytes(0, 2) + le_bytes(0, 2) + le_bytes(0, 2)
}

/// The one load descriptor: a readable, executable region of `size` bytes
/// at the code load address, page aligned.
pub open spec fn program_header(size: nat) -> Seq<u8> {
    le_bytes(1, 4) + le_bytes(5, 4) + le_bytes((EHDR_SIZE + PHDR_SIZE) as nat, 8) + le_bytes(
        TEXT_VADDR as nat,
        8,
    ) + le_bytes(TEXT_VADDR as nat, 8) + le_bytes(size, 8) + le_bytes(size, 8) + le_bytes(
        PAGE_SIZE as nat,
        8,
    )
}

/// The code, padded with zeros to at least a page.
pub open spec fn padded_text(text: Seq<u8>) -> Seq<u8> {
    if text.len() < PAGE_SIZE {
        text + Seq::new((PAGE_SIZE - text.len()) as nat, |i: int| 0u8)
    } else {
        text
    }
}

/// The whole executable image: header, load descriptor, padded code, data.
pub open spec fn elf_image(text: Seq<u8>, rodata: Seq<u8>) -> Seq<u8> {
    let code = padded_text(text);
    elf_header() + program_header(((code.len() + rodata.len()) % 0x1_0000_0000_0000_0000) as nat)
        + code + rodata
}

/// Every image opens with the marker; its header declares the code load
/// address as entry point, and its load descriptor loads the code there.
pub proof fn lemma_image_format(text: Seq<u8>, rodata: Seq<u8>)
    ensures
        elf_image(text, rodata).subrange(0, 4) == magic(),
        elf_image(text, rodata).subrange(24, 32) == le_bytes(TEXT_VADDR as nat, 8),
        elf_image(text, rodata).subrange(80, 88) == le_bytes(TEXT_VADDR as nat, 8),
        elf_image(text, rodata).subrange(120, 120 + padded_text(text).len() as int)
            == padded_text(text),
{
    reveal_with_fuel(le_bytes, 9);
    let img = elf_image(text, rodata);
    let h = elf_header();
    let code = padded_text(text);
    let p = program_header(((code.len() + rodata.len()) % 0x1_0000_0000_0000_0000) as nat);
    assert(h.len() == 64);
    assert(p.len() == 56);
    assert(img.subrange(0, 4) =~= h.subrange(0, 4));
    assert(h.subrange(0, 4) =~= magic());
    assert(img.subrange(24, 32) =~= h.subrange(24, 32));
    assert(h.subrange(24, 32) =~= le_bytes(TEXT_VADDR as nat, 8));
    assert(img.subrange(80, 88) =~= p.subrange(16, 24));
    assert(p.subrange(16, 24) =~= le_bytes(TEXT_VADDR as nat, 8));
    assert(img.subrange(120, 120 + code.len() as int) =~= code);
}

/// Appends the `n` low bytes of `v`, least significant first.
fn push_le(out: &mut Vec<u8>, v: u64, n: usize)
    ensures
        final(out)@ == old(out)@ + le_bytes(v as nat, n as nat),
{
    let mut i: usize = 0;
    let mut rest: u64 = v;
    while i < n
        invariant
            i <= n,
            out@ + le_bytes(rest as nat, (n - i) as nat) == old(out)@ + le_bytes(v as nat, n as nat),
        decreases n - i,
    {
        let ghost before = out@;
        out.push((rest % 256) as u8);
        proof {
            assert(le_bytes(rest as nat, (n - i) as nat) == seq![(rest % 256) as u8] + le_bytes(
                (rest / 256) as nat,
                (n - i - 1) as nat,
            ));
            assert(out@ + le_bytes((rest / 256) as nat, (n - i - 1) as nat) =~= before
                + le_bytes(rest as nat, (n - i) as nat));
        }
        rest = rest / 256;
        i = i + 1;
    }
    proof {
        assert(out@ + le_bytes(rest as nat, 0) =~= out@);
    }
}

/// A minimal executable writer for x86-64 Linux: code and read-only data go
/// into one readable, executable segment.
pub struct ELFWriter {
    text: Vec<u8>,
    rodata: Vec<u8>,
}

impl View for ELFWriter {
    type V = (Seq<u8>, Seq<u8>);

    closed spec fn view(&self) -> (Seq<u8>, Seq<u8>) {
        (self.text@, self.rodata@)
    }
}

impl ELFWriter {
    /// A writer with no code and no data.
    pub fn new() -> (r: ELFWriter)
        ensures
            r@.0 == Seq::<u8>::empty(),
            r@.1 == Seq::<u8>::empty(),
    {
        ELFWriter { text: Vec::new(), rodata: Vec::new() }
    }

    /// Appends machine code.
    pub fn add_text(&mut self, code: Vec<u8>)
        ensures
            final(self)@.0 == old(self)@.0 + code@,
            final(self)@.1 == old(self)@.1,
    {
        let mut code = code;
        self.text.append(&mut code);
    }

    /// Appends read-only data.
    pub fn add_rodata(&mut self, data: Vec<u8>)
        ensures
            final(self)@.0 == old(self)@.0,
            final(self)@.1 == old(self)@.1 + data@,
    {
        let mut data = data;
        self.rodata.append(&mut data);
    }

    /// The bytes of the executable file: header, load descriptor, the code
    /// padded with zeros to at least a page, then the data.
    pub fn image(&self) -> (r: Vec<u8>)
        ensures
            r@ == elf_image(self@.0, self@.1),
    {
        let mut out: Vec<u8> = Vec::new();
        push_header(&mut out);
        let code_len: usize = if self.text.len() < PAGE_SIZE {
            PAGE_SIZE
        } else {
            self.text.len()
        };
        let size: u64 = (code_len as u64).wrapping_add(self.rodata.len() as u64);
        proof {
            assert(code_len == padded_text(self.text@).len());
        }
        push_program_header(&mut out, size);
        push_padded(&mut out, &self.text);
        push_all(&mut out, &self.rodata);
        proof {
            assert(out@ =~= elf_image(self.text@, self.rodata@));
        }
        out
    }
}

fn push_header(out: &mut Vec<u8>)
    ensures
        final(out)@ == old(out)@ + elf_header(),
{
    out.push(0x7f);
    out.push(0x45);
    out.push(0x4c);
    out.push(0x46);
    out.push(2);
    out.push(1);
    out.push(1);
    out.push(0);
    push_le(out, 0, 8);
    push_le(out, 2, 2);
    push_le(out, 62, 2);
    push_le(out, 1, 4);
    push_le(out, TEXT_VADDR, 8);
    push_le(out, EHDR_SIZE as u64, 8);
    push_le(out, 0, 8);
    push_le(out, 0, 4);
    push_le(out, EHDR_SIZE as u64, 2);
    push_le(out, PHDR_SIZE as u64, 2);
    push_le(out, 1, 2);
    push_le(out, 0, 2);
    push_le(out, 0, 2);
    push_le(out, 0, 2);
    proof {
        assert(final(out)@ =~= old(out)@ + elf_header());
    }
}

fn push_program_header(out: &mut Vec<u8>, size: u64)
    ensures
        final(out)@ == old(out)@ + program_header(size as nat),
{
    push_le(out, 1, 4);
    push_le(out, 5, 4);
    push_le(out, (EHDR_SIZE + PHDR_SIZE) as u64, 8);
    push_le(out, TEXT_VADDR, 8);
    push_le(out, TEXT_VADDR, 8);
    push_le(out, size, 8);
    push_le(out, size, 8);
    push_le(out, PAGE_SIZE as u64, 8);
    proof {
        assert(final(out)@ =~= old(out)@ + program_header(size as nat));
    }
}

fn push_all(out: &mut Vec<u8>, bytes: &Vec<u8>)
    ensures
        final(out)@ == old(out)@ + bytes@,
{
    let mut j: usize = 0;
    while j < bytes.len()
        invariant
            j <= bytes@.len(),
            out@ == old(out)@ + bytes@.take(j as int),
        decreases bytes@.len() - j,
    {
        out.push(bytes[j]);
        proof {
            assert(bytes@.take(j + 1) =~= bytes@.take(j as int).push(bytes@[j as int]));
            assert(out@ =~= old(out)@ + bytes@.take(j + 1));
        }
        j = j + 1;
    }
    proof {
        assert(bytes@.take(j as int) =~= bytes@);
    }
}

fn push_padded(out: &mut Vec<u8>, text: &Vec<u8>)
    ensures
        final(out)@ == old(out)@ + padded_text(text@),
{
    push_all(out, text);
    let mut i: usize = text.len();
    proof {
        assert(out@ =~= old(out)@ + text@ + Seq::new(0, |k: int| 0u8));
    }
    while i < PAGE_SIZE
        invariant
            i >= text@.len(),
            text@.len() < PAGE_SIZE ==> i <= PAGE_SIZE,
            text@.len() >= PAGE_SIZE ==> i == text@.len(),
            out@ == old(out)@ + text@ + Seq::new((i - text@.len()) as nat, |k: int| 0u8),
        decreases PAGE_SIZE - i,
    {
        out.push(0);
        proof {
            assert(Seq::new((i + 1 - text@.len()) as nat, |k: int| 0u8) =~= Seq::new(
                (i - text@.len()) as nat,
                |k: int| 0u8,
            ).push(0u8));
            assert(out@ =~= old(out)@ + text@ + Seq::new((i + 1 - text@.len()) as nat, |k: int| 0u8));
        }
        i = i + 1;
    }
    proof {
        if text@.len() < PAGE_SIZE {
            assert(i == PAGE_SIZE);
        } else {
            assert(Seq::new(0, |k: int| 0u8) =~= Seq::<u8>::empty());
            assert(out@ =~= old(out)@ + text@);
        }
    }
}

} // verus!
