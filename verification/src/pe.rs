//! PE32/PE32+ inspection: machine, subsystem, entry point, image base, the
//! DLLs named by the import table, and the graphics APIs they reveal.
//!
//! `spec_inspect` states the format over the file's bytes; `inspect_pe_bytes`
//! is proved to compute it.

use crate::error::AppError;
use crate::order::{char_vecs, is_sorted_set_of, lemma_members_push, lemma_members_trans, same_members, sorted_insert, strictly_sorted};
use crate::text::{chars_of, hex, hex_u64, join_text, lower_chars, lower_seq, owned, string_chars, string_from_chars};
use vstd::prelude::*;

verus! {

/// What the runtime reports about a Windows executable.
#[derive(Debug, Clone)]
pub struct PeReport {
    pub path: String,
    pub architecture: String,
    pub subsystem: String,
    pub entry_point: u32,
    pub image_base: u64,
    pub imports: Vec<String>,
    pub graphics_apis: Vec<String>,
}

/// A section header's placement fields.
#[derive(Debug, Clone, Copy)]
pub struct Section {
    pub virtual_address: u32,
    pub virtual_size: u32,
    pub raw_offset: u32,
    pub raw_size: u32,
}

/// The views of a list of strings.
pub open spec fn strs(v: Seq<String>) -> Seq<Seq<char>> {
    v.map_values(|s: String| s@)
}

// ---------------------------------------------------------------------------
// The format
// ---------------------------------------------------------------------------

/// Why bytes are not an inspectable PE image.
pub enum PeFault {
    Eof(int),
    MissingMz,
    MissingSignature,
    UnsupportedMagic(int),
    ImportTableOutside,
    ImportNameOutside,
    StringOutside,
}

/// The message that `AppError::InvalidPe` carries for each fault.
pub open spec fn pe_fault_text(f: PeFault) -> Seq<char> {
    match f {
        PeFault::Eof(o) => "unexpected EOF at 0x"@ + hex(o as nat),
        PeFault::MissingMz => "missing MZ header"@,
        PeFault::MissingSignature => "missing PE signature"@,
        PeFault::UnsupportedMagic(m) => "unsupported optional header magic 0x"@ + hex(m as nat),
        PeFault::ImportTableOutside => "import table RVA is outside sections"@,
        PeFault::ImportNameOutside => "import name RVA is outside sections"@,
        PeFault::StringOutside => "string offset outside file"@,
    }
}

pub open spec fn fits(d: Seq<u8>, o: int, n: int) -> bool {
    0 <= o && o + n <= d.len()
}

/// Little-endian integers.
pub open spec fn le16(d: Seq<u8>, o: int) -> int {
    d[o] as int + d[o + 1] as int * 256
}

pub open spec fn le32(d: Seq<u8>, o: int) -> int {
    le16(d, o) + le16(d, o + 2) * 65536
}

pub open spec fn le64(d: Seq<u8>, o: int) -> int {
    le32(d, o) + le32(d, o + 4) * 4294967296
}

pub open spec fn rd16(d: Seq<u8>, o: int) -> Result<int, PeFault> {
    if fits(d, o, 2) {
        Ok(le16(d, o))
    } else {
        Err(PeFault::Eof(o))
    }
}

pub open spec fn rd32(d: Seq<u8>, o: int) -> Result<int, PeFault> {
    if fits(d, o, 4) {
        Ok(le32(d, o))
    } else {
        Err(PeFault::Eof(o))
    }
}

pub open spec fn rd64(d: Seq<u8>, o: int) -> Result<int, PeFault> {
    if fits(d, o, 8) {
        Ok(le64(d, o))
    } else {
        Err(PeFault::Eof(o))
    }
}

/// The section headers `i..count` of the table at `offset`, after `acc`.
pub open spec fn spec_sections(d: Seq<u8>, offset: int, count: int, i: int, acc: Seq<Section>) -> Result<
    Seq<Section>,
    PeFault,
>
    decreases count - i,
{
    if i >= count {
        Ok(acc)
    } else {
        let base = offset + i * 40;
        match rd32(d, base + 8) {
            Err(f) => Err(f),
            Ok(vs) => match rd32(d, base + 12) {
                Err(f) => Err(f),
                Ok(va) => match rd32(d, base + 16) {
                    Err(f) => Err(f),
                    Ok(rs) => match rd32(d, base + 20) {
                        Err(f) => Err(f),
                        Ok(ro) => spec_sections(
                            d,
                            offset,
                            count,
                            i + 1,
                            acc.push(
                                Section {
                                    virtual_size: vs as u32,
                                    virtual_address: va as u32,
                                    raw_size: rs as u32,
                                    raw_offset: ro as u32,
                                },
                            ),
                        ),
                    },
                },
            },
        }
    }
}

/// The file offset of a relative virtual address, through the first section
/// (from `i` on) whose span `[address, address + max(virtual, raw size))`
/// holds it. Any 32-bit overflow on the way gives `None`.
pub open spec fn spec_rva(rva: int, secs: Seq<Section>, i: int) -> Option<int>
    decreases secs.len() - i,
{
    if i < 0 || i >= secs.len() {
        None
    } else {
        let s = secs[i];
        let size = if s.virtual_size >= s.raw_size {
            s.virtual_size as int
        } else {
            s.raw_size as int
        };
        if s.virtual_address + size > u32::MAX {
            None
        } else if rva >= s.virtual_address && rva < s.virtual_address + size {
            if s.raw_offset + (rva - s.virtual_address) > u32::MAX {
                None
            } else {
                Some(s.raw_offset + (rva - s.virtual_address))
            }
        } else {
            spec_rva(rva, secs, i + 1)
        }
    }
}

/// The number of bytes before the first zero byte (or the length).
pub open spec fn first_zero(t: Seq<u8>) -> nat
    decreases t.len(),
{
    if t.len() == 0 || t[0] == 0 {
        0
    } else {
        1 + first_zero(t.drop_first())
    }
}

/// The NUL-terminated byte string at offset `o`.
pub open spec fn c_string(d: Seq<u8>, o: int) -> Option<Seq<u8>> {
    if o < 0 || o > d.len() {
        None
    } else {
        Some(d.skip(o).take(first_zero(d.skip(o)) as int))
    }
}

/// `String::from_utf8_lossy`: the text of bytes, with each invalid UTF-8
/// sequence replaced by U+FFFD.
pub uninterp spec fn utf8_lossy(bytes: Seq<u8>) -> Seq<char>;

/// The DLL names of import descriptors `k..4096` at `offset`, after `acc`:
/// each non-empty name, lowercased, in table order. The table ends at an
/// all-zero descriptor or after 4096 descriptors.
pub open spec fn spec_import_names(
    d: Seq<u8>,
    offset: int,
    secs: Seq<Section>,
    k: int,
    acc: Seq<Seq<char>>,
) -> Result<Seq<Seq<char>>, PeFault>
    decreases 4096 - k,
{
    if k >= 4096 {
        Ok(acc)
    } else {
        match rd32(d, offset) {
            Err(f) => Err(f),
            Ok(oft) => match rd32(d, offset + 4) {
                Err(f) => Err(f),
                Ok(ts) => match rd32(d, offset + 8) {
                    Err(f) => Err(f),
                    Ok(fc) => match rd32(d, offset + 12) {
                        Err(f) => Err(f),
                        Ok(name_rva) => match rd32(d, offset + 16) {
                            Err(f) => Err(f),
                            Ok(ft) => {
                                if oft == 0 && ts == 0 && fc == 0 && name_rva == 0 && ft == 0 {
                                    Ok(acc)
                                } else if name_rva != 0 {
                                    match spec_rva(name_rva, secs, 0) {
                                        None => Err(PeFault::ImportNameOutside),
                                        Some(no) => match c_string(d, no) {
                                            None => Err(PeFault::StringOutside),
                                            Some(bytes) => {
                                                let name = utf8_lossy(bytes);
                                                let acc2 = if name.len() == 0 {
                                                    acc
                                                } else {
                                                    acc.push(lower_seq(name))
                                                };
                                                spec_import_names(d, offset + 20, secs, k + 1, acc2)
                                            },
                                        },
                                    }
                                } else {
                                    spec_import_names(d, offset + 20, secs, k + 1, acc)
                                }
                            },
                        },
                    },
                },
            },
        }
    }
}

/// The import table at relative address `rva` (none when it is 0).
pub open spec fn spec_imports(d: Seq<u8>, rva: int, secs: Seq<Section>) -> Result<
    Seq<Seq<char>>,
    PeFault,
> {
    if rva == 0 {
        Ok(seq![])
    } else {
        match spec_rva(rva, secs, 0) {
            None => Err(PeFault::ImportTableOutside),
            Some(offset) => spec_import_names(d, offset, secs, 0, seq![]),
        }
    }
}

/// The fields of an inspected image.
pub struct PeModel {
    pub machine: int,
    pub subsystem: int,
    pub entry_point: int,
    pub image_base: int,
    pub names: Seq<Seq<char>>,
}

/// The headers up to the optional header's magic: the machine, the section
/// count, the optional header size and its offset, and the magic.
pub open spec fn spec_headers(d: Seq<u8>) -> Result<(int, int, int, int, int), PeFault> {
    match rd32(d, 0x3c) {
        Err(f) => Err(f),
        Ok(pe) => {
            if !(d.len() >= 2 && d[0] == 0x4d && d[1] == 0x5a) {
                Err(PeFault::MissingMz)
            } else if !(fits(d, pe, 4) && d[pe] == 0x50 && d[pe + 1] == 0x45 && d[pe + 2] == 0
                && d[pe + 3] == 0) {
                Err(PeFault::MissingSignature)
            } else {
                let coff = pe + 4;
                match rd16(d, coff) {
                    Err(f) => Err(f),
                    Ok(machine) => match rd16(d, coff + 2) {
                        Err(f) => Err(f),
                        Ok(count) => match rd16(d, coff + 16) {
                            Err(f) => Err(f),
                            Ok(optional_size) => match rd16(d, coff + 20) {
                                Err(f) => Err(f),
                                Ok(magic) => Ok((machine, count, optional_size, coff + 20, magic)),
                            },
                        },
                    },
                }
            }
        },
    }
}

/// The image base and the offsets of the data directories and of their
/// count, by optional header kind (PE32+ or PE32).
pub open spec fn spec_layout(d: Seq<u8>, optional: int, magic: int) -> Result<(int, int, int), PeFault> {
    if magic == 0x20b {
        match rd64(d, optional + 24) {
            Err(f) => Err(f),
            Ok(base) => Ok((base, optional + 112, optional + 108)),
        }
    } else if magic == 0x10b {
        match rd32(d, optional + 28) {
            Err(f) => Err(f),
            Ok(base) => Ok((base, optional + 96, optional + 92)),
        }
    } else {
        Err(PeFault::UnsupportedMagic(magic))
    }
}

/// The whole inspection.
pub open spec fn spec_inspect(d: Seq<u8>) -> Result<PeModel, PeFault> {
    match spec_headers(d) {
        Err(f) => Err(f),
        Ok((machine, count, optional_size, optional, magic)) => match spec_layout(d, optional, magic) {
            Err(f) => Err(f),
            Ok((image_base, directories, rva_count_offset)) => match rd32(d, optional + 16) {
                Err(f) => Err(f),
                Ok(entry_point) => match rd16(d, optional + 68) {
                    Err(f) => Err(f),
                    Ok(subsystem) => match rd32(d, rva_count_offset) {
                        Err(f) => Err(f),
                        Ok(rva_count) => match spec_sections(
                            d,
                            optional + optional_size,
                            count,
                            0,
                            seq![],
                        ) {
                            Err(f) => Err(f),
                            Ok(secs) => {
                                if rva_count > 1 {
                                    match rd32(d, directories + 8) {
                                        Err(f) => Err(f),
                                        Ok(import_rva) => match spec_imports(d, import_rva, secs) {
                                            Err(f) => Err(f),
                                            Ok(names) => Ok(
                                                PeModel {
                                                    machine,
                                                    subsystem,
                                                    entry_point,
                                                    image_base,
                                                    names,
                                                },
                                            ),
                                        },
                                    }
                                } else {
                                    Ok(
                                        PeModel {
                                            machine,
                                            subsystem,
                                            entry_point,
                                            image_base,
                                            names: seq![],
                                        },
                                    )
                                }
                            },
                        },
                    },
                },
            },
        },
    }
}

/// The architecture name of a COFF machine type.
pub open spec fn architecture_text(machine: int) -> Seq<char> {
    if machine == 0x014c {
        "x86"@
    } else if machine == 0x8664 {
        "x86_64"@
    } else if machine == 0xaa64 {
        "arm64"@
    } else if machine == 0xa641 {
        "arm64ec"@
    } else {
        "unknown"@
    }
}

/// The name of an optional header subsystem.
pub open spec fn subsystem_text(subsystem: int) -> Seq<char> {
    if subsystem == 1 {
        "native"@
    } else if subsystem == 2 {
        "windows-gui"@
    } else if subsystem == 3 {
        "windows-console"@
    } else if subsystem == 7 {
        "posix-console"@
    } else if subsystem == 9 {
        "windows-ce"@
    } else if subsystem == 10 {
        "efi-application"@
    } else if subsystem == 11 {
        "efi-boot-service-driver"@
    } else if subsystem == 12 {
        "efi-runtime-driver"@
    } else if subsystem == 13 {
        "efi-rom"@
    } else if subsystem == 14 {
        "xbox"@
    } else if subsystem == 16 {
        "windows-boot-application"@
    } else {
        "unknown"@
    }
}

pub open spec fn when(b: bool, s: Seq<char>) -> Seq<Seq<char>> {
    if b {
        seq![s]
    } else {
        seq![]
    }
}

/// The graphics APIs that imported DLL names reveal, strongest first.
pub open spec fn graphics_of(n: Seq<Seq<char>>) -> Seq<Seq<char>> {
    when(n.contains("d3d12.dll"@), "Direct3D 12"@) + when(
        n.contains("d3d11.dll"@) || n.contains("dxgi.dll"@),
        "Direct3D 11 / DXGI"@,
    ) + when(n.contains("d3d10.dll"@) || n.contains("d3d10_1.dll"@), "Direct3D 10"@) + when(
        n.contains("d3d9.dll"@),
        "Direct3D 9"@,
    ) + when(n.contains("vulkan-1.dll"@), "Vulkan"@) + when(n.contains("opengl32.dll"@), "OpenGL"@)
}

proof fn lemma_when_contains(s: Seq<Seq<char>>, b: bool, x: Seq<char>, y: Seq<char>)
    ensures
        (s + when(b, x)).contains(y) <==> s.contains(y) || (b && x == y),
{
    let t = s + when(b, x);
    if t.contains(y) {
        let i = choose|i: int| 0 <= i < t.len() && t[i] == y;
        if i < s.len() {
            assert(s[i] == y);
        }
    }
    if s.contains(y) {
        let i = choose|i: int| 0 <= i < s.len() && s[i] == y;
        assert(t[i] == y);
    }
    if b && x == y {
        assert(t[s.len() as int] == y);
    }
}

proof fn lemma_graphics_contains(n: Seq<Seq<char>>, y: Seq<char>)
    ensures
        graphics_of(n).contains(y) <==> {
            ||| n.contains("d3d12.dll"@) && y == "Direct3D 12"@
            ||| (n.contains("d3d11.dll"@) || n.contains("dxgi.dll"@)) && y == "Direct3D 11 / DXGI"@
            ||| (n.contains("d3d10.dll"@) || n.contains("d3d10_1.dll"@)) && y == "Direct3D 10"@
            ||| n.contains("d3d9.dll"@) && y == "Direct3D 9"@
            ||| n.contains("vulkan-1.dll"@) && y == "Vulkan"@
            ||| n.contains("opengl32.dll"@) && y == "OpenGL"@
        },
{
    let s0 = Seq::<Seq<char>>::empty();
    let a = when(n.contains("d3d12.dll"@), "Direct3D 12"@);
    assert(a =~= s0 + a);
    lemma_when_contains(s0, n.contains("d3d12.dll"@), "Direct3D 12"@, y);
    let b = a + when(n.contains("d3d11.dll"@) || n.contains("dxgi.dll"@), "Direct3D 11 / DXGI"@);
    lemma_when_contains(a, n.contains("d3d11.dll"@) || n.contains("dxgi.dll"@), "Direct3D 11 / DXGI"@, y);
    let c = b + when(n.contains("d3d10.dll"@) || n.contains("d3d10_1.dll"@), "Direct3D 10"@);
    lemma_when_contains(b, n.contains("d3d10.dll"@) || n.contains("d3d10_1.dll"@), "Direct3D 10"@, y);
    let d = c + when(n.contains("d3d9.dll"@), "Direct3D 9"@);
    lemma_when_contains(c, n.contains("d3d9.dll"@), "Direct3D 9"@, y);
    let e = d + when(n.contains("vulkan-1.dll"@), "Vulkan"@);
    lemma_when_contains(d, n.contains("vulkan-1.dll"@), "Vulkan"@, y);
    lemma_when_contains(e, n.contains("opengl32.dll"@), "OpenGL"@, y);
}

/// Each graphics API is reported exactly when the executable imports one of
/// its DLLs: Direct3D 12 for d3d12.dll, Direct3D 11 / DXGI for d3d11.dll or
/// dxgi.dll, Direct3D 10 for d3d10.dll or d3d10_1.dll, Direct3D 9 for
/// d3d9.dll, Vulkan for vulkan-1.dll and OpenGL for opengl32.dll; nothing
/// else is reported, and nothing twice.
pub proof fn lemma_graphics_apis(n: Seq<Seq<char>>)
    ensures
        graphics_of(n).contains("Direct3D 12"@) <==> n.contains("d3d12.dll"@),
        graphics_of(n).contains("Direct3D 11 / DXGI"@) <==> (n.contains("d3d11.dll"@) || n.contains(
            "dxgi.dll"@,
        )),
        graphics_of(n).contains("Direct3D 10"@) <==> (n.contains("d3d10.dll"@) || n.contains(
            "d3d10_1.dll"@,
        )),
        graphics_of(n).contains("Direct3D 9"@) <==> n.contains("d3d9.dll"@),
        graphics_of(n).contains("Vulkan"@) <==> n.contains("vulkan-1.dll"@),
        graphics_of(n).contains("OpenGL"@) <==> n.contains("opengl32.dll"@),
        forall|y: Seq<char>| #[trigger] graphics_of(n).contains(y) ==> {
            ||| y == "Direct3D 12"@
            ||| y == "Direct3D 11 / DXGI"@
            ||| y == "Direct3D 10"@
            ||| y == "Direct3D 9"@
            ||| y == "Vulkan"@
            ||| y == "OpenGL"@
        },
{
    reveal_strlit("Direct3D 12");
    reveal_strlit("Direct3D 11 / DXGI");
    reveal_strlit("Direct3D 10");
    reveal_strlit("Direct3D 9");
    reveal_strlit("Vulkan");
    reveal_strlit("OpenGL");
    lemma_graphics_contains(n, "Direct3D 12"@);
    lemma_graphics_contains(n, "Direct3D 11 / DXGI"@);
    lemma_graphics_contains(n, "Direct3D 10"@);
    lemma_graphics_contains(n, "Direct3D 9"@);
    lemma_graphics_contains(n, "Vulkan"@);
    lemma_graphics_contains(n, "OpenGL"@);
    assert("Direct3D 12"@[10] != "Direct3D 10"@[10]);
    assert("Direct3D 12"@.len() != "Direct3D 9"@.len());
    assert("Vulkan"@[0] != "OpenGL"@[0]);
    assert forall|y: Seq<char>| #[trigger] graphics_of(n).contains(y) implies {
        ||| y == "Direct3D 12"@
        ||| y == "Direct3D 11 / DXGI"@
        ||| y == "Direct3D 10"@
        ||| y == "Direct3D 9"@
        ||| y == "Vulkan"@
        ||| y == "OpenGL"@
    } by {
        lemma_graphics_contains(n, y);
    }
}

// ---------------------------------------------------------------------------
// Executable inspection
// ---------------------------------------------------------------------------

fn pe_error(f: Ghost<PeFault>, text: String) -> (e: AppError)
    requires
        text@ == pe_fault_text(f@),
    ensures
        e matches AppError::InvalidPe(m) && m@ == pe_fault_text(f@),
{
    AppError::InvalidPe(text)
}

fn eof_error(offset: u64) -> (e: AppError)
    ensures
        e matches AppError::InvalidPe(m) && m@ == pe_fault_text(PeFault::Eof(offset as int)),
{
    let digits = hex_u64(offset);
    AppError::InvalidPe(join_text("unexpected EOF at 0x", digits.as_slice()))
}

fn plain_error(text: &str, f: Ghost<PeFault>) -> (e: AppError)
    requires
        text@ == pe_fault_text(f@),
    ensures
        e matches AppError::InvalidPe(m) && m@ == pe_fault_text(f@),
{
    AppError::InvalidPe(owned(text))
}

fn read_u16(data: &[u8], offset: u64) -> (r: Result<u16, AppError>)
    ensures
        match rd16(data@, offset as int) {
            Ok(v) => r == Ok::<u16, AppError>(v as u16),
            Err(f) => r matches Err(AppError::InvalidPe(m)) && m@ == pe_fault_text(f),
        },
{
    if offset > data.len() as u64 || (data.len() as u64) - offset < 2 {
        return Err(eof_error(offset));
    }
    let offset = offset as usize;
    let b0 = data[offset] as u16;
    let b1 = data[offset + 1] as u16;
    Ok(b0 + b1 * 256)
}

fn read_u32(data: &[u8], offset: u64) -> (r: Result<u32, AppError>)
    ensures
        match rd32(data@, offset as int) {
            Ok(v) => r == Ok::<u32, AppError>(v as u32),
            Err(f) => r matches Err(AppError::InvalidPe(m)) && m@ == pe_fault_text(f),
        },
{
    if offset > data.len() as u64 || (data.len() as u64) - offset < 4 {
        return Err(eof_error(offset));
    }
    let offset = offset as usize;
    let b0 = data[offset] as u32;
    let b1 = data[offset + 1] as u32;
    let b2 = data[offset + 2] as u32;
    let b3 = data[offset + 3] as u32;
    Ok(b0 + b1 * 256 + b2 * 65536 + b3 * 16777216)
}

fn read_u64(data: &[u8], offset: u64) -> (r: Result<u64, AppError>)
    ensures
        match rd64(data@, offset as int) {
            Ok(v) => r == Ok::<u64, AppError>(v as u64),
            Err(f) => r matches Err(AppError::InvalidPe(m)) && m@ == pe_fault_text(f),
        },
{
    if offset > data.len() as u64 || (data.len() as u64) - offset < 8 {
        return Err(eof_error(offset));
    }
    let offset = offset as usize;
    let lo = match read_u32(data, offset as u64) {
        Ok(v) => v as u64,
        Err(e) => {
            return Err(e);
        },
    };
    let hi = match read_u32(data, offset as u64 + 4) {
        Ok(v) => v as u64,
        Err(e) => {
            return Err(e);
        },
    };
    Ok(lo + hi * 4294967296)
}

fn parse_sections(data: &[u8], offset: u64, count: u64) -> (r: Result<Vec<Section>, AppError>)
    requires
        offset <= 0x1_0000_0000_0000,
        count <= 0x10000,
    ensures
        match spec_sections(data@, offset as int, count as int, 0, seq![]) {
            Ok(secs) => r matches Ok(v) && v@ == secs,
            Err(f) => r matches Err(AppError::InvalidPe(m)) && m@ == pe_fault_text(f),
        },
{
    let mut sections: Vec<Section> = Vec::new();
    let mut index: u64 = 0;
    let ghost target = spec_sections(data@, offset as int, count as int, 0, seq![]);
    while index < count
        invariant
            index <= count <= 0x10000,
            offset <= 0x1_0000_0000_0000,
            target == spec_sections(data@, offset as int, count as int, 0, seq![]),
            spec_sections(data@, offset as int, count as int, index as int, sections@) == target,
        decreases count - index,
    {
        let base = offset + index * 40;
        let virtual_size = match read_u32(data, base + 8) {
            Ok(v) => v,
            Err(e) => {
                return Err(e);
            },
        };
        let virtual_address = match read_u32(data, base + 12) {
            Ok(v) => v,
            Err(e) => {
                return Err(e);
            },
        };
        let raw_size = match read_u32(data, base + 16) {
            Ok(v) => v,
            Err(e) => {
                return Err(e);
            },
        };
        let raw_offset = match read_u32(data, base + 20) {
            Ok(v) => v,
            Err(e) => {
                return Err(e);
            },
        };
        sections.push(Section { virtual_address, virtual_size, raw_offset, raw_size });
        index = index + 1;
    }
    Ok(sections)
}

proof fn lemma_rva_bounds(rva: int, secs: Seq<Section>, i: int)
    requires
        0 <= rva <= u32::MAX,
    ensures
        spec_rva(rva, secs, i) matches Some(o) ==> 0 <= o <= u32::MAX,
    decreases secs.len() - i,
{
    if 0 <= i < secs.len() {
        lemma_rva_bounds(rva, secs, i + 1);
    }
}

fn rva_to_offset(rva: u32, sections: &[Section]) -> (r: Option<u64>)
    ensures
        match spec_rva(rva as int, sections@, 0) {
            Some(o) => r == Some(o as u64),
            None => r is None,
        },
        r matches Some(o) ==> o <= u32::MAX,
        spec_rva(rva as int, sections@, 0) matches Some(o) ==> 0 <= o <= u32::MAX,
{
    proof {
        lemma_rva_bounds(rva as int, sections@, 0);
    }
    let mut i: usize = 0;
    while i < sections.len()
        invariant
            i <= sections@.len(),
            spec_rva(rva as int, sections@, 0) == spec_rva(rva as int, sections@, i as int),
        decreases sections@.len() - i,
    {
        let section = sections[i];
        let size = if section.virtual_size >= section.raw_size {
            section.virtual_size
        } else {
            section.raw_size
        };
        if section.virtual_address as u64 + size as u64 > u32::MAX as u64 {
            return None;
        }
        let end = section.virtual_address + size;
        if rva >= section.virtual_address && rva < end {
            let relative = rva - section.virtual_address;
            if section.raw_offset as u64 + relative as u64 > u32::MAX as u64 {
                return None;
            }
            return Some((section.raw_offset + relative) as u64);
        }
        i = i + 1;
    }
    None
}

fn read_c_string(data: &[u8], offset: u64) -> (r: Result<String, AppError>)
    ensures
        match c_string(data@, offset as int) {
            Some(bytes) => r matches Ok(s) && s@ == utf8_lossy(bytes),
            None => r matches Err(AppError::InvalidPe(m)) && m@ == pe_fault_text(PeFault::StringOutside),
        },
{
    if offset > data.len() as u64 {
        return Err(plain_error("string offset outside file", Ghost(PeFault::StringOutside)));
    }
    let offset = offset as usize;
    let ghost tail = data@.skip(offset as int);
    let mut end: usize = offset;
    while end < data.len() && data[end] != 0
        invariant
            offset <= end <= data@.len(),
            tail == data@.skip(offset as int),
            first_zero(tail) == (end - offset) + first_zero(data@.skip(end as int)),
        decreases data@.len() - end,
    {
        assert(data@.skip(end as int).drop_first() =~= data@.skip(end + 1));
        end = end + 1;
    }
    let mut bytes: Vec<u8> = Vec::new();
    let mut i: usize = offset;
    while i < end
        invariant
            offset <= i <= end <= data@.len(),
            bytes@ == data@.subrange(offset as int, i as int),
        decreases end - i,
    {
        bytes.push(data[i]);
        i = i + 1;
        assert(bytes@ =~= data@.subrange(offset as int, i as int));
    }
    assert(bytes@ =~= tail.take(first_zero(tail) as int));
    Ok(decode_lossy(bytes.as_slice()))
}

/// `String::from_utf8_lossy` (std). The contract names its result
/// `utf8_lossy` and states the documented case: valid UTF-8 is decoded
/// unchanged. How invalid sequences are replaced is left unsaid.
#[verifier::external_body]
pub(crate) fn decode_lossy(bytes: &[u8]) -> (s: String)
    ensures
        s@ == utf8_lossy(bytes@),
        vstd::utf8::valid_utf8(bytes@) ==> s@ == vstd::utf8::decode_utf8(bytes@),
{
    String::from_utf8_lossy(bytes).into_owned()
}

fn parse_imports(data: &[u8], import_rva: u32, sections: &[Section]) -> (r: Result<
    Vec<String>,
    AppError,
>)
    ensures
        match spec_imports(data@, import_rva as int, sections@) {
            Ok(names) => r matches Ok(v) && is_sorted_set_of(strs(v@), names),
            Err(f) => r matches Err(AppError::InvalidPe(m)) && m@ == pe_fault_text(f),
        },
{
    if import_rva == 0 {
        return Ok(Vec::new());
    }
    let mut offset = match rva_to_offset(import_rva, sections) {
        Some(o) => o,
        None => {
            return Err(
                plain_error("import table RVA is outside sections", Ghost(PeFault::ImportTableOutside)),
            );
        },
    };
    let ghost target = spec_imports(data@, import_rva as int, sections@);
    let ghost mut names: Seq<Seq<char>> = seq![];
    let mut set: Vec<Vec<char>> = Vec::new();
    let mut k: usize = 0;
    while k < 4096
        invariant
            k <= 4096,
            offset <= u32::MAX + 20 * k,
            k <= 4096,
            target == spec_imports(data@, import_rva as int, sections@),
            import_rva != 0,
            spec_import_names(data@, offset as int, sections@, k as int, names) == target,
            strictly_sorted(char_vecs(set@)),
            same_members(char_vecs(set@), names),
        ensures
            target == Ok::<Seq<Seq<char>>, PeFault>(names),
            strictly_sorted(char_vecs(set@)),
            same_members(char_vecs(set@), names),
        decreases 4096 - k,
    {
        let original_first_thunk = match read_u32(data, offset) {
            Ok(v) => v,
            Err(e) => {
                return Err(e);
            },
        };
        let timestamp = match read_u32(data, offset + 4) {
            Ok(v) => v,
            Err(e) => {
                return Err(e);
            },
        };
        let forwarder_chain = match read_u32(data, offset + 8) {
            Ok(v) => v,
            Err(e) => {
                return Err(e);
            },
        };
        let name_rva = match read_u32(data, offset + 12) {
            Ok(v) => v,
            Err(e) => {
                return Err(e);
            },
        };
        let first_thunk = match read_u32(data, offset + 16) {
            Ok(v) => v,
            Err(e) => {
                return Err(e);
            },
        };
        if original_first_thunk == 0 && timestamp == 0 && forwarder_chain == 0 && name_rva == 0
            && first_thunk == 0 {
            break ;
        }
        if name_rva != 0 {
            let name_offset = match rva_to_offset(name_rva, sections) {
                Some(o) => o,
                None => {
                    return Err(
                        plain_error(
                            "import name RVA is outside sections",
                            Ghost(PeFault::ImportNameOutside),
                        ),
                    );
                },
            };
            let name = match read_c_string(data, name_offset) {
                Ok(s) => s,
                Err(e) => {
                    return Err(e);
                },
            };
            let chars = string_chars(&name);
            if chars.len() != 0 {
                let lower = lower_chars(chars.as_slice());
                let ghost old_set = char_vecs(set@);
                let ghost old_names = names;
                sorted_insert(&mut set, lower);
                proof {
                    names = names.push(lower@);
                    lemma_members_push(old_set, old_names, lower@);
                    lemma_members_trans(char_vecs(set@), old_set.push(lower@), names);
                }
            }
        }
        offset = offset + 20;
        k = k + 1;
    }
    let mut result: Vec<String> = Vec::new();
    let mut i: usize = 0;
    while i < set.len()
        invariant
            i <= set@.len(),
            strs(result@) == char_vecs(set@).take(i as int),
        decreases set@.len() - i,
    {
        let s = string_from_chars(set[i].as_slice());
        let ghost before = strs(result@);
        result.push(s);
        assert(strs(result@) =~= before.push(char_vecs(set@)[i as int]));
        i = i + 1;
        assert(strs(result@) =~= char_vecs(set@).take(i as int));
    }
    assert(char_vecs(set@).take(i as int) =~= char_vecs(set@));
    Ok(result)
}

pub(crate) fn names_contain(names: &Vec<String>, wanted: &str) -> (r: bool)
    ensures
        r == strs(names@).contains(wanted@),
{
    let w = owned(wanted);
    let mut i: usize = 0;
    while i < names.len()
        invariant
            i <= names@.len(),
            w@ == wanted@,
            forall|k: int| 0 <= k < i ==> names@[k]@ != wanted@,
        decreases names@.len() - i,
    {
        if names[i] == w {
            assert(strs(names@)[i as int] == wanted@);
            return true;
        }
        i = i + 1;
    }
    assert forall|k: int| 0 <= k < strs(names@).len() implies strs(names@)[k] != wanted@ by {
        assert(strs(names@)[k] == names@[k]@);
    }
    false
}

fn push_when(out: &mut Vec<String>, condition: bool, text: &str)
    ensures
        strs(final(out)@) == strs(old(out)@) + when(condition, text@),
{
    if condition {
        out.push(owned(text));
    }
    assert(strs(final(out)@) =~= strs(old(out)@) + when(condition, text@));
}

/// The graphics APIs that the imported DLL names reveal.
pub fn detect_graphics(imports: &Vec<String>) -> (r: Vec<String>)
    ensures
        strs(r@) == graphics_of(strs(imports@)),
{
    let mut result: Vec<String> = Vec::new();
    assert(strs(result@) =~= seq![]);
    let d3d12 = names_contain(imports, "d3d12.dll");
    push_when(&mut result, d3d12, "Direct3D 12");
    let d3d11 = names_contain(imports, "d3d11.dll") || names_contain(imports, "dxgi.dll");
    push_when(&mut result, d3d11, "Direct3D 11 / DXGI");
    let d3d10 = names_contain(imports, "d3d10.dll") || names_contain(imports, "d3d10_1.dll");
    push_when(&mut result, d3d10, "Direct3D 10");
    let d3d9 = names_contain(imports, "d3d9.dll");
    push_when(&mut result, d3d9, "Direct3D 9");
    let vulkan = names_contain(imports, "vulkan-1.dll");
    push_when(&mut result, vulkan, "Vulkan");
    let opengl = names_contain(imports, "opengl32.dll");
    push_when(&mut result, opengl, "OpenGL");
    result
}

pub fn architecture_name(machine: u16) -> (r: &'static str)
    ensures
        r@ == architecture_text(machine as int),
{
    if machine == 0x014c {
        "x86"
    } else if machine == 0x8664 {
        "x86_64"
    } else if machine == 0xaa64 {
        "arm64"
    } else if machine == 0xa641 {
        "arm64ec"
    } else {
        "unknown"
    }
}

pub fn subsystem_name(subsystem: u16) -> (r: &'static str)
    ensures
        r@ == subsystem_text(subsystem as int),
{
    if subsystem == 1 {
        "native"
    } else if subsystem == 2 {
        "windows-gui"
    } else if subsystem == 3 {
        "windows-console"
    } else if subsystem == 7 {
        "posix-console"
    } else if subsystem == 9 {
        "windows-ce"
    } else if subsystem == 10 {
        "efi-application"
    } else if subsystem == 11 {
        "efi-boot-service-driver"
    } else if subsystem == 12 {
        "efi-runtime-driver"
    } else if subsystem == 13 {
        "efi-rom"
    } else if subsystem == 14 {
        "xbox"
    } else if subsystem == 16 {
        "windows-boot-application"
    } else {
        "unknown"
    }
}

/// Inspects the bytes of a Windows executable read from `path`.
pub fn inspect_pe_bytes(path: String, data: &[u8]) -> (res: Result<PeReport, AppError>)
    ensures
        match spec_inspect(data@) {
            Ok(m) => res matches Ok(r) && r.path@ == path@ && r.architecture@ == architecture_text(
                m.machine,
            ) && r.subsystem@ == subsystem_text(m.subsystem) && r.entry_point == m.entry_point
                && r.image_base == m.image_base && is_sorted_set_of(strs(r.imports@), m.names)
                && strs(r.graphics_apis@) == graphics_of(strs(r.imports@)),
            Err(f) => res matches Err(AppError::InvalidPe(m)) && m@ == pe_fault_text(f),
        },
{
    let pe_offset = match read_u32(data, 0x3c) {
        Ok(v) => v as u64,
        Err(e) => {
            return Err(e);
        },
    };
    if !(data.len() >= 2 && data[0] == 0x4d && data[1] == 0x5a) {
        return Err(plain_error("missing MZ header", Ghost(PeFault::MissingMz)));
    }
    if !(pe_offset <= data.len() as u64 && (data.len() as u64) - pe_offset >= 4) {
        return Err(plain_error("missing PE signature", Ghost(PeFault::MissingSignature)));
    }
    let p = pe_offset as usize;
    if !(data[p] == 0x50 && data[p + 1] == 0x45 && data[p + 2] == 0 && data[p + 3] == 0) {
        return Err(plain_error("missing PE signature", Ghost(PeFault::MissingSignature)));
    }
    let coff = pe_offset + 4;
    let machine = match read_u16(data, coff) {
        Ok(v) => v,
        Err(e) => {
            return Err(e);
        },
    };
    let section_count = match read_u16(data, coff + 2) {
        Ok(v) => v as u64,
        Err(e) => {
            return Err(e);
        },
    };
    let optional_size = match read_u16(data, coff + 16) {
        Ok(v) => v as u64,
        Err(e) => {
            return Err(e);
        },
    };
    let optional = coff + 20;
    let magic = match read_u16(data, optional) {
        Ok(v) => v,
        Err(e) => {
            return Err(e);
        },
    };
    let (image_base, data_directory_offset, number_of_rva_offset) = if magic == 0x20b {
        match read_u64(data, optional + 24) {
            Ok(v) => (v, optional + 112, optional + 108),
            Err(e) => {
                return Err(e);
            },
        }
    } else if magic == 0x10b {
        match read_u32(data, optional + 28) {
            Ok(v) => (v as u64, optional + 96, optional + 92),
            Err(e) => {
                return Err(e);
            },
        }
    } else {
        let digits = hex_u64(magic as u64);
        let text = join_text("unsupported optional header magic 0x", digits.as_slice());
        return Err(pe_error(Ghost(PeFault::UnsupportedMagic(magic as int)), text));
    };
    let entry_point = match read_u32(data, optional + 16) {
        Ok(v) => v,
        Err(e) => {
            return Err(e);
        },
    };
    let subsystem = match read_u16(data, optional + 68) {
        Ok(v) => v,
        Err(e) => {
            return Err(e);
        },
    };
    let number_of_rva = match read_u32(data, number_of_rva_offset) {
        Ok(v) => v,
        Err(e) => {
            return Err(e);
        },
    };
    let section_table = optional + optional_size;
    let sections = match parse_sections(data, section_table, section_count) {
        Ok(v) => v,
        Err(e) => {
            return Err(e);
        },
    };
    let imports = if number_of_rva > 1 {
        let import_rva = match read_u32(data, data_directory_offset + 8) {
            Ok(v) => v,
            Err(e) => {
                return Err(e);
            },
        };
        match parse_imports(data, import_rva, sections.as_slice()) {
            Ok(v) => v,
            Err(e) => {
                return Err(e);
            },
        }
    } else {
        let v: Vec<String> = Vec::new();
        proof {
            assert(strictly_sorted(strs(v@)));
            assert(strs(v@) =~= seq![]);
        }
        v
    };
    let graphics_apis = detect_graphics(&imports);
    Ok(
        PeReport {
            path,
            architecture: owned(architecture_name(machine)),
            subsystem: owned(subsystem_name(subsystem)),
            entry_point,
            image_base,
            imports,
            graphics_apis,
        },
    )
}

} // verus!
