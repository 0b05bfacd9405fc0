use darwinplay_runtime::error::AppError;
use darwinplay_runtime::pe::{architecture_name, detect_graphics, inspect_pe_bytes, subsystem_name};

fn minimal_pe64() -> Vec<u8> {
    let mut data = vec![0u8; 0x400];
    data[0..2].copy_from_slice(b"MZ");
    data[0x3c..0x40].copy_from_slice(&(0x80u32).to_le_bytes());
    data[0x80..0x84].copy_from_slice(b"PE\0\0");
    let coff = 0x84;
    data[coff..coff + 2].copy_from_slice(&(0x8664u16).to_le_bytes());
    data[coff + 2..coff + 4].copy_from_slice(&(1u16).to_le_bytes());
    data[coff + 16..coff + 18].copy_from_slice(&(0xf0u16).to_le_bytes());
    let optional = coff + 20;
    data[optional..optional + 2].copy_from_slice(&(0x20bu16).to_le_bytes());
    data[optional + 16..optional + 20].copy_from_slice(&(0x1000u32).to_le_bytes());
    data[optional + 24..optional + 32].copy_from_slice(&(0x140000000u64).to_le_bytes());
    data[optional + 68..optional + 70].copy_from_slice(&(2u16).to_le_bytes());
    data[optional + 108..optional + 112].copy_from_slice(&(16u32).to_le_bytes());
    let section = optional + 0xf0;
    data[section + 8..section + 12].copy_from_slice(&(0x200u32).to_le_bytes());
    data[section + 12..section + 16].copy_from_slice(&(0x1000u32).to_le_bytes());
    data[section + 16..section + 20].copy_from_slice(&(0x200u32).to_le_bytes());
    data[section + 20..section + 24].copy_from_slice(&(0x200u32).to_le_bytes());
    data
}

#[test]
fn reads_minimal_pe64() {
    let data = minimal_pe64();
    let report = inspect_pe_bytes("game.exe".to_string(), &data).unwrap();
    assert_eq!(report.architecture, "x86_64");
    assert_eq!(report.subsystem, "windows-gui");
    assert_eq!(report.entry_point, 0x1000);
    assert_eq!(report.image_base, 0x140000000);
    assert!(report.imports.is_empty());
}

#[test]
fn reads_imports_sorted_and_deduplicated() {
    let mut data = minimal_pe64();
    let optional = 0x84 + 20;
    // import directory at RVA 0x1000 (file offset 0x200), 0x100 bytes
    data[optional + 120..optional + 124].copy_from_slice(&(0x1000u32).to_le_bytes());
    data[optional + 124..optional + 128].copy_from_slice(&(0x100u32).to_le_bytes());
    let names = [(0x1100u32, "D3D11.dll"), (0x1120u32, "kernel32.dll"), (0x1140u32, "d3d11.DLL")];
    for (i, (rva, name)) in names.iter().enumerate() {
        let d = 0x200 + i * 20;
        data[d + 12..d + 16].copy_from_slice(&rva.to_le_bytes());
        let offset = 0x200 + (*rva as usize - 0x1000);
        data[offset..offset + name.len()].copy_from_slice(name.as_bytes());
    }
    let report = inspect_pe_bytes("g.exe".to_string(), &data).unwrap();
    assert_eq!(report.imports, vec!["d3d11.dll".to_string(), "kernel32.dll".to_string()]);
    assert_eq!(report.graphics_apis, vec!["Direct3D 11 / DXGI".to_string()]);
}

#[test]
fn rejects_non_pe_files() {
    assert!(matches!(inspect_pe_bytes("x".into(), b"ZM"), Err(AppError::InvalidPe(_))));
    assert!(matches!(inspect_pe_bytes("x".into(), b""), Err(AppError::InvalidPe(_))));
    let mut data = minimal_pe64();
    data[0x80] = b'X';
    assert!(matches!(inspect_pe_bytes("x".into(), &data), Err(AppError::InvalidPe(_))));
}

#[test]
fn names_machines_and_subsystems() {
    assert_eq!(architecture_name(0x014c), "x86");
    assert_eq!(architecture_name(0xaa64), "arm64");
    assert_eq!(subsystem_name(3), "windows-console");
    assert_eq!(detect_graphics(&vec!["opengl32.dll".to_string(), "d3d12.dll".to_string()]).len(), 2);
}
