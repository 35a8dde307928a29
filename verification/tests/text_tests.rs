use qrfs::fsck::mock::MockBackend;
use qrfs::fsck::run_fsck;
use qrfs::fsck::text::push_decimal;
use qrfs::fsck::types::{Dirent, Finding, FsckReport, Inode, Superblock};

fn decimal(n: u64) -> String {
    let mut out = String::from("n=");
    push_decimal(&mut out, n);
    out
}

#[test]
fn numbers_are_written_in_decimal_digits() {
    assert_eq!(decimal(0), "n=0");
    assert_eq!(decimal(7), "n=7");
    assert_eq!(decimal(9), "n=9");
    assert_eq!(decimal(10), "n=10");
    assert_eq!(decimal(1905), "n=1905");
    assert_eq!(decimal(1234567890), "n=1234567890");
    assert_eq!(decimal(u64::MAX), "n=18446744073709551615");
    for n in [11u64, 99, 100, 101, 4095, 65536, 999_999_999_999] {
        assert_eq!(decimal(n), format!("n={n}"));
    }
}

#[test]
fn findings_about_the_superblock_in_words() {
    assert_eq!(Finding::BadMagic.message(), "Superblock: magic inválido");
    assert_eq!(
        Finding::InodeCountMismatch { declared: 2, actual: 1 }.message(),
        "Superblock: num_inodes = 2, pero hay 1 inodos reales"
    );
    assert_eq!(
        Finding::BlockCountMismatch { declared: 4294967295, bitmap_len: 0 }.message(),
        "Superblock: num_blocks = 4294967295, pero bitmap tiene 0 entradas"
    );
    assert_eq!(
        Finding::RootOutOfRange { root: 12 }.message(),
        "Superblock: root_inode (12) fuera de rango"
    );
    assert_eq!(Finding::ZeroBlocks.message(), "Superblock: num_blocks no puede ser 0");
    assert_eq!(Finding::ZeroInodes.message(), "Superblock: num_inodes no puede ser 0");
}

#[test]
fn findings_about_inodes_in_words() {
    assert_eq!(Finding::InvalidSize { inode: 3 }.message(), "Inodo 3 tiene tamaño inválido");
    assert_eq!(
        Finding::DirectOutOfRange { inode: 1, block: 99 }.message(),
        "Inodo 1: bloque directo fuera de rango (99)"
    );
    assert_eq!(
        Finding::Indirect1OutOfRange { inode: 10, block: 100 }.message(),
        "Inodo 10: indirect1 fuera de rango (100)"
    );
    assert_eq!(
        Finding::Indirect2OutOfRange { inode: 0, block: 7 }.message(),
        "Inodo 0: indirect2 fuera de rango (7)"
    );
    assert_eq!(
        Finding::DuplicateInInode { inode: 0, block: 1 }.message(),
        "Inodo 0: bloque duplicado (1)"
    );
    assert_eq!(
        Finding::DuplicateDirect { inode: 21, block: 305 }.message(),
        "Inodo 21: bloque duplicado globalmente (305)"
    );
    assert_eq!(
        Finding::DuplicateIndirect1 { inode: 2, block: 3 }.message(),
        "Inodo 2: indirect1 duplicado globalmente (3)"
    );
    assert_eq!(
        Finding::DuplicateIndirect2 { inode: 4, block: 5 }.message(),
        "Inodo 4: indirect2 duplicado globalmente (5)"
    );
    assert_eq!(Finding::Orphan { inode: 8 }.message(), "Inodo 8 huérfano");
}

#[test]
fn findings_about_directories_and_the_bitmap_in_words() {
    assert_eq!(Finding::RootMissing.message(), "Root inode fuera de rango");
    assert_eq!(Finding::RootNotDirectory.message(), "Root inode no es un directorio");
    assert_eq!(Finding::EmptyName { dir: 0 }.message(), "Inodo 0: dirent con nombre vacío");
    assert_eq!(
        Finding::DanglingEntry { dir: 0, name: "año".to_string(), target: 40 }.message(),
        "Inodo 0: dirent 'año' apunta a inodo inexistente (40)"
    );
    assert_eq!(
        Finding::WrongEntryType { dir: 5, name: "a b".to_string() }.message(),
        "Dirent 'a b' en inodo 5 declara tipo incorrecto"
    );
    assert_eq!(
        Finding::BitmapSizeMismatch { actual: 3, expected: 4 }.message(),
        "Bitmap tiene tamaño incorrecto: 3 en vez de 4"
    );
    assert_eq!(
        Finding::UsedButUnclaimed { block: 2 }.message(),
        "Bitmap marca usado el bloque 2, pero ningún inodo lo usa"
    );
    assert_eq!(
        Finding::FreeButClaimed { block: 1000 }.message(),
        "Bitmap marca libre el bloque 1000, pero algún inodo lo usa"
    );
}

#[test]
fn a_report_in_words_keeps_the_order_of_the_findings() {
    let backend = MockBackend {
        superblock: Superblock { magic: 0, num_inodes: 2, num_blocks: 4, root_inode: 0, data_start: 0 },
        inodes: vec![
            Inode { in_use: true, is_dir: true, size: 0, direct: vec![1], indirect1: None, indirect2: None },
            Inode { in_use: true, is_dir: false, size: 0, direct: vec![2, 2], indirect1: None, indirect2: None },
        ],
        blocks: vec![vec![0u8; 4]; 4],
        dirs: vec![vec![Dirent { inode: 1, name: "f".to_string(), is_dir: true, valid: true }]],
        bitmap: vec![false, true, true, true],
    };
    let report = run_fsck(&backend);
    assert_eq!(
        report.messages(),
        vec![
            "Superblock: magic inválido",
            "Inodo 1: bloque duplicado (2)",
            "Inodo 1: bloque duplicado globalmente (2)",
            "Dirent 'f' en inodo 0 declara tipo incorrecto",
            "Bitmap marca usado el bloque 3, pero ningún inodo lo usa",
        ]
    );
    assert_eq!(report.messages().len(), report.error_count());
    assert_eq!(FsckReport::new().messages(), Vec::<String>::new());
}
