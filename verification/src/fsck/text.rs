//! The checker's findings in words.
use vstd::prelude::*;
use vstd::string::StringExecFns;
use crate::fsck::types::{Finding, FindingModel, FsckReport};

verus! {

/// The character of the decimal digit `d`.
pub open spec fn digit(d: int) -> char {
    if d == 0 {
        '0'
    } else if d == 1 {
        '1'
    } else if d == 2 {
        '2'
    } else if d == 3 {
        '3'
    } else if d == 4 {
        '4'
    } else if d == 5 {
        '5'
    } else if d == 6 {
        '6'
    } else if d == 7 {
        '7'
    } else if d == 8 {
        '8'
    } else {
        '9'
    }
}

/// The number `n` written in decimal digits, without leading zeros.
pub open spec fn decimal(n: int) -> Seq<char>
    decreases n,
{
    if n < 10 {
        seq![digit(n)]
    } else {
        decimal(n / 10).push(digit(n % 10))
    }
}

/// The decimal digit `d` as a text of one character.
fn digit_text(d: u64) -> (r: &'static str)
    requires
        d < 10,
    ensures
        r@ == seq![digit(d as int)],
{
    proof {
        reveal_strlit("0");
        reveal_strlit("1");
        reveal_strlit("2");
        reveal_strlit("3");
        reveal_strlit("4");
        reveal_strlit("5");
        reveal_strlit("6");
        reveal_strlit("7");
        reveal_strlit("8");
        reveal_strlit("9");
    }
    let r = if d == 0 {
        "0"
    } else if d == 1 {
        "1"
    } else if d == 2 {
        "2"
    } else if d == 3 {
        "3"
    } else if d == 4 {
        "4"
    } else if d == 5 {
        "5"
    } else if d == 6 {
        "6"
    } else if d == 7 {
        "7"
    } else if d == 8 {
        "8"
    } else {
        "9"
    };
    assert(r@ =~= seq![digit(d as int)]);
    r
}

/// Appends `n` in decimal digits to `out`.
pub fn push_decimal(out: &mut String, n: u64)
    ensures
        final(out)@ == old(out)@ + decimal(n as int),
    decreases n,
{
    if n >= 10 {
        push_decimal(out, n / 10);
    }
    out.append(digit_text(n % 10));
    assert(out@ =~= old(out)@ + decimal(n as int));
}

/// A text with a number in it: `head`, then `n` in decimal digits, then
/// `tail`.
pub open spec fn numbered(head: Seq<char>, n: int, tail: Seq<char>) -> Seq<char> {
    head + decimal(n) + tail
}

/// The text `head`, then `n` in decimal digits, then `tail`.
fn with_number(head: &str, n: u64, tail: &str) -> (text: String)
    ensures
        text@ == numbered(head@, n as int, tail@),
{
    let mut out = String::from_str(head);
    push_decimal(&mut out, n);
    out.append(tail);
    out
}

/// The message of a finding.
pub open spec fn finding_text(f: FindingModel) -> Seq<char> {
    match f {
        FindingModel::BadMagic => "Superblock: magic inválido"@,
        FindingModel::InodeCountMismatch { declared, actual } => numbered(
            "Superblock: num_inodes = "@,
            declared,
            ", pero hay "@,
        ) + decimal(actual) + " inodos reales"@,
        FindingModel::BlockCountMismatch { declared, bitmap_len } => numbered(
            "Superblock: num_blocks = "@,
            declared,
            ", pero bitmap tiene "@,
        ) + decimal(bitmap_len) + " entradas"@,
        FindingModel::RootOutOfRange { root } => numbered(
            "Superblock: root_inode ("@,
            root,
            ") fuera de rango"@,
        ),
        FindingModel::ZeroBlocks => "Superblock: num_blocks no puede ser 0"@,
        FindingModel::ZeroInodes => "Superblock: num_inodes no puede ser 0"@,
        FindingModel::InvalidSize { inode } => numbered(
            "Inodo "@,
            inode,
            " tiene tamaño inválido"@,
        ),
        FindingModel::DirectOutOfRange { inode, block } => numbered(
            "Inodo "@,
            inode,
            ": bloque directo fuera de rango ("@,
        ) + decimal(block) + ")"@,
        FindingModel::Indirect1OutOfRange { inode, block } => numbered(
            "Inodo "@,
            inode,
            ": indirect1 fuera de rango ("@,
        ) + decimal(block) + ")"@,
        FindingModel::Indirect2OutOfRange { inode, block } => numbered(
            "Inodo "@,
            inode,
            ": indirect2 fuera de rango ("@,
        ) + decimal(block) + ")"@,
        FindingModel::DuplicateInInode { inode, block } => numbered(
            "Inodo "@,
            inode,
            ": bloque duplicado ("@,
        ) + decimal(block) + ")"@,
        FindingModel::DuplicateDirect { inode, block } => numbered(
            "Inodo "@,
            inode,
            ": bloque duplicado globalmente ("@,
        ) + decimal(block) + ")"@,
        FindingModel::DuplicateIndirect1 { inode, block } => numbered(
            "Inodo "@,
            inode,
            ": indirect1 duplicado globalmente ("@,
        ) + decimal(block) + ")"@,
        FindingModel::DuplicateIndirect2 { inode, block } => numbered(
            "Inodo "@,
            inode,
            ": indirect2 duplicado globalmente ("@,
        ) + decimal(block) + ")"@,
        FindingModel::RootMissing => "Root inode fuera de rango"@,
        FindingModel::RootNotDirectory => "Root inode no es un directorio"@,
        FindingModel::EmptyName { dir } => numbered(
            "Inodo "@,
            dir,
            ": dirent con nombre vacío"@,
        ),
        FindingModel::DanglingEntry { dir, name, target } => numbered(
            "Inodo "@,
            dir,
            ": dirent '"@,
        )
            + name
            + "' apunta a inodo inexistente ("@
            + decimal(target)
            + ")"@,
        FindingModel::WrongEntryType { dir, name } => "Dirent '"@
            + name
            + "' en inodo "@
            + decimal(dir)
            + " declara tipo incorrecto"@,
        FindingModel::BitmapSizeMismatch { actual, expected } => numbered(
            "Bitmap tiene tamaño incorrecto: "@,
            actual,
            " en vez de "@,
        )
            + decimal(expected),
        FindingModel::UsedButUnclaimed { block } => numbered(
            "Bitmap marca usado el bloque "@,
            block,
            ", pero ningún inodo lo usa"@,
        ),
        FindingModel::FreeButClaimed { block } => numbered(
            "Bitmap marca libre el bloque "@,
            block,
            ", pero algún inodo lo usa"@,
        ),
        FindingModel::Orphan { inode } => numbered(
            "Inodo "@,
            inode,
            " huérfano"@,
        ),
    }
}

/// The messages of a list of findings, in their order.
pub open spec fn finding_texts(findings: Seq<FindingModel>) -> Seq<Seq<char>> {
    findings.map_values(|f: FindingModel| finding_text(f))
}

/// The views of a list of texts.
pub open spec fn text_views(texts: Seq<String>) -> Seq<Seq<char>> {
    texts.map_values(|t: String| t@)
}

impl Finding {
    /// This finding in words.
    pub fn message(&self) -> (text: String)
        ensures
            text@ == finding_text(self@),
    {
        match self {
            Finding::BadMagic => String::from_str("Superblock: magic inválido"),
            Finding::InodeCountMismatch { declared, actual } => {
                let mut out = with_number(
                    "Superblock: num_inodes = ",
                    *declared as u64,
                    ", pero hay ",
                );
                push_decimal(&mut out, *actual as u64);
                out.append(" inodos reales");
                out
            },
            Finding::BlockCountMismatch { declared, bitmap_len } => {
                let mut out = with_number(
                    "Superblock: num_blocks = ",
                    *declared as u64,
                    ", pero bitmap tiene ",
                );
                push_decimal(&mut out, *bitmap_len as u64);
                out.append(" entradas");
                out
            },
            Finding::RootOutOfRange { root } => with_number(
                "Superblock: root_inode (",
                *root as u64,
                ") fuera de rango",
            ),
            Finding::ZeroBlocks => String::from_str("Superblock: num_blocks no puede ser 0"),
            Finding::ZeroInodes => String::from_str("Superblock: num_inodes no puede ser 0"),
            Finding::InvalidSize { inode } => with_number(
                "Inodo ",
                *inode as u64,
                " tiene tamaño inválido",
            ),
            Finding::DirectOutOfRange { inode, block } => {
                let mut out = with_number(
                    "Inodo ",
                    *inode as u64,
                    ": bloque directo fuera de rango (",
                );
                push_decimal(&mut out, *block as u64);
                out.append(")");
                out
            },
            Finding::Indirect1OutOfRange { inode, block } => {
                let mut out = with_number(
                    "Inodo ",
                    *inode as u64,
                    ": indirect1 fuera de rango (",
                );
                push_decimal(&mut out, *block as u64);
                out.append(")");
                out
            },
            Finding::Indirect2OutOfRange { inode, block } => {
                let mut out = with_number(
                    "Inodo ",
                    *inode as u64,
                    ": indirect2 fuera de rango (",
                );
                push_decimal(&mut out, *block as u64);
                out.append(")");
                out
            },
            Finding::DuplicateInInode { inode, block } => {
                let mut out = with_number(
                    "Inodo ",
                    *inode as u64,
                    ": bloque duplicado (",
                );
                push_decimal(&mut out, *block as u64);
                out.append(")");
                out
            },
            Finding::DuplicateDirect { inode, block } => {
                let mut out = with_number(
                    "Inodo ",
                    *inode as u64,
                    ": bloque duplicado globalmente (",
                );
                push_decimal(&mut out, *block as u64);
                out.append(")");
                out
            },
            Finding::DuplicateIndirect1 { inode, block } => {
                let mut out = with_number(
                    "Inodo ",
                    *inode as u64,
                    ": indirect1 duplicado globalmente (",
                );
                push_decimal(&mut out, *block as u64);
                out.append(")");
                out
            },
            Finding::DuplicateIndirect2 { inode, block } => {
                let mut out = with_number(
                    "Inodo ",
                    *inode as u64,
                    ": indirect2 duplicado globalmente (",
                );
                push_decimal(&mut out, *block as u64);
                out.append(")");
                out
            },
            Finding::RootMissing => String::from_str("Root inode fuera de rango"),
            Finding::RootNotDirectory => String::from_str("Root inode no es un directorio"),
            Finding::EmptyName { dir } => with_number(
                "Inodo ",
                *dir as u64,
                ": dirent con nombre vacío",
            ),
            Finding::DanglingEntry { dir, name, target } => {
                let mut out = with_number(
                    "Inodo ",
                    *dir as u64,
                    ": dirent '",
                );
                out.append(name.as_str());
                out.append("' apunta a inodo inexistente (");
                push_decimal(&mut out, *target as u64);
                out.append(")");
                out
            },
            Finding::WrongEntryType { dir, name } => {
                let mut out = String::from_str("Dirent '");
                out.append(name.as_str());
                out.append("' en inodo ");
                push_decimal(&mut out, *dir as u64);
                out.append(" declara tipo incorrecto");
                out
            },
            Finding::BitmapSizeMismatch { actual, expected } => {
                let mut out = with_number(
                    "Bitmap tiene tamaño incorrecto: ",
                    *actual as u64,
                    " en vez de ",
                );
                push_decimal(&mut out, *expected as u64);
                out
            },
            Finding::UsedButUnclaimed { block } => with_number(
                "Bitmap marca usado el bloque ",
                *block as u64,
                ", pero ningún inodo lo usa",
            ),
            Finding::FreeButClaimed { block } => with_number(
                "Bitmap marca libre el bloque ",
                *block as u64,
                ", pero algún inodo lo usa",
            ),
            Finding::Orphan { inode } => with_number(
                "Inodo ",
                *inode as u64,
                " huérfano",
            ),
        }
    }
}

impl FsckReport {
    /// The findings of this report in words, in the order in which they
    /// were made.
    pub fn messages(&self) -> (texts: Vec<String>)
        ensures
            text_views(texts@) == finding_texts(self@.errors),
    {
        let mut texts: Vec<String> = Vec::new();
        let mut i: usize = 0;
        while i < self.errors.len()
            invariant
                i <= self.errors@.len(),
                texts@.len() == i,
                forall|j: int|
                    0 <= j < i ==> (#[trigger] texts@[j])@ == finding_text(self.errors@[j]@),
            decreases self.errors@.len() - i,
        {
            texts.push(self.errors[i].message());
            i += 1;
        }
        assert(text_views(texts@) =~= finding_texts(self@.errors));
        texts
    }
}

} // verus!
