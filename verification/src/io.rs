//! Program-image handling: load addresses, file-name dispatch, and
//! selection among disk-image directory entries.
//!
//! Reading files, fetching URLs and parsing disk-image containers are a
//! caller's business; everything here works on the raw bytes and names
//! the caller resolved.

use vstd::prelude::*;

use crate::{spec_le16, spec_load_address, LoadAddress, M65Error};

verus! {

/// The position of the last occurrence of a character, if any.
pub open spec fn spec_rfind(s: Seq<char>, c: char) -> Option<int>
    decreases s.len(),
{
    if s.len() == 0 {
        None
    } else if s.last() == c {
        Some(s.len() - 1)
    } else {
        spec_rfind(s.drop_last(), c)
    }
}

/// What kind of program source a file name announces.
#[derive(Clone, Copy, Debug, PartialEq, Eq, Structural)]
pub enum FileKind {
    /// A raw program image: no extension, or a `prg` extension.
    Direct,
    /// A disk-image container (`d64` or `d81`) holding program entries.
    DiskImage,
    /// Anything else; rejected before any device interaction.
    Unsupported,
}

/// Whether an extension reads `prg`, ignoring case.
pub open spec fn is_prg_ext(e: Seq<char>) -> bool {
    e.len() == 3 && (e[0] == 'p' || e[0] == 'P') && (e[1] == 'r' || e[1] == 'R') && (e[2] == 'g'
        || e[2] == 'G')
}

/// Whether an extension reads `d64` or `d81`, ignoring case.
pub open spec fn is_disk_ext(e: Seq<char>) -> bool {
    e.len() == 3 && (e[0] == 'd' || e[0] == 'D') && ((e[1] == '6' && e[2] == '4') || (e[1] == '8'
        && e[2] == '1'))
}

/// The extension of a file name: what follows the last dot of its last
/// path component.  A dot that begins that component marks a hidden
/// file, not an extension.
pub open spec fn spec_extension(s: Seq<char>) -> Option<Seq<char>> {
    match spec_rfind(s, '.') {
        Option::None => None,
        Option::Some(i) => {
            let in_directory = match spec_rfind(s, '/') {
                Option::Some(j) => j > i,
                Option::None => false,
            };
            if in_directory || i == 0 || s[i - 1] == '/' {
                None
            } else {
                Some(s.skip(i + 1))
            }
        },
    }
}

/// How a file name is dispatched: raw program images directly, disk
/// images through the directory collaborator, anything else not at all.
pub open spec fn spec_classify(s: Seq<char>) -> FileKind {
    match spec_extension(s) {
        Option::None => FileKind::Direct,
        Option::Some(e) => if is_prg_ext(e) {
            FileKind::Direct
        } else if is_disk_ext(e) {
            FileKind::DiskImage
        } else {
            FileKind::Unsupported
        },
    }
}

/// The position of the last occurrence of a character, if any.
fn rfind_char(v: &Vec<char>, c: char) -> (r: Option<usize>)
    ensures
        r matches Some(i) ==> i < v@.len() && spec_rfind(v@, c) == Some(i as int),
        r is None ==> spec_rfind(v@, c) is None,
{
    let mut i: usize = v.len();
    proof {
        assert(v@.take(v@.len() as int) =~= v@);
    }
    while i > 0
        invariant
            i <= v@.len(),
            spec_rfind(v@, c) == spec_rfind(v@.take(i as int), c),
        decreases i,
    {
        i -= 1;
        proof {
            assert(v@.take(i + 1).drop_last() =~= v@.take(i as int));
            assert(v@.take(i + 1).last() == v@[i as int]);
        }
        if v[i] == c {
            proof {
                assert(spec_rfind(v@.take(i + 1), c) == Some(i as int));
            }
            return Some(i);
        }
        proof {
            assert(spec_rfind(v@.take(i + 1), c) == spec_rfind(v@.take(i as int), c));
        }
    }
    proof {
        assert(v@.take(0) =~= Seq::<char>::empty());
    }
    None
}

/// Classify a file name by its extension.
pub fn classify_file_name(name: &str) -> (r: FileKind)
    ensures
        r == spec_classify(name@),
{
    let chars = crate::serial::str_chars_vec(name);
    let dot = rfind_char(&chars, '.');
    let slash = rfind_char(&chars, '/');
    match dot {
        None => FileKind::Direct,
        Some(i) => {
            let in_dir = match slash {
                Some(j) => j > i,
                None => false,
            };
            if in_dir || i == 0 {
                return FileKind::Direct;
            }
            if chars[i - 1] == '/' {
                return FileKind::Direct;
            }
            let ghost e = name@.skip(i + 1);
            let n = chars.len();
            if n - i == 4 {
                let a = chars[i + 1];
                let b = chars[i + 2];
                let c = chars[i + 3];
                proof {
                    assert(e.len() == 3);
                    assert(e[0] == name@[i + 1] && e[1] == name@[i + 2] && e[2] == name@[i + 3]);
                }
                if (a == 'p' || a == 'P') && (b == 'r' || b == 'R') && (c == 'g' || c == 'G') {
                    FileKind::Direct
                } else if (a == 'd' || a == 'D') && ((b == '6' && c == '4') || (b == '8' && c
                    == '1')) {
                    FileKind::DiskImage
                } else {
                    FileKind::Unsupported
                }
            } else {
                proof {
                    assert(e.len() != 3);
                }
                FileKind::Unsupported
            }
        },
    }
}

/// Split the load address off a program image.
///
/// The first two bytes form the 16-bit load address, little endian;
/// they are removed from the vector and returned classified.
pub fn purge_load_address(bytes: &mut Vec<u8>) -> (r: LoadAddress)
    requires
        old(bytes)@.len() >= 2,
    ensures
        r == spec_load_address(spec_le16(old(bytes)@)),
        final(bytes)@ == old(bytes)@.skip(2),
{
    let low = bytes[0];
    let high = bytes[1];
    let address: u16 = low as u16 + high as u16 * 0x100;
    let rest = bytes.split_off(2);
    *bytes = rest;
    LoadAddress::new(address)
}

/// Split a raw program image into its load address and its payload.
///
/// An image shorter than a load address is rejected.
pub fn load_with_load_address(bytes: Vec<u8>) -> (r: Result<(LoadAddress, Vec<u8>), M65Error>)
    ensures
        bytes@.len() >= 2 ==> (r matches Ok(p) && p.0 == spec_load_address(spec_le16(bytes@))
            && p.1@ == bytes@.skip(2)),
        bytes@.len() < 2 ==> r == Err::<(LoadAddress, Vec<u8>), M65Error>(M65Error::InvalidFormat),
{
    if bytes.len() < 2 {
        return Err(M65Error::InvalidFormat);
    }
    let mut rest = bytes;
    let address = purge_load_address(&mut rest);
    Ok((address, rest))
}

/// What loading a program file yields.
#[derive(Debug, PartialEq, Eq)]
pub enum LoadedPrg {
    /// A program image, split into load address and payload.
    Program(LoadAddress, Vec<u8>),
    /// The file is a disk-image container; its entries come from the
    /// external directory collaborator, one of which is then handled
    /// through `load_with_load_address`.
    DiskImage,
}

/// Dispatch a program file on its name.
///
/// `bytes` is the file's raw content as the caller resolved it.  A
/// direct program file is split into load address and payload; a disk
/// image is announced as such; any other extension is rejected before
/// any device interaction.
pub fn load_prg(file: &str, bytes: Vec<u8>) -> (r: Result<LoadedPrg, M65Error>)
    ensures
        spec_classify(file@) == FileKind::Direct && bytes@.len() >= 2 ==> (r matches Ok(p)
            && p matches LoadedPrg::Program(la, payload) && la == spec_load_address(
            spec_le16(bytes@),
        ) && payload@ == bytes@.skip(2)),
        spec_classify(file@) == FileKind::Direct && bytes@.len() < 2 ==> r == Err::<
            LoadedPrg,
            M65Error,
        >(M65Error::InvalidFormat),
        spec_classify(file@) == FileKind::DiskImage ==> (r matches Ok(p) && p is DiskImage),
        spec_classify(file@) == FileKind::Unsupported ==> r == Err::<LoadedPrg, M65Error>(
            M65Error::InvalidFormat,
        ),
{
    match classify_file_name(file) {
        FileKind::Direct => {
            match load_with_load_address(bytes) {
                Ok(p) => Ok(LoadedPrg::Program(p.0, p.1)),
                Err(e) => Err(e),
            }
        },
        FileKind::DiskImage => Ok(LoadedPrg::DiskImage),
        FileKind::Unsupported => Err(M65Error::InvalidFormat),
    }
}

/// One entry of a disk image's directory, as the external container
/// collaborator lists it.
pub struct DirEntry {
    /// The entry's file name.
    pub name: String,
    /// Whether the entry is a program file.
    pub is_prg: bool,
}

/// How many program entries a directory prefix holds.
pub open spec fn count_prg(s: Seq<DirEntry>) -> nat
    decreases s.len(),
{
    if s.len() == 0 {
        0
    } else {
        count_prg(s.drop_last()) + (if s.last().is_prg {
            1nat
        } else {
            0nat
        })
    }
}

/// Counting one entry more adds one exactly for a program entry.
proof fn lemma_count_prg_snoc(s: Seq<DirEntry>, i: int)
    requires
        0 <= i < s.len(),
    ensures
        count_prg(s.take(i + 1)) == count_prg(s.take(i)) + (if s[i].is_prg {
            1nat
        } else {
            0nat
        }),
{
    assert(s.take(i + 1).drop_last() =~= s.take(i));
    assert(s.take(i + 1).last() == s[i]);
}

/// The directory indices of the program entries, in directory order.
///
/// Entry `k` of the result is the `k`-th program entry of the listing,
/// the same numbering a selection is resolved against.
pub fn prg_entry_indices(entries: &Vec<DirEntry>) -> (r: Vec<usize>)
    ensures
        r@.len() == count_prg(entries@),
        forall|k: int|
            0 <= k < r@.len() ==> ({
                &&& (#[trigger] r@[k]) < entries@.len()
                &&& entries@[r@[k] as int].is_prg
                &&& count_prg(entries@.take(r@[k] as int)) == k
            }),
{
    let mut out: Vec<usize> = Vec::new();
    let mut i: usize = 0;
    proof {
        assert(entries@.take(0) =~= Seq::<DirEntry>::empty());
    }
    while i < entries.len()
        invariant
            i <= entries@.len(),
            out@.len() == count_prg(entries@.take(i as int)),
            forall|k: int|
                0 <= k < out@.len() ==> ({
                    &&& (#[trigger] out@[k]) < i
                    &&& entries@[out@[k] as int].is_prg
                    &&& count_prg(entries@.take(out@[k] as int)) == k
                }),
        decreases entries@.len() - i,
    {
        proof {
            lemma_count_prg_snoc(entries@, i as int);
        }
        if entries[i].is_prg {
            out.push(i);
        }
        i += 1;
    }
    proof {
        assert(entries@.take(entries@.len() as int) =~= entries@);
    }
    out
}

/// Find the directory index of the `selection`-th program entry.
///
/// Mirrors how a numbered program listing resolves a user's pick: the
/// entries that are programs are counted in directory order, and the
/// pick is the position in that count.  A pick past the end of the
/// listing is an invalid selection.
pub fn select_prg_entry(entries: &Vec<DirEntry>, selection: usize) -> (r: Result<usize, M65Error>)
    ensures
        r matches Ok(i) ==> i < entries@.len() && entries@[i as int].is_prg && count_prg(
            entries@.take(i as int),
        ) == selection,
        r is Err ==> r->Err_0 == M65Error::InvalidSelection && count_prg(entries@) <= selection,
{
    let mut i: usize = 0;
    let mut seen: usize = 0;
    proof {
        assert(entries@.take(0) =~= Seq::<DirEntry>::empty());
    }
    while i < entries.len()
        invariant
            i <= entries@.len(),
            seen <= selection,
            count_prg(entries@.take(i as int)) == seen,
        decreases entries@.len() - i,
    {
        proof {
            lemma_count_prg_snoc(entries@, i as int);
        }
        if entries[i].is_prg {
            if seen == selection {
                return Ok(i);
            }
            seen += 1;
        }
        i += 1;
    }
    proof {
        assert(entries@.take(entries@.len() as int) =~= entries@);
    }
    Err(M65Error::InvalidSelection)
}

} // verus!
