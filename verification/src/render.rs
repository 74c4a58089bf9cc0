//! The fill rule of the treemap renderer: which colour a cell gets from
//! its node's kind, its extension and the active size metric.
//!
//! Laying cells out and turning a hue into RGB work in floating point and
//! stay with the renderer; an extension without a palette entry is handed
//! back as its FNV-1a hash, from which the renderer derives the hue.

use vstd::prelude::*;

use crate::ext_summary::Metric;
use crate::namespace::EntryKind;
use crate::tree::TreeNode;

verus! {

/// Fill of a cell whose allocated size is unknown under the allocated
/// metric.
pub const FILL_UNCLAIMED: u32 = 0x3b3f4a;
pub const FILL_DIR: u32 = 0x1e2330;
pub const FILL_SYMLINK: u32 = 0x7d8a99;
pub const FILL_OTHER: u32 = 0x5b6779;
/// Fill of a file without an extension.
pub const FILL_NO_EXTENSION: u32 = 0x9aa3b2;

/// Longest extension the palette is consulted for.
pub const PALETTE_MAX_LEN: usize = 8;

/// A cell's fill: an RGB colour `0x00RRGGBB`, or the FNV-1a hash of an
/// extension the palette does not know, which the renderer turns into a
/// hue.
#[derive(Debug, Clone, Copy, PartialEq, Eq, Structural)]
pub enum Fill {
    Rgb(u32),
    HashedExtension(u32),
}

/// FNV-1a over `bytes` (32-bit, wrapping).
pub open spec fn fnv1a(bytes: Seq<u8>) -> u32
    decreases bytes.len(),
{
    if bytes.len() == 0 {
        2166136261u32
    } else {
        let h = fnv1a(bytes.drop_last()) ^ (bytes.last() as u32);
        ((h as int * 16777619) % 0x1_0000_0000) as u32
    }
}

/// FNV-1a hash of `bytes`.
pub fn fnv1a_hash(bytes: &[u8]) -> (r: u32)
    ensures
        r == fnv1a(bytes@),
{
    let mut h: u32 = 2166136261;
    let mut i: usize = 0;
    while i < bytes.len()
        invariant
            i <= bytes@.len(),
            h == fnv1a(bytes@.subrange(0, i as int)),
        decreases bytes@.len() - i,
    {
        proof {
            let next = bytes@.subrange(0, i + 1);
            assert(next.drop_last() =~= bytes@.subrange(0, i as int));
        }
        let x = h ^ (bytes[i] as u32);
        h = x.wrapping_mul(16777619);
        i = i + 1;
    }
    assert(bytes@.subrange(0, bytes@.len() as int) =~= bytes@);
    h
}

/// `b` in ASCII lowercase.
pub open spec fn lower_byte(b: u8) -> u8 {
    if 0x41 <= b <= 0x5a {
        (b + 32) as u8
    } else {
        b
    }
}

/// `bytes` in ASCII lowercase.
pub open spec fn lowered(bytes: Seq<u8>) -> Seq<u8> {
    bytes.map_values(|b: u8| lower_byte(b))
}

/// The palette colour of an extension already in lowercase.
pub open spec fn palette_of(key: Seq<u8>) -> Option<u32> {
    if key == seq![0x74u8, 0x78u8, 0x74u8] /* txt */
        || key == seq![0x6du8, 0x64u8] /* md */ {
        Some(0xa0c4ffu32)
    } else if key == seq![0x72u8, 0x73u8] /* rs */ {
        Some(0xffc09fu32)
    } else if key == seq![0x70u8, 0x79u8] /* py */ {
        Some(0xffd6a5u32)
    } else if key == seq![0x6au8, 0x73u8] /* js */
        || key == seq![0x74u8, 0x73u8] /* ts */
        || key == seq![0x74u8, 0x73u8, 0x78u8] /* tsx */
        || key == seq![0x6au8, 0x73u8, 0x78u8] /* jsx */ {
        Some(0xffe066u32)
    } else if key == seq![0x6au8, 0x73u8, 0x6fu8, 0x6eu8] /* json */ {
        Some(0xf4d35eu32)
    } else if key == seq![0x68u8, 0x74u8, 0x6du8, 0x6cu8] /* html */ {
        Some(0xff8fabu32)
    } else if key == seq![0x63u8, 0x73u8, 0x73u8] /* css */ {
        Some(0xcaffbfu32)
    } else if key == seq![0x63u8] /* c */
        || key == seq![0x63u8, 0x70u8, 0x70u8] /* cpp */
        || key == seq![0x68u8] /* h */
        || key == seq![0x68u8, 0x70u8, 0x70u8] /* hpp */ {
        Some(0xbdb2ffu32)
    } else if key == seq![0x73u8, 0x77u8, 0x69u8, 0x66u8, 0x74u8] /* swift */ {
        Some(0xfdb5a5u32)
    } else if key == seq![0x67u8, 0x6fu8] /* go */ {
        Some(0x9bf6ffu32)
    } else if key == seq![0x72u8, 0x62u8] /* rb */ {
        Some(0xffb3c1u32)
    } else if key == seq![0x70u8, 0x6eu8, 0x67u8] /* png */
        || key == seq![0x6au8, 0x70u8, 0x67u8] /* jpg */
        || key == seq![0x6au8, 0x70u8, 0x65u8, 0x67u8] /* jpeg */
        || key == seq![0x67u8, 0x69u8, 0x66u8] /* gif */
        || key == seq![0x77u8, 0x65u8, 0x62u8, 0x70u8] /* webp */
        || key == seq![0x68u8, 0x65u8, 0x69u8, 0x63u8] /* heic */
        || key == seq![0x73u8, 0x76u8, 0x67u8] /* svg */
        || key == seq![0x69u8, 0x63u8, 0x6eu8, 0x73u8] /* icns */ {
        Some(0x8ecae6u32)
    } else if key == seq![0x6du8, 0x70u8, 0x34u8] /* mp4 */
        || key == seq![0x6du8, 0x6fu8, 0x76u8] /* mov */
        || key == seq![0x6du8, 0x70u8, 0x33u8] /* mp3 */
        || key == seq![0x77u8, 0x61u8, 0x76u8] /* wav */
        || key == seq![0x6du8, 0x34u8, 0x61u8] /* m4a */
        || key == seq![0x66u8, 0x6cu8, 0x61u8, 0x63u8] /* flac */ {
        Some(0xb388ebu32)
    } else if key == seq![0x70u8, 0x64u8, 0x66u8] /* pdf */
        || key == seq![0x64u8, 0x6fu8, 0x63u8] /* doc */
        || key == seq![0x64u8, 0x6fu8, 0x63u8, 0x78u8] /* docx */
        || key == seq![0x70u8, 0x61u8, 0x67u8, 0x65u8, 0x73u8] /* pages */ {
        Some(0xef476fu32)
    } else if key == seq![0x7au8, 0x69u8, 0x70u8] /* zip */
        || key == seq![0x74u8, 0x61u8, 0x72u8] /* tar */
        || key == seq![0x67u8, 0x7au8] /* gz */
        || key == seq![0x62u8, 0x7au8, 0x32u8] /* bz2 */
        || key == seq![0x64u8, 0x6du8, 0x67u8] /* dmg */
        || key == seq![0x69u8, 0x73u8, 0x6fu8] /* iso */ {
        Some(0xadb5bdu32)
    } else if key == seq![0x61u8, 0x70u8, 0x70u8] /* app */
        || key == seq![0x66u8, 0x72u8, 0x61u8, 0x6du8, 0x65u8, 0x77u8, 0x6fu8, 0x72u8, 0x6bu8] /* framework */
        || key == seq![0x64u8, 0x79u8, 0x6cu8, 0x69u8, 0x62u8] /* dylib */
        || key == seq![0x73u8, 0x6fu8] /* so */ {
        Some(0xffafccu32)
    } else {
        None
    }
}

/// The palette colour of an extension, compared without regard to ASCII
/// case; extensions longer than [`PALETTE_MAX_LEN`] have none.
pub open spec fn palette_lookup_of(ext: Seq<u8>) -> Option<u32> {
    if ext.len() > PALETTE_MAX_LEN {
        None
    } else {
        palette_of(lowered(ext))
    }
}

/// Whether `k` holds the same bytes as `w`.
fn word_is(k: &[u8], w: &[u8]) -> (r: bool)
    ensures
        r == (k@ == w@),
{
    if k.len() != w.len() {
        return false;
    }
    let mut i: usize = 0;
    while i < k.len()
        invariant
            k@.len() == w@.len(),
            i <= k@.len(),
            forall|j: int| 0 <= j < i ==> k@[j] == w@[j],
        decreases k@.len() - i,
    {
        if k[i] != w[i] {
            return false;
        }
        i = i + 1;
    }
    assert(k@ =~= w@);
    true
}

/// Whether `k` is the single byte `b`.
fn byte_is(k: &[u8], b: u8) -> (r: bool)
    ensures
        r == (k@ == seq![b]),
{
    if k.len() == 1 && k[0] == b {
        assert(k@ =~= seq![b]);
        true
    } else {
        false
    }
}

/// The palette colour of an extension already in lowercase.
fn palette_lowered(k: &[u8]) -> (r: Option<u32>)
    ensures
        r == palette_of(k@),
{
    if word_is(k, [0x74u8, 0x78u8, 0x74u8].as_slice()) /* txt */
        || word_is(k, [0x6du8, 0x64u8].as_slice()) /* md */ {
        return Some(0xa0c4ff);
    }
    if word_is(k, [0x72u8, 0x73u8].as_slice()) /* rs */ {
        return Some(0xffc09f);
    }
    if word_is(k, [0x70u8, 0x79u8].as_slice()) /* py */ {
        return Some(0xffd6a5);
    }
    if word_is(k, [0x6au8, 0x73u8].as_slice()) /* js */
        || word_is(k, [0x74u8, 0x73u8].as_slice()) /* ts */
        || word_is(k, [0x74u8, 0x73u8, 0x78u8].as_slice()) /* tsx */
        || word_is(k, [0x6au8, 0x73u8, 0x78u8].as_slice()) /* jsx */ {
        return Some(0xffe066);
    }
    if word_is(k, [0x6au8, 0x73u8, 0x6fu8, 0x6eu8].as_slice()) /* json */ {
        return Some(0xf4d35e);
    }
    if word_is(k, [0x68u8, 0x74u8, 0x6du8, 0x6cu8].as_slice()) /* html */ {
        return Some(0xff8fab);
    }
    if word_is(k, [0x63u8, 0x73u8, 0x73u8].as_slice()) /* css */ {
        return Some(0xcaffbf);
    }
    if byte_is(k, 0x63u8) /* c */
        || word_is(k, [0x63u8, 0x70u8, 0x70u8].as_slice()) /* cpp */
        || byte_is(k, 0x68u8) /* h */
        || word_is(k, [0x68u8, 0x70u8, 0x70u8].as_slice()) /* hpp */ {
        return Some(0xbdb2ff);
    }
    if word_is(k, [0x73u8, 0x77u8, 0x69u8, 0x66u8, 0x74u8].as_slice()) /* swift */ {
        return Some(0xfdb5a5);
    }
    if word_is(k, [0x67u8, 0x6fu8].as_slice()) /* go */ {
        return Some(0x9bf6ff);
    }
    if word_is(k, [0x72u8, 0x62u8].as_slice()) /* rb */ {
        return Some(0xffb3c1);
    }
    if word_is(k, [0x70u8, 0x6eu8, 0x67u8].as_slice()) /* png */
        || word_is(k, [0x6au8, 0x70u8, 0x67u8].as_slice()) /* jpg */
        || word_is(k, [0x6au8, 0x70u8, 0x65u8, 0x67u8].as_slice()) /* jpeg */
        || word_is(k, [0x67u8, 0x69u8, 0x66u8].as_slice()) /* gif */
        || word_is(k, [0x77u8, 0x65u8, 0x62u8, 0x70u8].as_slice()) /* webp */
        || word_is(k, [0x68u8, 0x65u8, 0x69u8, 0x63u8].as_slice()) /* heic */
        || word_is(k, [0x73u8, 0x76u8, 0x67u8].as_slice()) /* svg */
        || word_is(k, [0x69u8, 0x63u8, 0x6eu8, 0x73u8].as_slice()) /* icns */ {
        return Some(0x8ecae6);
    }
    if word_is(k, [0x6du8, 0x70u8, 0x34u8].as_slice()) /* mp4 */
        || word_is(k, [0x6du8, 0x6fu8, 0x76u8].as_slice()) /* mov */
        || word_is(k, [0x6du8, 0x70u8, 0x33u8].as_slice()) /* mp3 */
        || word_is(k, [0x77u8, 0x61u8, 0x76u8].as_slice()) /* wav */
        || word_is(k, [0x6du8, 0x34u8, 0x61u8].as_slice()) /* m4a */
        || word_is(k, [0x66u8, 0x6cu8, 0x61u8, 0x63u8].as_slice()) /* flac */ {
        return Some(0xb388eb);
    }
    if word_is(k, [0x70u8, 0x64u8, 0x66u8].as_slice()) /* pdf */
        || word_is(k, [0x64u8, 0x6fu8, 0x63u8].as_slice()) /* doc */
        || word_is(k, [0x64u8, 0x6fu8, 0x63u8, 0x78u8].as_slice()) /* docx */
        || word_is(k, [0x70u8, 0x61u8, 0x67u8, 0x65u8, 0x73u8].as_slice()) /* pages */ {
        return Some(0xef476f);
    }
    if word_is(k, [0x7au8, 0x69u8, 0x70u8].as_slice()) /* zip */
        || word_is(k, [0x74u8, 0x61u8, 0x72u8].as_slice()) /* tar */
        || word_is(k, [0x67u8, 0x7au8].as_slice()) /* gz */
        || word_is(k, [0x62u8, 0x7au8, 0x32u8].as_slice()) /* bz2 */
        || word_is(k, [0x64u8, 0x6du8, 0x67u8].as_slice()) /* dmg */
        || word_is(k, [0x69u8, 0x73u8, 0x6fu8].as_slice()) /* iso */ {
        return Some(0xadb5bd);
    }
    if word_is(k, [0x61u8, 0x70u8, 0x70u8].as_slice()) /* app */
        || word_is(k, [0x66u8, 0x72u8, 0x61u8, 0x6du8, 0x65u8, 0x77u8, 0x6fu8, 0x72u8, 0x6bu8].as_slice()) /* framework */
        || word_is(k, [0x64u8, 0x79u8, 0x6cu8, 0x69u8, 0x62u8].as_slice()) /* dylib */
        || word_is(k, [0x73u8, 0x6fu8].as_slice()) /* so */ {
        return Some(0xffafcc);
    }
    None
}

/// The palette colour of an extension, ASCII case ignored.
pub fn palette_lookup(ext: &[u8]) -> (r: Option<u32>)
    ensures
        r == palette_lookup_of(ext@),
{
    if ext.len() > PALETTE_MAX_LEN {
        return None;
    }
    let mut lower: Vec<u8> = Vec::new();
    let mut i: usize = 0;
    while i < ext.len()
        invariant
            i <= ext@.len(),
            lower@ == lowered(ext@.subrange(0, i as int)),
        decreases ext@.len() - i,
    {
        let b = ext[i];
        let l: u8 = if 0x41 <= b && b <= 0x5a { b + 32 } else { b };
        proof {
            assert(lowered(ext@.subrange(0, i + 1)) =~= lowered(ext@.subrange(0, i as int)).push(l));
        }
        lower.push(l);
        i = i + 1;
    }
    assert(ext@.subrange(0, ext@.len() as int) =~= ext@);
    palette_lowered(lower.as_slice())
}

/// The index of the last `.` among the first `n` bytes of `name`.
pub open spec fn last_dot_before(name: Seq<u8>, n: int) -> Option<int>
    decreases n,
{
    if n <= 0 {
        None
    } else if name[n - 1] == 0x2e {
        Some(n - 1)
    } else {
        last_dot_before(name, n - 1)
    }
}

/// The extension of a file name: the bytes after its last `.`, provided
/// that dot is neither the first nor the last byte.
pub open spec fn extension_of(name: Seq<u8>) -> Option<Seq<u8>> {
    match last_dot_before(name, name.len() as int) {
        Some(i) => if i == 0 || i == name.len() - 1 {
            None
        } else {
            Some(name.subrange(i + 1, name.len() as int))
        },
        None => None,
    }
}

/// The fill of a file named `name`.
pub open spec fn file_fill(name: Seq<u8>) -> Fill {
    match extension_of(name) {
        None => Fill::Rgb(FILL_NO_EXTENSION),
        Some(ext) => match palette_lookup_of(ext) {
            Some(rgb) => Fill::Rgb(rgb),
            None => Fill::HashedExtension(fnv1a(ext)),
        },
    }
}

/// The fill of a node of kind `kind` named `name` whose subtree's
/// allocated size is `value_allocated`, under `metric`.
pub open spec fn fill_of(kind: EntryKind, value_allocated: Option<u64>, name: Seq<u8>, metric: Metric) -> Fill {
    if metric == Metric::Allocated && value_allocated is None {
        Fill::Rgb(FILL_UNCLAIMED)
    } else {
        match kind {
            EntryKind::Dir => Fill::Rgb(FILL_DIR),
            EntryKind::Symlink => Fill::Rgb(FILL_SYMLINK),
            EntryKind::Other => Fill::Rgb(FILL_OTHER),
            EntryKind::File => file_fill(name),
        }
    }
}

/// The position of the last `.` in `bytes`, if any.
fn last_dot(bytes: &[u8]) -> (r: Option<usize>)
    ensures
        match r {
            Some(i) => i < bytes@.len() && last_dot_before(bytes@, bytes@.len() as int) == Some(i as int),
            None => last_dot_before(bytes@, bytes@.len() as int) is None,
        },
{
    let mut n: usize = bytes.len();
    while n > 0
        invariant
            n <= bytes@.len(),
            last_dot_before(bytes@, bytes@.len() as int) == last_dot_before(bytes@, n as int),
        decreases n,
    {
        if bytes[n - 1] == 0x2e {
            return Some(n - 1);
        }
        n = n - 1;
    }
    None
}

/// The fill of a file named by `bytes`.
pub fn fill_for_file(bytes: &[u8]) -> (r: Fill)
    ensures
        r == file_fill(bytes@),
{
    let dot = last_dot(bytes);
    match dot {
        None => Fill::Rgb(FILL_NO_EXTENSION),
        Some(i) => {
            if i == 0 || i == bytes.len() - 1 {
                Fill::Rgb(FILL_NO_EXTENSION)
            } else {
                let ext = slice_from(bytes, i + 1);
                match palette_lookup(ext) {
                    Some(rgb) => Fill::Rgb(rgb),
                    None => Fill::HashedExtension(fnv1a_hash(ext)),
                }
            }
        },
    }
}

/// `bytes[start..]`.
fn slice_from(bytes: &[u8], start: usize) -> (r: &[u8])
    requires
        start <= bytes@.len(),
    ensures
        r@ == bytes@.subrange(start as int, bytes@.len() as int),
{
    let (_, tail) = bytes.split_at(start);
    tail
}

/// The fill of `node`'s cell under `metric`.
pub fn compute_fill(node: &TreeNode, metric: Metric) -> (r: Fill)
    ensures
        r == fill_of(node.kind, node.value_allocated, vstd::utf8::encode_utf8(node.name@), metric),
{
    match metric {
        Metric::Allocated => {
            if node.value_allocated.is_none() {
                return Fill::Rgb(FILL_UNCLAIMED);
            }
        },
        Metric::Logical => {},
    }
    match node.kind {
        EntryKind::Dir => Fill::Rgb(FILL_DIR),
        EntryKind::Symlink => Fill::Rgb(FILL_SYMLINK),
        EntryKind::Other => Fill::Rgb(FILL_OTHER),
        EntryKind::File => fill_for_file(node.name.as_str().as_bytes()),
    }
}

} // verus!

verus! {

/// Extension lookup ignores ASCII case: two extensions that agree once
/// lowercased get the same palette colour, and so files named with them
/// the same fill, hashed ones aside.
pub proof fn lemma_palette_ignores_case(a: Seq<u8>, b: Seq<u8>)
    requires
        lowered(a) == lowered(b),
    ensures
        palette_lookup_of(a) == palette_lookup_of(b),
{
    assert(lowered(a).len() == a.len());
    assert(lowered(b).len() == b.len());
}

} // verus!
