//! The single-entry binary audio container codec.
//!
//! The container wraps named raw audio payloads: a header with the total
//! size, an index with the entry count, then one section each for the track
//! ids, the name offsets, the data offset/size pairs, the names, alignment
//! junk, and the packed payloads. This crate always produces it with exactly
//! one entry. Every size field is a little-endian 32-bit value; the total
//! serialized size is computable from the name and payload lengths alone,
//! so the output buffer is sized exactly once before writing.

use vstd::prelude::*;
use vstd::string::StrSliceExecFns;
use crate::error::{ConvertError, ConvertErrorKind};

verus! {

/// One named raw audio payload.
#[derive(Debug)]
pub struct AudioEntry {
    pub name: String,
    pub id: u32,
    pub data: Vec<u8>,
}

/// The bytes of a 32-bit value, least significant first.
pub open spec fn le32_bytes(v: int) -> Seq<u8> {
    seq![
        (v % 256) as u8,
        ((v / 256) % 256) as u8,
        ((v / 65536) % 256) as u8,
        ((v / 16777216) % 256) as u8,
    ]
}

/// The value of the four bytes at `i`, least significant first.
pub open spec fn le32_at(b: Seq<u8>, i: int) -> int {
    b[i] + 256 * b[i + 1] + 65536 * b[i + 2] + 16777216 * b[i + 3]
}

/// The `NUS3` container tag.
pub open spec fn nus3_tag() -> Seq<u8> {
    seq![0x4eu8, 0x55u8, 0x53u8, 0x33u8]
}

/// The `AUDIINDX` index tag.
pub open spec fn audiindx_tag() -> Seq<u8> {
    seq![0x41u8, 0x55u8, 0x44u8, 0x49u8, 0x49u8, 0x4eu8, 0x44u8, 0x58u8]
}

/// The track-id section tag, `TNID`.
pub open spec fn tnid_tag() -> Seq<u8> {
    seq![0x54u8, 0x4eu8, 0x49u8, 0x44u8]
}

/// The name-offset section tag, `NMOF`.
pub open spec fn nmof_tag() -> Seq<u8> {
    seq![0x4eu8, 0x4du8, 0x4fu8, 0x46u8]
}

/// The data-offset section tag, `ADOF`.
pub open spec fn adof_tag() -> Seq<u8> {
    seq![0x41u8, 0x44u8, 0x4fu8, 0x46u8]
}

/// The name section tag, `TNNM`.
pub open spec fn tnnm_tag() -> Seq<u8> {
    seq![0x54u8, 0x4eu8, 0x4eu8, 0x4du8]
}

/// The alignment section tag, `JUNK`.
pub open spec fn junk_tag() -> Seq<u8> {
    seq![0x4au8, 0x55u8, 0x4eu8, 0x4bu8]
}

/// The payload section tag, `PACK`.
pub open spec fn pack_tag() -> Seq<u8> {
    seq![0x50u8, 0x41u8, 0x43u8, 0x4bu8]
}

/// A run of zero bytes.
pub open spec fn zero_bytes(n: int) -> Seq<u8> {
    Seq::new(n as nat, |i: int| 0u8)
}

/// The alignment padding for a single entry whose name takes `l` bytes.
pub open spec fn junk_pad(l: int) -> int {
    (24 - ((81 + l) % 16)) % 16
}

/// The total serialized size of a single-entry container: the fixed table
/// header, the name, the alignment, and the payload.
pub open spec fn container_size(l: int, p: int) -> int {
    89 + l + junk_pad(l) + p
}

/// The serialized single-entry container for a name, a track id and a
/// payload.
#[verifier::opaque]
pub open spec fn encode_spec(name: Seq<char>, id: u32, data: Seq<u8>) -> Seq<u8> {
    let nb = vstd::utf8::encode_utf8(name);
    let l = nb.len() as int;
    let pad = junk_pad(l);
    let p = data.len() as int;
    nus3_tag() + le32_bytes(81 + l + pad + p) + audiindx_tag() + le32_bytes(4) + le32_bytes(1)
        + tnid_tag() + le32_bytes(4) + le32_bytes(id as int) + nmof_tag() + le32_bytes(4)
        + le32_bytes(72) + adof_tag() + le32_bytes(8) + le32_bytes(89 + l + pad) + le32_bytes(p)
        + tnnm_tag() + le32_bytes(l + 1) + nb + seq![0u8] + junk_tag() + le32_bytes(pad)
        + zero_bytes(pad) + pack_tag() + le32_bytes(p) + data
}

/// Appends a 32-bit value, least significant byte first.
fn push_le32(out: &mut Vec<u8>, v: u32)
    ensures
        final (out)@ == old(out)@ + le32_bytes(v as int),
{
    out.push((v % 256) as u8);
    out.push(((v / 256) % 256) as u8);
    out.push(((v / 65536) % 256) as u8);
    out.push(((v / 16777216) % 256) as u8);
    proof {
        assert(final (out)@ =~= old(out)@ + le32_bytes(v as int));
    }
}

/// Appends a copy of `bytes`.
fn push_bytes(out: &mut Vec<u8>, bytes: &Vec<u8>)
    ensures
        final (out)@ == old(out)@ + bytes@,
{
    let n = bytes.len();
    let mut i: usize = 0;
    while i < n
        invariant
            i <= n,
            n == bytes@.len(),
            out@ == old(out)@ + bytes@.subrange(0, i as int),
        decreases n - i,
    {
        out.push(bytes[i]);
        proof {
            assert(out@ =~= old(out)@ + bytes@.subrange(0, i + 1 as int));
        }
        i = i + 1;
    }
    proof {
        assert(old(out)@ + bytes@.subrange(0, n as int) =~= old(out)@ + bytes@);
    }
}

/// Appends `n` zero bytes.
fn push_zeros(out: &mut Vec<u8>, n: usize)
    ensures
        final (out)@ == old(out)@ + zero_bytes(n as int),
{
    let mut i: usize = 0;
    while i < n
        invariant
            i <= n,
            out@ == old(out)@ + zero_bytes(i as int),
        decreases n - i,
    {
        out.push(0u8);
        proof {
            assert(out@ =~= old(out)@ + zero_bytes(i + 1 as int));
        }
        i = i + 1;
    }
}

impl AudioEntry {
    /// The name's length in bytes.
    pub open spec fn spec_name_len(self) -> int {
        vstd::utf8::encode_utf8(self.name@).len() as int
    }

    /// Whether the entry fits the container's 32-bit size fields.
    pub open spec fn fits(self) -> bool {
        container_size(self.spec_name_len(), self.data@.len() as int) <= u32::MAX
    }

    /// The extension the payload's own magic bytes suggest: an opus or dsp
    /// stream is recognized, anything else is generic binary.
    pub open spec fn spec_data_extension(self) -> Seq<char> {
        if self.data@.len() >= 4 && self.data@.subrange(0, 4) == seq![
            0x4fu8,
            0x50u8,
            0x55u8,
            0x53u8,
        ] {
            ".lopus"@
        } else if self.data@.len() >= 4 && self.data@.subrange(0, 4) == seq![
            0x49u8,
            0x44u8,
            0x53u8,
            0x50u8,
        ] {
            ".idsp"@
        } else {
            ".bin"@
        }
    }

    /// The file name for an extracted entry: its own name plus the
    /// extension its payload's magic bytes suggest.
    pub fn filename(&self) -> (r: String)
        ensures
            r@ == self.name@ + self.spec_data_extension(),
    {
        let ext: &'static str = if self.data.len() >= 4 {
            let opus = self.data[0] == 0x4f && self.data[1] == 0x50 && self.data[2] == 0x55
                && self.data[3] == 0x53;
            let idsp = self.data[0] == 0x49 && self.data[1] == 0x44 && self.data[2] == 0x53
                && self.data[3] == 0x50;
            proof {
                let four = self.data@.subrange(0, 4);
                assert(four[0] == self.data@[0] && four[1] == self.data@[1] && four[2]
                    == self.data@[2] && four[3] == self.data@[3]);
                if opus {
                    assert(four =~= seq![0x4fu8, 0x50u8, 0x55u8, 0x53u8]);
                }
                if idsp {
                    assert(four =~= seq![0x49u8, 0x44u8, 0x53u8, 0x50u8]);
                }
            }
            if opus {
                ".lopus"
            } else if idsp {
                ".idsp"
            } else {
                ".bin"
            }
        } else {
            ".bin"
        };
        self.name.clone().concat(ext)
    }

    /// The total serialized size of the single-entry container for this
    /// entry, computed before any allocation.
    pub fn calc_size(&self) -> (n: usize)
        requires
            self.fits(),
        ensures
            n == container_size(self.spec_name_len(), self.data@.len() as int),
    {
        let nb = self.name.as_str().as_bytes_vec();
        let l = nb.len();
        let pad = (24 - ((81 + l) % 16)) % 16;
        89 + l + pad + self.data.len()
    }
}

/// Serializes a single-entry container: the exact byte string of
/// [`encode_spec`], written into a buffer sized exactly once.
#[verifier::rlimit(60)]
pub fn encode(entry: &AudioEntry) -> (r: Vec<u8>)
    requires
        entry.fits(),
    ensures
        r@ == encode_spec(entry.name@, entry.id, entry.data@),
        r@.len() == container_size(entry.spec_name_len(), entry.data@.len() as int),
{
    let nb = entry.name.as_str().as_bytes_vec();
    let l = nb.len();
    let pad = (24 - ((81 + l) % 16)) % 16;
    let p = entry.data.len();
    let total = 89 + l + pad + p;
    let mut out: Vec<u8> = Vec::with_capacity(total);
    // NUS3 header: the size of everything after it
    push_bytes_tag(&mut out, 0x4e, 0x55, 0x53, 0x33);
    push_le32(&mut out, (total - 8) as u32);
    // AUDIINDX: the entry count
    push_bytes_tag(&mut out, 0x41, 0x55, 0x44, 0x49);
    push_bytes_tag(&mut out, 0x49, 0x4e, 0x44, 0x58);
    push_le32(&mut out, 4);
    push_le32(&mut out, 1);
    // TNID: the track id
    push_bytes_tag(&mut out, 0x54, 0x4e, 0x49, 0x44);
    push_le32(&mut out, 4);
    push_le32(&mut out, entry.id);
    // NMOF: where the name lives
    push_bytes_tag(&mut out, 0x4e, 0x4d, 0x4f, 0x46);
    push_le32(&mut out, 4);
    push_le32(&mut out, 72);
    // ADOF: where the payload lives
    push_bytes_tag(&mut out, 0x41, 0x44, 0x4f, 0x46);
    push_le32(&mut out, 8);
    push_le32(&mut out, (89 + l + pad) as u32);
    push_le32(&mut out, p as u32);
    // TNNM: the name, terminated
    push_bytes_tag(&mut out, 0x54, 0x4e, 0x4e, 0x4d);
    push_le32(&mut out, (l + 1) as u32);
    push_bytes(&mut out, &nb);
    out.push(0u8);
    // JUNK: alignment
    push_bytes_tag(&mut out, 0x4a, 0x55, 0x4e, 0x4b);
    push_le32(&mut out, pad as u32);
    push_zeros(&mut out, pad);
    // PACK: the payload
    push_bytes_tag(&mut out, 0x50, 0x41, 0x43, 0x4b);
    push_le32(&mut out, p as u32);
    push_bytes(&mut out, &entry.data);
    proof {
        reveal(encode_spec);
        assert(out@ =~= encode_spec(entry.name@, entry.id, entry.data@));
    }
    out
}

/// Appends four literal bytes.
fn push_bytes_tag(out: &mut Vec<u8>, a: u8, b: u8, c: u8, d: u8)
    ensures
        final (out)@ == old(out)@ + seq![a, b, c, d],
{
    out.push(a);
    out.push(b);
    out.push(c);
    out.push(d);
    proof {
        assert(final (out)@ =~= old(out)@ + seq![a, b, c, d]);
    }
}

/// What a scan over the section table has found: the contents of the first
/// section of each kind that matters.
pub struct SectionInfo {
    pub nmof: Option<Seq<u32>>,
    pub adof: Option<Seq<(u32, u32)>>,
    pub tnid: Option<Seq<u32>>,
}

/// A scan that has found nothing yet.
pub open spec fn empty_sections() -> SectionInfo {
    SectionInfo {
        nmof: Option::<Seq<u32>>::None,
        adof: Option::<Seq<(u32, u32)>>::None,
        tnid: Option::<Seq<u32>>::None,
    }
}

/// `cnt` 32-bit values read from `pos` on.
pub open spec fn read_u32s(b: Seq<u8>, pos: int, cnt: int) -> Seq<u32> {
    Seq::new(cnt as nat, |i: int| le32_at(b, pos + 4 * i) as u32)
}

/// `cnt` pairs of 32-bit values read from `pos` on.
pub open spec fn read_pairs(b: Seq<u8>, pos: int, cnt: int) -> Seq<(u32, u32)> {
    Seq::new(
        cnt as nat,
        |i: int| (le32_at(b, pos + 8 * i) as u32, le32_at(b, pos + 8 * i + 4) as u32),
    )
}

/// The section scan: each section is a four-byte tag and a 32-bit size; the
/// offset and id tables are captured (first of each kind), other known
/// sections are skipped by their size, and the scan stops at the region's
/// end, at an unknown tag, or at a section that overruns the region.
pub open spec fn scan_sections(b: Seq<u8>, pos: int, end: int, acc: SectionInfo) -> SectionInfo
    decreases end - pos,
{
    if pos < 0 || pos + 8 > end {
        acc
    } else {
        let tag = b.subrange(pos, pos + 4);
        let size = le32_at(b, pos + 4);
        if tag == nmof_tag() {
            let cnt = size / 4;
            if pos + 8 + cnt * 4 <= end {
                scan_sections(
                    b,
                    pos + 8 + cnt * 4,
                    end,
                    SectionInfo {
                        nmof: if acc.nmof is None {
                            Some(read_u32s(b, pos + 8, cnt))
                        } else {
                            acc.nmof
                        },
                        adof: acc.adof,
                        tnid: acc.tnid,
                    },
                )
            } else {
                acc
            }
        } else if tag == adof_tag() {
            let cnt = size / 8;
            if pos + 8 + cnt * 8 <= end {
                scan_sections(
                    b,
                    pos + 8 + cnt * 8,
                    end,
                    SectionInfo {
                        nmof: acc.nmof,
                        adof: if acc.adof is None {
                            Some(read_pairs(b, pos + 8, cnt))
                        } else {
                            acc.adof
                        },
                        tnid: acc.tnid,
                    },
                )
            } else {
                acc
            }
        } else if tag == tnid_tag() {
            let cnt = size / 4;
            if pos + 8 + cnt * 4 <= end {
                scan_sections(
                    b,
                    pos + 8 + cnt * 4,
                    end,
                    SectionInfo {
                        nmof: acc.nmof,
                        adof: acc.adof,
                        tnid: if acc.tnid is None {
                            Some(read_u32s(b, pos + 8, cnt))
                        } else {
                            acc.tnid
                        },
                    },
                )
            } else {
                acc
            }
        } else if tag == tnnm_tag() || tag == junk_tag() || tag == pack_tag() {
            if pos + 8 + size <= end {
                scan_sections(b, pos + 8 + size, end, acc)
            } else {
                acc
            }
        } else {
            acc
        }
    }
}

/// The position of the first zero byte at or after `i`, or the length of
/// `b` if there is none.
pub open spec fn first_nul_from(b: Seq<u8>, i: int) -> int
    decreases b.len() - i,
{
    if i < 0 || i >= b.len() {
        b.len() as int
    } else if b[i] == 0 {
        i
    } else {
        first_nul_from(b, i + 1)
    }
}

/// The name stored at byte offset `off`: the bytes up to the next zero,
/// decoded as UTF-8. Absent when no zero follows or the bytes are not valid
/// UTF-8.
pub open spec fn name_at(b: Seq<u8>, off: int) -> Option<Seq<char>> {
    if 0 <= off <= b.len() {
        let e = first_nul_from(b, off);
        if e < b.len() && vstd::utf8::valid_utf8(b.subrange(off, e)) {
            Some(vstd::utf8::decode_utf8(b.subrange(off, e)))
        } else {
            Option::<Seq<char>>::None
        }
    } else {
        Option::<Seq<char>>::None
    }
}

/// The least of three lengths: a container's entry count is the shortest of
/// its three tables.
pub open spec fn min3(a: int, b: int, c: int) -> int {
    if a <= b && a <= c {
        a
    } else if b <= c {
        b
    } else {
        c
    }
}

/// What a container's bytes decode to: the first entry's name, id and
/// payload. Absent on any malformed structure: a bad header, a section
/// table without all three tables, an empty entry list, a name without a
/// terminator or with invalid text, or a payload range past the end.
pub open spec fn decode_spec(b: Seq<u8>) -> Option<(Seq<char>, u32, Seq<u8>)> {
    if b.len() < 8 || b.subrange(0, 4) != nus3_tag() {
        Option::<(Seq<char>, u32, Seq<u8>)>::None
    } else {
        let size0 = le32_at(b, 4);
        if 8 + size0 > b.len() || size0 < 16 || b.subrange(8, 16) != audiindx_tag() {
            Option::<(Seq<char>, u32, Seq<u8>)>::None
        } else {
            let asize = le32_at(b, 16);
            if asize < 4 || 12 + asize > size0 {
                Option::<(Seq<char>, u32, Seq<u8>)>::None
            } else {
                let secs = scan_sections(b, 20 + asize, 8 + size0, empty_sections());
                match (secs.adof, secs.nmof, secs.tnid) {
                    (Some(adof), Some(nmof), Some(tnid)) => {
                        let cnt = min3(adof.len() as int, nmof.len() as int, tnid.len() as int);
                        if cnt == 0 {
                            Option::<(Seq<char>, u32, Seq<u8>)>::None
                        } else if !(forall|k: int|
                            0 <= k < nmof.len() ==> name_at(b, #[trigger] nmof[k] as int) is Some) {
                            Option::<(Seq<char>, u32, Seq<u8>)>::None
                        } else if !(forall|k: int|
                            0 <= k < cnt ==> (#[trigger] adof[k]).0 + adof[k].1 <= b.len()) {
                            Option::<(Seq<char>, u32, Seq<u8>)>::None
                        } else {
                            Some(
                                (
                                    name_at(b, nmof[0] as int)->0,
                                    tnid[0],
                                    b.subrange(adof[0].0 as int, adof[0].0 + adof[0].1),
                                ),
                            )
                        }
                    },
                    _ => Option::<(Seq<char>, u32, Seq<u8>)>::None,
                }
            }
        }
    }
}

/// Relies on `String::from_utf8`: it succeeds exactly on valid UTF-8 input
/// and yields the decoded scalar values, as `vstd`'s UTF-8 model states
/// them.
#[verifier::external_body]
fn string_from_utf8(bytes: Vec<u8>) -> (r: Option<String>)
    ensures
        r is Some <==> vstd::utf8::valid_utf8(bytes@),
        r is Some ==> r->0@ == vstd::utf8::decode_utf8(bytes@),
{
    String::from_utf8(bytes).ok()
}

/// The value of the four bytes at `pos`, least significant first.
fn read_le32(b: &Vec<u8>, pos: usize) -> (r: u32)
    requires
        pos + 4 <= b@.len(),
    ensures
        r == le32_at(b@, pos as int),
{
    let n = b.len();
    b[pos] as u32 + 256 * (b[pos + 1] as u32) + 65536 * (b[pos + 2] as u32) + 16777216 * (b[pos
        + 3] as u32)
}

/// Whether the four bytes at `pos` are the given tag.
fn tag_at_exec(v: &Vec<u8>, pos: usize, a: u8, b: u8, c: u8, d: u8) -> (r: bool)
    requires
        pos + 4 <= v@.len(),
    ensures
        r == (v@.subrange(pos as int, pos + 4) == seq![a, b, c, d]),
{
    let n = v.len();
    let hit = v[pos] == a && v[pos + 1] == b && v[pos + 2] == c && v[pos + 3] == d;
    proof {
        if hit {
            assert(v@.subrange(pos as int, pos + 4) =~= seq![a, b, c, d]);
        } else {
            assert(v@.subrange(pos as int, pos + 4)[0] == v@[pos as int] && v@.subrange(
                pos as int,
                pos + 4,
            )[1] == v@[pos + 1] && v@.subrange(pos as int, pos + 4)[2] == v@[pos + 2]
                && v@.subrange(pos as int, pos + 4)[3] == v@[pos + 3]);
        }
    }
    hit
}

/// Copies the bytes of `v` in `[from, to)`.
fn byte_sub_vec(v: &Vec<u8>, from: usize, to: usize) -> (r: Vec<u8>)
    requires
        from <= to <= v@.len(),
    ensures
        r@ == v@.subrange(from as int, to as int),
{
    let mut r: Vec<u8> = Vec::new();
    let mut i = from;
    while i < to
        invariant
            from <= i <= to <= v@.len(),
            r@ == v@.subrange(from as int, i as int),
        decreases to - i,
    {
        r.push(v[i]);
        proof {
            assert(r@ =~= v@.subrange(from as int, i + 1 as int));
        }
        i = i + 1;
    }
    r
}

/// Reads `cnt` 32-bit values from `pos` on.
fn read_u32_list(b: &Vec<u8>, pos: usize, cnt: usize) -> (r: Vec<u32>)
    requires
        pos + 4 * cnt <= b@.len(),
    ensures
        r@ == read_u32s(b@, pos as int, cnt as int),
{
    let n = b.len();
    let mut r: Vec<u32> = Vec::new();
    let mut i: usize = 0;
    while i < cnt
        invariant
            i <= cnt,
            n == b@.len(),
            pos + 4 * cnt <= n,
            r@.len() == i,
            forall|j: int| 0 <= j < i ==> r@[j] == le32_at(b@, pos + 4 * j) as u32,
        decreases cnt - i,
    {
        r.push(read_le32(b, pos + 4 * i));
        i = i + 1;
    }
    proof {
        assert(r@ =~= read_u32s(b@, pos as int, cnt as int));
    }
    r
}

/// Reads `cnt` pairs of 32-bit values from `pos` on.
fn read_pair_list(b: &Vec<u8>, pos: usize, cnt: usize) -> (r: Vec<(u32, u32)>)
    requires
        pos + 8 * cnt <= b@.len(),
    ensures
        r@ == read_pairs(b@, pos as int, cnt as int),
{
    let n = b.len();
    let mut r: Vec<(u32, u32)> = Vec::new();
    let mut i: usize = 0;
    while i < cnt
        invariant
            i <= cnt,
            n == b@.len(),
            pos + 8 * cnt <= n,
            r@.len() == i,
            forall|j: int|
                0 <= j < i ==> (#[trigger] r@[j]).0 == le32_at(b@, pos + 8 * j) as u32 && r@[j].1
                    == le32_at(b@, pos + 8 * j + 4) as u32,
        decreases cnt - i,
    {
        let x = read_le32(b, pos + 8 * i);
        let y = read_le32(b, pos + 8 * i + 4);
        r.push((x, y));
        i = i + 1;
    }
    proof {
        assert(r@ =~= read_pairs(b@, pos as int, cnt as int));
    }
    r
}

/// The view of the three optional tables.
pub open spec fn info_of(
    nmof: Option<Vec<u32>>,
    adof: Option<Vec<(u32, u32)>>,
    tnid: Option<Vec<u32>>,
) -> SectionInfo {
    SectionInfo {
        nmof: match nmof {
            Some(v) => Some(v@),
            Option::None => Option::<Seq<u32>>::None,
        },
        adof: match adof {
            Some(v) => Some(v@),
            Option::None => Option::<Seq<(u32, u32)>>::None,
        },
        tnid: match tnid {
            Some(v) => Some(v@),
            Option::None => Option::<Seq<u32>>::None,
        },
    }
}

/// The name stored at byte offset `off`, decoded.
fn name_at_exec(b: &Vec<u8>, off: u32) -> (r: Option<String>)
    ensures
        r is Some <==> name_at(b@, off as int) is Some,
        r is Some ==> r->0@ == name_at(b@, off as int)->0,
{
    let n = b.len();
    if off as u64 > n as u64 {
        return Option::<String>::None;
    }
    let start = off as usize;
    let mut e = start;
    while e < n
        invariant
            start <= e <= n,
            n == b@.len(),
            forall|j: int| start <= j < e ==> b@[j] != 0,
        ensures
            start <= e <= n,
            forall|j: int| start <= j < e ==> b@[j] != 0,
            e < n ==> b@[e as int] == 0,
        decreases n - e,
    {
        if b[e] == 0 {
            break ;
        }
        e = e + 1;
    }
    proof {
        lemma_first_nul_is(b@, start as int, e as int);
    }
    if e == n {
        return Option::<String>::None;
    }
    let raw = byte_sub_vec(b, start, e);
    string_from_utf8(raw)
}

proof fn lemma_first_nul_is(b: Seq<u8>, i: int, j: int)
    requires
        0 <= i <= j <= b.len(),
        forall|t: int| i <= t < j ==> b[t] != 0,
        j < b.len() ==> b[j] == 0,
    ensures
        first_nul_from(b, i) == j,
    decreases j - i,
{
    if i < j {
        lemma_first_nul_is(b, i + 1, j);
    }
}

proof fn lemma_le32_value(v: int)
    requires
        0 <= v < 0x1_0000_0000,
    ensures
        le32_bytes(v)[0] + 256 * le32_bytes(v)[1] + 65536 * le32_bytes(v)[2] + 16777216
            * le32_bytes(v)[3] == v,
{
    let a1 = v / 256;
    let a2 = v / 65536;
    let a3 = v / 16777216;
    vstd::arithmetic::div_mod::lemma_fundamental_div_mod(v, 256);
    vstd::arithmetic::div_mod::lemma_fundamental_div_mod(a1, 256);
    vstd::arithmetic::div_mod::lemma_fundamental_div_mod(a2, 256);
    vstd::arithmetic::div_mod::lemma_div_denominator(v, 256, 256);
    vstd::arithmetic::div_mod::lemma_div_denominator(v, 65536, 256);
    assert(a1 / 256 == a2);
    assert(a2 / 256 == a3);
    assert(0 <= a3 < 256);
    assert(a3 % 256 == a3);
    assert(v == 256 * a1 + v % 256);
    assert(a1 == 256 * a2 + a1 % 256);
    assert(a2 == 256 * a3 + a2 % 256);
}

proof fn lemma_le32_decode(b: Seq<u8>, i: int, v: int)
    requires
        0 <= v < 0x1_0000_0000,
        0 <= i,
        i + 4 <= b.len(),
        b.subrange(i, i + 4) == le32_bytes(v),
    ensures
        le32_at(b, i) == v,
{
    assert(b[i] == b.subrange(i, i + 4)[0]);
    assert(b[i + 1] == b.subrange(i, i + 4)[1]);
    assert(b[i + 2] == b.subrange(i, i + 4)[2]);
    assert(b[i + 3] == b.subrange(i, i + 4)[3]);
    lemma_le32_value(v);
}

proof fn lemma_encode_scalar_no_nul(c: u32)
    requires
        vstd::utf8::is_scalar(c),
        c != 0,
    ensures
        forall|j: int|
            0 <= j < vstd::utf8::encode_scalar(c).len() ==> vstd::utf8::encode_scalar(c)[j] != 0,
{
    if vstd::utf8::has_width_1_encoding(c) {
        assert((c & 0x7F) != 0) by (bit_vector)
            requires
                c <= 0x7F,
                c != 0,
        ;
    } else {
        assert(forall|x: u8| (0xC0u8 | x) != 0) by (bit_vector);
        assert(forall|x: u8| (0xE0u8 | x) != 0) by (bit_vector);
        assert(forall|x: u8| (0xF0u8 | x) != 0) by (bit_vector);
        assert(forall|x: u8| (0x80u8 | x) != 0) by (bit_vector);
    }
}

proof fn lemma_encode_utf8_no_nul(chars: Seq<char>)
    requires
        forall|i: int| 0 <= i < chars.len() ==> #[trigger] (chars[i] as u32) != 0,
    ensures
        forall|j: int|
            0 <= j < vstd::utf8::encode_utf8(chars).len() ==> vstd::utf8::encode_utf8(chars)[j]
                != 0,
    decreases chars.len(),
{
    if chars.len() > 0 {
        let c = chars[0];
        vstd::utf8::char_is_scalar(c);
        lemma_encode_scalar_no_nul(c as u32);
        assert(forall|i: int|
            0 <= i < chars.drop_first().len() ==> #[trigger] chars.drop_first()[i] == chars[i + 1]);
        lemma_encode_utf8_no_nul(chars.drop_first());
        let head = vstd::utf8::encode_scalar(c as u32);
        let tail = vstd::utf8::encode_utf8(chars.drop_first());
        assert(forall|j: int|
            0 <= j < (head + tail).len() ==> (#[trigger] (head + tail)[j]) == if j < head.len() {
                head[j]
            } else {
                tail[j - head.len()]
            });
    }
}

#[verifier::rlimit(100)]
#[verifier::spinoff_prover]
proof fn lemma_encode_layout_head(name: Seq<char>, id: u32, data: Seq<u8>)
    ensures
        ({
            let nb = vstd::utf8::encode_utf8(name);
            let l = nb.len() as int;
            let pad = junk_pad(l);
            let p = data.len() as int;
            let e = encode_spec(name, id, data);
            &&& e.len() == 89 + l + pad + p
            &&& e.subrange(0, 4) == nus3_tag()
            &&& e.subrange(4, 8) == le32_bytes(81 + l + pad + p)
            &&& e.subrange(8, 16) == audiindx_tag()
            &&& e.subrange(16, 20) == le32_bytes(4)
            &&& e.subrange(20, 24) == le32_bytes(1)
            &&& e.subrange(24, 28) == tnid_tag()
            &&& e.subrange(28, 32) == le32_bytes(4)
            &&& e.subrange(32, 36) == le32_bytes(id as int)
            &&& e.subrange(36, 40) == nmof_tag()
            &&& e.subrange(40, 44) == le32_bytes(4)
            &&& e.subrange(44, 48) == le32_bytes(72)
        }),
{
    let nb = vstd::utf8::encode_utf8(name);
    let l = nb.len() as int;
    let pad = junk_pad(l);
    let p = data.len() as int;
    let e = encode_spec(name, id, data);
    reveal(encode_spec);
    assert(e.len() == 89 + l + pad + p);
    assert(e.subrange(0, 4) =~= nus3_tag());
    assert(e.subrange(4, 8) =~= le32_bytes(81 + l + pad + p));
    assert(e.subrange(8, 16) =~= audiindx_tag());
    assert(e.subrange(16, 20) =~= le32_bytes(4));
    assert(e.subrange(20, 24) =~= le32_bytes(1));
    assert(e.subrange(24, 28) =~= tnid_tag());
    assert(e.subrange(28, 32) =~= le32_bytes(4));
    assert(e.subrange(32, 36) =~= le32_bytes(id as int));
    assert(e.subrange(36, 40) =~= nmof_tag());
    assert(e.subrange(40, 44) =~= le32_bytes(4));
    assert(e.subrange(44, 48) =~= le32_bytes(72));
}

#[verifier::rlimit(100)]
#[verifier::spinoff_prover]
proof fn lemma_encode_layout_tail(name: Seq<char>, id: u32, data: Seq<u8>)
    ensures
        ({
            let nb = vstd::utf8::encode_utf8(name);
            let l = nb.len() as int;
            let pad = junk_pad(l);
            let p = data.len() as int;
            let e = encode_spec(name, id, data);
            &&& e.subrange(48, 52) == adof_tag()
            &&& e.subrange(52, 56) == le32_bytes(8)
            &&& e.subrange(56, 60) == le32_bytes(89 + l + pad)
            &&& e.subrange(60, 64) == le32_bytes(p)
            &&& e.subrange(64, 68) == tnnm_tag()
            &&& e.subrange(68, 72) == le32_bytes(l + 1)
            &&& e.subrange(72, 72 + l) == nb
            &&& e[72 + l] == 0
            &&& e.subrange(73 + l, 77 + l) == junk_tag()
            &&& e.subrange(77 + l, 81 + l) == le32_bytes(pad)
            &&& e.subrange(81 + l + pad, 85 + l + pad) == pack_tag()
            &&& e.subrange(85 + l + pad, 89 + l + pad) == le32_bytes(p)
            &&& e.subrange(89 + l + pad, 89 + l + pad + p) == data
        }),
{
    let nb = vstd::utf8::encode_utf8(name);
    let l = nb.len() as int;
    let pad = junk_pad(l);
    let p = data.len() as int;
    let e = encode_spec(name, id, data);
    reveal(encode_spec);
    assert(0 <= pad < 16);
    assert(e.subrange(48, 52) =~= adof_tag());
    assert(e.subrange(52, 56) =~= le32_bytes(8));
    assert(e.subrange(56, 60) =~= le32_bytes(89 + l + pad));
    assert(e.subrange(60, 64) =~= le32_bytes(p));
    assert(e.subrange(64, 68) =~= tnnm_tag());
    assert(e.subrange(68, 72) =~= le32_bytes(l + 1));
    assert(e.subrange(72, 72 + l) =~= nb);
    assert(e[72 + l] == 0);
    assert(e.subrange(73 + l, 77 + l) =~= junk_tag());
    assert(e.subrange(77 + l, 81 + l) =~= le32_bytes(pad));
    assert(e.subrange(81 + l + pad, 85 + l + pad) =~= pack_tag());
    assert(e.subrange(85 + l + pad, 89 + l + pad) =~= le32_bytes(p));
    assert(e.subrange(89 + l + pad, 89 + l + pad + p) =~= data);
}

/// Round trip: a single-entry container built from a name and a payload
/// decodes back to the same name and id and a byte-identical payload. The
/// name must be free of NUL characters, since the container stores it
/// NUL-terminated, and the whole must fit the 32-bit size fields.
#[verifier::rlimit(100)]
#[verifier::spinoff_prover]
pub proof fn lemma_container_round_trip(name: Seq<char>, id: u32, data: Seq<u8>)
    requires
        container_size(vstd::utf8::encode_utf8(name).len() as int, data.len() as int) <= u32::MAX,
        forall|i: int| 0 <= i < name.len() ==> #[trigger] (name[i] as u32) != 0,
    ensures
        decode_spec(encode_spec(name, id, data)) == Some((name, id, data)),
{
    let nb = vstd::utf8::encode_utf8(name);
    let l = nb.len() as int;
    let pad = junk_pad(l);
    let p = data.len() as int;
    let e = encode_spec(name, id, data);
    let size0 = 81 + l + pad + p;
    let doff = 89 + l + pad;
    assert(0 <= pad < 16);
    lemma_encode_layout_head(name, id, data);
    lemma_encode_layout_tail(name, id, data);
    assert(e.len() == 8 + size0);
    // the size fields read back
    lemma_le32_decode(e, 4, size0);
    lemma_le32_decode(e, 16, 4);
    lemma_le32_decode(e, 28, 4);
    lemma_le32_decode(e, 32, id as int);
    lemma_le32_decode(e, 40, 4);
    lemma_le32_decode(e, 44, 72);
    lemma_le32_decode(e, 52, 8);
    lemma_le32_decode(e, 56, doff);
    lemma_le32_decode(e, 60, p);
    lemma_le32_decode(e, 68, l + 1);
    lemma_le32_decode(e, 77 + l, pad);
    lemma_le32_decode(e, 85 + l + pad, p);
    // the distinct tags do not collide
    assert(tnid_tag() != nmof_tag() && tnid_tag() != adof_tag());
    // the scan walks the six sections and captures the three tables
    let end = 8 + size0;
    let acc0 = empty_sections();
    let acc1 = SectionInfo {
        nmof: Option::<Seq<u32>>::None,
        adof: Option::<Seq<(u32, u32)>>::None,
        tnid: Some(read_u32s(e, 32, 1)),
    };
    let acc2 = SectionInfo {
        nmof: Some(read_u32s(e, 44, 1)),
        adof: Option::<Seq<(u32, u32)>>::None,
        tnid: acc1.tnid,
    };
    let acc3 = SectionInfo { nmof: acc2.nmof, adof: Some(read_pairs(e, 56, 1)), tnid: acc1.tnid };
    assert(read_u32s(e, 32, 1) =~= seq![id]);
    assert(read_u32s(e, 44, 1) =~= seq![72u32]);
    assert(read_pairs(e, 56, 1) =~= seq![(doff as u32, p as u32)]);
    assert(scan_sections(e, 24, end, acc0) == scan_sections(e, 36, end, acc1));
    assert(scan_sections(e, 36, end, acc1) == scan_sections(e, 48, end, acc2));
    assert(scan_sections(e, 48, end, acc2) == scan_sections(e, 64, end, acc3));
    assert(scan_sections(e, 64, end, acc3) == scan_sections(e, 73 + l, end, acc3));
    assert(scan_sections(e, 73 + l, end, acc3) == scan_sections(e, 81 + l + pad, end, acc3));
    assert(scan_sections(e, 81 + l + pad, end, acc3) == scan_sections(e, end, end, acc3));
    assert(scan_sections(e, end, end, acc3) == acc3);
    // the one entry reads back
    lemma_encode_utf8_no_nul(name);
    assert(forall|t: int| 72 <= t < 72 + l ==> e[t] == nb[t - 72] && e[t] != 0);
    lemma_first_nul_is(e, 72, 72 + l);
    vstd::utf8::encode_utf8_valid_utf8(name);
    vstd::utf8::encode_utf8_decode_utf8(name);
    assert(name_at(e, 72) == Some(name));
    assert(min3(1, 1, 1) == 1);
    let nmof = acc3.nmof->0;
    let adof = acc3.adof->0;
    assert(forall|k: int| 0 <= k < nmof.len() ==> name_at(e, #[trigger] nmof[k] as int) is Some);
    assert(forall|k: int| 0 <= k < 1 ==> (#[trigger] adof[k]).0 + adof[k].1 <= e.len());
    assert(decode_spec(e) == Some((name, id, data)));
}

/// The error a malformed container is rejected with.
fn bad_container() -> (e: ConvertError)
    ensures
        e.kind == ConvertErrorKind::Nus3audio,
{
    ConvertError::nus3audio("invalid audio container")
}

/// Parses a single-entry container: the first entry's name, id and payload,
/// exactly as [`decode_spec`] reads them. Every malformed structure —
/// including a container without entries — is rejected as an audio error,
/// never by running off the data.
#[verifier::rlimit(60)]
pub fn decode(bytes: &Vec<u8>) -> (r: Result<AudioEntry, ConvertError>)
    ensures
        r is Ok <==> decode_spec(bytes@) is Some,
        r is Ok ==> ({
            let m = decode_spec(bytes@)->0;
            &&& r->Ok_0.name@ == m.0
            &&& r->Ok_0.id == m.1
            &&& r->Ok_0.data@ == m.2
        }),
        r is Err ==> r->Err_0.kind == ConvertErrorKind::Nus3audio,
{
    let n = bytes.len();
    if n < 8 {
        return Err(bad_container());
    }
    if !tag_at_exec(bytes, 0, 0x4e, 0x55, 0x53, 0x33) {
        return Err(bad_container());
    }
    let size0 = read_le32(bytes, 4);
    if 8 + size0 as u64 > n as u64 {
        return Err(bad_container());
    }
    if size0 < 16 {
        return Err(bad_container());
    }
    let audi = tag_at_exec(bytes, 8, 0x41, 0x55, 0x44, 0x49) && tag_at_exec(
        bytes,
        12,
        0x49,
        0x4e,
        0x44,
        0x58,
    );
    proof {
        if audi {
            assert(bytes@.subrange(8, 16) =~= audiindx_tag());
        } else {
            assert(bytes@.subrange(8, 12) =~= bytes@.subrange(8, 16).subrange(0, 4));
            assert(bytes@.subrange(12, 16) =~= bytes@.subrange(8, 16).subrange(4, 8));
            if bytes@.subrange(8, 16) == audiindx_tag() {
                assert(bytes@.subrange(8, 12) =~= seq![0x41u8, 0x55u8, 0x44u8, 0x49u8]);
                assert(bytes@.subrange(12, 16) =~= seq![0x49u8, 0x4eu8, 0x44u8, 0x58u8]);
            }
        }
    }
    if !audi {
        return Err(bad_container());
    }
    let asize = read_le32(bytes, 16);
    if asize < 4 {
        return Err(bad_container());
    }
    if 12 + asize as u64 > size0 as u64 {
        return Err(bad_container());
    }
    let endpos: usize = 8 + size0 as usize;
    let mut pos: usize = 20 + asize as usize;
    let mut nmof_t: Option<Vec<u32>> = Option::<Vec<u32>>::None;
    let mut adof_t: Option<Vec<(u32, u32)>> = Option::<Vec<(u32, u32)>>::None;
    let mut tnid_t: Option<Vec<u32>> = Option::<Vec<u32>>::None;
    let ghost start = pos as int;
    loop
        invariant
            pos <= endpos <= n,
            n == bytes@.len(),
            start == 20 + asize,
            endpos == 8 + size0,
            scan_sections(bytes@, start, endpos as int, empty_sections()) == scan_sections(
                bytes@,
                pos as int,
                endpos as int,
                info_of(nmof_t, adof_t, tnid_t),
            ),
        ensures
            scan_sections(bytes@, start, endpos as int, empty_sections()) == info_of(
                nmof_t,
                adof_t,
                tnid_t,
            ),
        decreases endpos - pos,
    {
        if endpos - pos < 8 {
            break ;
        }
        let size = read_le32(bytes, pos + 4);
        if tag_at_exec(bytes, pos, 0x4e, 0x4d, 0x4f, 0x46) {
            // NMOF: the name offsets
            let cnt = (size / 4) as usize;
            if (pos as u64) + 8 + 4 * (cnt as u64) <= endpos as u64 {
                if nmof_t.is_none() {
                    nmof_t = Some(read_u32_list(bytes, pos + 8, cnt));
                }
                pos = pos + 8 + 4 * cnt;
            } else {
                break ;
            }
        } else if tag_at_exec(bytes, pos, 0x41, 0x44, 0x4f, 0x46) {
            // ADOF: the payload offsets and sizes
            let cnt = (size / 8) as usize;
            if (pos as u64) + 8 + 8 * (cnt as u64) <= endpos as u64 {
                if adof_t.is_none() {
                    adof_t = Some(read_pair_list(bytes, pos + 8, cnt));
                }
                pos = pos + 8 + 8 * cnt;
            } else {
                break ;
            }
        } else if tag_at_exec(bytes, pos, 0x54, 0x4e, 0x49, 0x44) {
            // TNID: the track ids
            let cnt = (size / 4) as usize;
            if (pos as u64) + 8 + 4 * (cnt as u64) <= endpos as u64 {
                if tnid_t.is_none() {
                    tnid_t = Some(read_u32_list(bytes, pos + 8, cnt));
                }
                pos = pos + 8 + 4 * cnt;
            } else {
                break ;
            }
        } else if tag_at_exec(bytes, pos, 0x54, 0x4e, 0x4e, 0x4d) || tag_at_exec(
            bytes,
            pos,
            0x4a,
            0x55,
            0x4e,
            0x4b,
        ) || tag_at_exec(bytes, pos, 0x50, 0x41, 0x43, 0x4b) {
            // a sized section without table content: skipped whole
            if (pos as u64) + 8 + size as u64 <= endpos as u64 {
                pos = pos + 8 + size as usize;
            } else {
                break ;
            }
        } else {
            break ;
        }
    }
    let ghost secs = info_of(nmof_t, adof_t, tnid_t);
    let adof = match adof_t {
        Some(a) => a,
        Option::None => {
            return Err(bad_container());
        },
    };
    let nmof = match nmof_t {
        Some(a) => a,
        Option::None => {
            return Err(bad_container());
        },
    };
    let tnid = match tnid_t {
        Some(a) => a,
        Option::None => {
            return Err(bad_container());
        },
    };
    proof {
        assert(secs.nmof == Some(nmof@));
        assert(secs.adof == Some(adof@));
        assert(secs.tnid == Some(tnid@));
    }
    let mut cnt = adof.len();
    if nmof.len() < cnt {
        cnt = nmof.len();
    }
    if tnid.len() < cnt {
        cnt = tnid.len();
    }
    proof {
        assert(cnt == min3(adof@.len() as int, nmof@.len() as int, tnid@.len() as int));
    }
    if cnt == 0 {
        return Err(bad_container());
    }
    // every name must be addressable and terminated
    let nn = nmof.len();
    let mut k: usize = 0;
    #[verifier::loop_isolation(false)]
    while k < nn
        invariant
            k <= nn,
            nn == nmof@.len(),
            forall|t: int| 0 <= t < k ==> name_at(bytes@, #[trigger] nmof@[t] as int) is Some,
        decreases nn - k,
    {
        if name_at_exec(bytes, nmof[k]).is_none() {
            proof {
                assert(name_at(bytes@, nmof@[k as int] as int) is None);
                assert(!(forall|t: int|
                    0 <= t < nmof@.len() ==> name_at(bytes@, #[trigger] nmof@[t] as int) is Some));
            }
            return Err(bad_container());
        }
        k = k + 1;
    }
    // every used payload range must lie inside the input
    let mut k2: usize = 0;
    #[verifier::loop_isolation(false)]
    while k2 < cnt
        invariant
            k2 <= cnt,
            cnt <= adof@.len(),
            n == bytes@.len(),
            forall|t: int|
                0 <= t < k2 ==> (#[trigger] adof@[t]).0 + adof@[t].1 <= bytes@.len(),
        decreases cnt - k2,
    {
        let (o, s) = adof[k2];
        if o as u64 + s as u64 > n as u64 {
            proof {
                assert((adof@[k2 as int]).0 + adof@[k2 as int].1 > bytes@.len());
                assert(!(forall|t: int|
                    0 <= t < min3(adof@.len() as int, nmof@.len() as int, tnid@.len() as int) ==> (
                    #[trigger] adof@[t]).0 + adof@[t].1 <= bytes@.len()));
            }
            return Err(bad_container());
        }
        k2 = k2 + 1;
    }
    let name0 = match name_at_exec(bytes, nmof[0]) {
        Some(s) => s,
        Option::None => {
            proof {
                assert(false);
            }
            String::new()
        },
    };
    let (o0, s0) = adof[0];
    let dend = (o0 as u64 + s0 as u64) as usize;
    let data = byte_sub_vec(bytes, o0 as usize, dend);
    Ok(AudioEntry { name: name0, id: tnid[0], data })
}

} // verus!
