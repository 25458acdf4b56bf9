//! In-memory encoding of the layered filesystem's metadata tables.
//!
//! A layer's metadata lives in two byte tables: a file table of entries —
//! kind, data pointer, attributes id — and an attributes table of
//! fixed-size records. Entries are addressed by the one-based offset at
//! which they were written, so a writer hands out ids that a reader
//! resolves later. Writing the tables to disk happens outside the library.
use vstd::prelude::*;

verus! {

/// 256 to the `n`.
pub open spec fn pow256(n: nat) -> nat
    decreases n,
{
    if n == 0 {
        1
    } else {
        256 * pow256((n - 1) as nat)
    }
}

/// A value as `n` little-endian bytes.
pub open spec fn enc_le(v: nat, n: nat) -> Seq<u8>
    decreases n,
{
    if n == 0 {
        Seq::empty()
    } else {
        seq![(v % 256) as u8] + enc_le(v / 256, (n - 1) as nat)
    }
}

/// The value of little-endian bytes.
pub open spec fn dec_le(bytes: Seq<u8>) -> nat
    decreases bytes.len(),
{
    if bytes.len() == 0 {
        0
    } else {
        bytes[0] as nat + 256 * dec_le(bytes.skip(1))
    }
}

/// An encoding is as long as asked for.
pub proof fn lemma_enc_le_len(v: nat, n: nat)
    ensures
        enc_le(v, n).len() == n,
    decreases n,
{
    if n > 0 {
        lemma_enc_le_len(v / 256, (n - 1) as nat);
    }
}

/// Decoded bytes are bounded by the width.
pub proof fn lemma_dec_le_bound(bytes: Seq<u8>)
    ensures
        dec_le(bytes) < pow256(bytes.len()),
    decreases bytes.len(),
{
    if bytes.len() > 0 {
        lemma_dec_le_bound(bytes.skip(1));
        assert(256 * dec_le(bytes.skip(1)) <= 256 * (pow256((bytes.len() - 1) as nat) - 1))
            by (nonlinear_arith)
            requires
                dec_le(bytes.skip(1)) <= pow256((bytes.len() - 1) as nat) - 1,
        ;
    }
}

/// Decoding inverts encoding: the codec loses nothing.
pub proof fn lemma_le_round_trip(v: nat, n: nat)
    requires
        v < pow256(n),
    ensures
        dec_le(enc_le(v, n)) == v,
    decreases n,
{
    if n == 0 {
    } else {
        assert(v / 256 < pow256((n - 1) as nat)) by (nonlinear_arith)
            requires
                v < 256 * pow256((n - 1) as nat),
        ;
        lemma_le_round_trip(v / 256, (n - 1) as nat);
        lemma_enc_le_len(v / 256, (n - 1) as nat);
        assert(enc_le(v, n)[0] == (v % 256) as u8);
        assert(enc_le(v, n).skip(1) =~= enc_le(v / 256, (n - 1) as nat));
        vstd::arithmetic::div_mod::lemma_fundamental_div_mod(v as int, 256);
    }
}

/// `pow256(8)` is just past the largest `u64`.
pub proof fn lemma_pow256_8()
    ensures
        pow256(8) == 0x10000000000000000,
        pow256(4) == 0x100000000,
{
    reveal_with_fuel(pow256, 9);
}

/// Append `v` as `width` little-endian bytes.
pub fn encode_le(out: &mut Vec<u8>, v: u64, width: usize)
    requires
        width <= 8,
        v < pow256(width as nat),
    ensures
        final(out)@ == old(out)@ + enc_le(v as nat, width as nat),
{
    let mut x = v;
    let mut i: usize = 0;
    proof {
        assert(old(out)@ + enc_le(v as nat, width as nat) == out@ + enc_le(
            x as nat,
            (width - i) as nat,
        ));
    }
    while i < width
        invariant
            i <= width,
            old(out)@ + enc_le(v as nat, width as nat) == out@ + enc_le(
                x as nat,
                (width - i) as nat,
            ),
        decreases width - i,
    {
        let ghost pre = out@;
        out.push((x % 256) as u8);
        proof {
            assert(enc_le(x as nat, (width - i) as nat) == seq![(x as nat % 256) as u8]
                + enc_le(x as nat / 256, (width - i - 1) as nat));
            assert((x % 256) as u8 == (x as nat % 256) as u8);
            assert(out@ =~= pre + seq![(x as nat % 256) as u8]);
            assert(old(out)@ + enc_le(v as nat, width as nat) =~= out@ + enc_le(
                (x / 256) as nat,
                (width - i - 1) as nat,
            ));
        }
        x = x / 256;
        i = i + 1;
    }
    proof {
        assert(enc_le(x as nat, 0) =~= Seq::<u8>::empty());
        assert(out@ =~= out@ + Seq::<u8>::empty());
    }
}

/// Read `width` little-endian bytes at `off`.
pub fn decode_le(bytes: &Vec<u8>, off: usize, width: usize) -> (r: u64)
    requires
        width <= 8,
        off + width <= bytes@.len(),
    ensures
        r as nat == dec_le(bytes@.subrange(off as int, off + width)),
{
    let n = bytes.len();
    let mut acc: u64 = 0;
    let mut k: usize = 0;
    proof {
        assert(bytes@.subrange(off + width, off + width) =~= Seq::<u8>::empty());
        lemma_pow256_8();
    }
    while k < width
        invariant
            k <= width <= 8,
            n == bytes@.len(),
            off + width <= bytes@.len(),
            acc as nat == dec_le(bytes@.subrange(off + width - k, off + width)),
            (acc as nat) < pow256(k as nat),
        decreases width - k,
    {
        let b = bytes[off + width - k - 1];
        proof {
            lemma_pow256_8();
            let tail = bytes@.subrange(off + width - k, off + width);
            let cur = bytes@.subrange(off + width - k - 1, off + width);
            assert(cur[0] == bytes@[off + width - k - 1]);
            assert(cur.skip(1) =~= tail);
            assert((acc as nat) * 256 + b < pow256((k + 1) as nat)) by (nonlinear_arith)
                requires
                    (acc as nat) < pow256(k as nat),
                    b < 256,
                    pow256((k + 1) as nat) == 256 * pow256(k as nat),
            ;
            assert(pow256((k + 1) as nat) <= pow256(8)) by {
                lemma_pow256_mono((k + 1) as nat, 8);
            }
        }
        acc = acc * 256 + (b as u64);
        k = k + 1;
    }
    proof {
        assert(bytes@.subrange(off as int, off + width) =~= bytes@.subrange(
            off + width - width,
            off + width,
        ));
    }
    acc
}

proof fn lemma_pow256_mono(a: nat, b: nat)
    requires
        a <= b,
    ensures
        pow256(a) <= pow256(b),
    decreases b,
{
    if a < b {
        lemma_pow256_mono(a, (b - 1) as nat);
        assert(pow256(b) == 256 * pow256((b - 1) as nat));
        assert(256 * pow256((b - 1) as nat) >= pow256((b - 1) as nat)) by (nonlinear_arith)
            requires
                pow256((b - 1) as nat) >= 0,
        ;
    }
}

/// The version header at the start of each table.
#[derive(Clone, Copy, Debug, PartialEq, Eq, Structural)]
pub struct FileTableHeader {
    pub version: u64,
}

/// The version header of the attributes table.
#[derive(Clone, Copy, Debug, PartialEq, Eq, Structural)]
pub struct AttributesTableHeader {
    pub version: u64,
}

/// The fixed-size attributes of one file.
#[derive(Clone, Copy, Debug, PartialEq, Eq, Structural)]
pub struct FileAttributes {
    pub size: u64,
    pub mode: u32,
    pub mtime: u64,
}

/// The bytes of one attributes record: size, mode, then time.
pub open spec fn enc_attrs(a: FileAttributes) -> Seq<u8> {
    enc_le(a.size as nat, 8) + enc_le(a.mode as nat, 4) + enc_le(a.mtime as nat, 8)
}

/// An attributes record is twenty bytes.
pub const ATTR_RECORD_LEN: usize = 20;

/// The attributes read back from a table at `off`.
pub open spec fn dec_attrs(bytes: Seq<u8>, off: int) -> FileAttributes {
    FileAttributes {
        size: dec_le(bytes.subrange(off, off + 8)) as u64,
        mode: dec_le(bytes.subrange(off + 8, off + 12)) as u32,
        mtime: dec_le(bytes.subrange(off + 12, off + 20)) as u64,
    }
}

/// Reading a written attributes record yields the record.
pub proof fn lemma_attrs_round_trip(prefix: Seq<u8>, a: FileAttributes, suffix: Seq<u8>)
    ensures
        dec_attrs(prefix + enc_attrs(a) + suffix, prefix.len() as int) == a,
{
    lemma_pow256_8();
    lemma_enc_le_len(a.size as nat, 8);
    lemma_enc_le_len(a.mode as nat, 4);
    lemma_enc_le_len(a.mtime as nat, 8);
    let whole = prefix + enc_attrs(a) + suffix;
    let off = prefix.len() as int;
    assert(whole.subrange(off, off + 8) =~= enc_le(a.size as nat, 8));
    assert(whole.subrange(off + 8, off + 12) =~= enc_le(a.mode as nat, 4));
    assert(whole.subrange(off + 12, off + 20) =~= enc_le(a.mtime as nat, 8));
    lemma_le_round_trip(a.size as nat, 8);
    lemma_le_round_trip(a.mode as nat, 4);
    lemma_le_round_trip(a.mtime as nat, 8);
}

/// Append one attributes record.
pub fn write_attrs(out: &mut Vec<u8>, a: FileAttributes)
    ensures
        final(out)@ == old(out)@ + enc_attrs(a),
{
    proof {
        lemma_pow256_8();
        lemma_pow256_mono(4, 8);
    }
    encode_le(out, a.size, 8);
    encode_le(out, a.mode as u64, 4);
    encode_le(out, a.mtime, 8);
    proof {
        assert(out@ =~= old(out)@ + enc_attrs(a));
    }
}

/// Read one attributes record at `off`.
pub fn read_attrs(bytes: &Vec<u8>, off: usize) -> (r: FileAttributes)
    requires
        off + ATTR_RECORD_LEN <= bytes@.len(),
    ensures
        r == dec_attrs(bytes@, off as int),
{
    let n = bytes.len();
    proof {
        lemma_pow256_8();
        lemma_dec_le_bound(bytes@.subrange(off + 8, off + 12));
        lemma_pow256_mono(4, 8);
    }
    let size = decode_le(bytes, off, 8);
    let mode = decode_le(bytes, off + 8, 4) as u32;
    let mtime = decode_le(bytes, off + 12, 8);
    FileAttributes { size, mode, mtime }
}

/// What kind of node a file-table entry describes.
#[derive(Clone, Copy, Debug, PartialEq, Eq, Structural)]
pub enum FileType {
    Directory,
    RegularFile,
    Symlink,
}

/// Where a file's bytes live.
#[derive(Clone, Debug, PartialEq, Eq)]
pub enum FileData {
    Empty,
    Inline { offset: u64, length: u64 },
    Digest { digest: Vec<u8>, offset: u64, length: u64 },
}

/// Ghost model of a file's data pointer.
#[verifier::ext_equal]
pub ghost enum FileDataV {
    Empty,
    Inline { offset: u64, length: u64 },
    Digest { digest: Seq<u8>, offset: u64, length: u64 },
}

impl View for FileData {
    type V = FileDataV;

    open spec fn view(&self) -> FileDataV {
        match self {
            FileData::Empty => FileDataV::Empty,
            FileData::Inline { offset, length } => FileDataV::Inline {
                offset: *offset,
                length: *length,
            },
            FileData::Digest { digest, offset, length } => FileDataV::Digest {
                digest: digest@,
                offset: *offset,
                length: *length,
            },
        }
    }
}

/// One entry of the file table, addressed by a one-based offset within a
/// layer.
#[derive(Clone, Copy, Debug, PartialEq, Eq, Structural)]
pub struct FileId {
    pub layer: u64,
    pub offset: u32,
}

/// The byte written for a node kind.
pub open spec fn enc_type(t: FileType) -> u8 {
    match t {
        FileType::Directory => 0,
        FileType::RegularFile => 1,
        FileType::Symlink => 2,
    }
}

/// The bytes of a data pointer.
pub open spec fn enc_data(d: FileDataV) -> Seq<u8> {
    match d {
        FileDataV::Empty => seq![0u8],
        FileDataV::Inline { offset, length } => seq![1u8] + enc_le(offset as nat, 8) + enc_le(
            length as nat,
            8,
        ),
        FileDataV::Digest { digest, offset, length } => seq![2u8] + enc_le(digest.len(), 4)
            + digest + enc_le(offset as nat, 8) + enc_le(length as nat, 8),
    }
}

/// The bytes of one file-table entry: kind, data, then the attributes id.
pub open spec fn enc_entry(t: FileType, d: FileDataV, attr_id: u64) -> Seq<u8> {
    seq![enc_type(t)] + enc_data(d) + enc_le(attr_id as nat, 8)
}

/// The entry read back from a table at `off`: its kind, data, attributes
/// id, and the offset just past it. `None` when the bytes there are not an
/// entry.
pub open spec fn dec_entry(bytes: Seq<u8>, off: int) -> Option<(FileType, FileDataV, u64, int)> {
    if off < 0 || off + 2 > bytes.len() {
        None
    } else {
        let t = if bytes[off] == 0 {
            Some(FileType::Directory)
        } else if bytes[off] == 1 {
            Some(FileType::RegularFile)
        } else if bytes[off] == 2 {
            Some(FileType::Symlink)
        } else {
            None
        };
        match t {
            None => None,
            Some(t) => {
                let tag = bytes[off + 1];
                if tag == 0 {
                    if off + 10 <= bytes.len() {
                        Some(
                            (
                                t,
                                FileDataV::Empty,
                                dec_le(bytes.subrange(off + 2, off + 10)) as u64,
                                off + 10,
                            ),
                        )
                    } else {
                        None
                    }
                } else if tag == 1 {
                    if off + 26 <= bytes.len() {
                        Some(
                            (
                                t,
                                FileDataV::Inline {
                                    offset: dec_le(bytes.subrange(off + 2, off + 10)) as u64,
                                    length: dec_le(bytes.subrange(off + 10, off + 18)) as u64,
                                },
                                dec_le(bytes.subrange(off + 18, off + 26)) as u64,
                                off + 26,
                            ),
                        )
                    } else {
                        None
                    }
                } else if tag == 2 {
                    if off + 6 <= bytes.len() {
                        let dlen = dec_le(bytes.subrange(off + 2, off + 6)) as int;
                        if off + 6 + dlen + 24 <= bytes.len() {
                            Some(
                                (
                                    t,
                                    FileDataV::Digest {
                                        digest: bytes.subrange(off + 6, off + 6 + dlen),
                                        offset: dec_le(
                                            bytes.subrange(off + 6 + dlen, off + 14 + dlen),
                                        ) as u64,
                                        length: dec_le(
                                            bytes.subrange(off + 14 + dlen, off + 22 + dlen),
                                        ) as u64,
                                    },
                                    dec_le(
                                        bytes.subrange(off + 22 + dlen, off + 30 + dlen),
                                    ) as u64,
                                    off + 30 + dlen,
                                ),
                            )
                        } else {
                            None
                        }
                    } else {
                        None
                    }
                } else {
                    None
                }
            },
        }
    }
}

/// Reading a written entry yields the entry: the codec loses nothing.
pub proof fn lemma_entry_round_trip(
    prefix: Seq<u8>,
    t: FileType,
    d: FileDataV,
    attr_id: u64,
    suffix: Seq<u8>,
)
    requires
        d matches FileDataV::Digest { digest, .. } ==> digest.len() < 0x100000000,
    ensures
        dec_entry(prefix + enc_entry(t, d, attr_id) + suffix, prefix.len() as int) == Some(
            (t, d, attr_id, (prefix.len() + enc_entry(t, d, attr_id).len()) as int),
        ),
{
    lemma_pow256_8();
    let whole = prefix + enc_entry(t, d, attr_id) + suffix;
    let off = prefix.len() as int;
    lemma_enc_le_len(attr_id as nat, 8);
    assert(whole[off] == enc_type(t));
    lemma_le_round_trip(attr_id as nat, 8);
    match d {
        FileDataV::Empty => {
            assert(whole[off + 1] == 0);
            assert(whole.subrange(off + 2, off + 10) =~= enc_le(attr_id as nat, 8));
        },
        FileDataV::Inline { offset, length } => {
            assert(whole[off + 1] == 1);
            lemma_enc_le_len(offset as nat, 8);
            lemma_enc_le_len(length as nat, 8);
            assert(whole.subrange(off + 2, off + 10) =~= enc_le(offset as nat, 8));
            assert(whole.subrange(off + 10, off + 18) =~= enc_le(length as nat, 8));
            assert(whole.subrange(off + 18, off + 26) =~= enc_le(attr_id as nat, 8));
            lemma_le_round_trip(offset as nat, 8);
            lemma_le_round_trip(length as nat, 8);
        },
        FileDataV::Digest { digest, offset, length } => {
            assert(whole[off + 1] == 2);
            lemma_enc_le_len(digest.len(), 4);
            lemma_enc_le_len(offset as nat, 8);
            lemma_enc_le_len(length as nat, 8);
            assert(whole.subrange(off + 2, off + 6) =~= enc_le(digest.len(), 4));
            lemma_le_round_trip(digest.len(), 4);
            let dlen = digest.len() as int;
            assert(whole.subrange(off + 6, off + 6 + dlen) =~= digest);
            assert(whole.subrange(off + 6 + dlen, off + 14 + dlen) =~= enc_le(offset as nat, 8));
            assert(whole.subrange(off + 14 + dlen, off + 22 + dlen) =~= enc_le(length as nat, 8));
            assert(whole.subrange(off + 22 + dlen, off + 30 + dlen) =~= enc_le(attr_id as nat, 8));
            lemma_le_round_trip(offset as nat, 8);
            lemma_le_round_trip(length as nat, 8);
        },
    }
}

/// Both tables start with an eight-byte version field.
pub const TABLE_HEADER_LEN: usize = 8;

/// The version this codec writes.
pub const LAYER_FS_VERSION: u64 = 0;

/// What a file of a generated layer holds, as handed to the writer.
pub enum FileDataInput {
    Empty,
    Inline(Vec<u8>),
    Digest { digest: Vec<u8>, offset: u64, length: u64 },
}

/// Writes a layer's metadata: a file table, an attributes table, and the
/// inline data region, all as in-memory byte tables.
pub struct FileMetadataWriter {
    pub layer_id: u64,
    pub file_table: Vec<u8>,
    pub attr_table: Vec<u8>,
    pub inline_data: Vec<u8>,
}

impl FileMetadataWriter {
    /// Both tables hold at least their header.
    pub open spec fn wf(&self) -> bool {
        &&& self.file_table@.len() >= TABLE_HEADER_LEN
        &&& self.attr_table@.len() >= TABLE_HEADER_LEN
    }

    /// Fresh tables holding only their version headers.
    pub fn new(layer_id: u64) -> (r: Self)
        ensures
            r.wf(),
            r.layer_id == layer_id,
            r.file_table@ == enc_le(LAYER_FS_VERSION as nat, 8),
            r.attr_table@ == enc_le(LAYER_FS_VERSION as nat, 8),
            r.inline_data@.len() == 0,
    {
        let mut file_table: Vec<u8> = Vec::new();
        let mut attr_table: Vec<u8> = Vec::new();
        proof {
            lemma_pow256_8();
            lemma_enc_le_len(LAYER_FS_VERSION as nat, 8);
        }
        encode_le(&mut file_table, LAYER_FS_VERSION, 8);
        encode_le(&mut attr_table, LAYER_FS_VERSION, 8);
        proof {
            assert(file_table@ =~= enc_le(LAYER_FS_VERSION as nat, 8));
            assert(attr_table@ =~= enc_le(LAYER_FS_VERSION as nat, 8));
        }
        FileMetadataWriter { layer_id, file_table, attr_table, inline_data: Vec::new() }
    }

    /// Append one file: its attributes go to the attributes table, inline
    /// bytes to the data region, and the entry to the file table. The
    /// returned id names the entry by its one-based offset.
    pub fn insert_file(&mut self, kind: FileType, attrs: FileAttributes, data: FileDataInput)
        -> (r: FileId)
        requires
            old(self).wf(),
            old(self).file_table@.len() < 0xffffffff,
            old(self).attr_table@.len() < 0xffffffffffffffff,
            old(self).inline_data@.len() < 0xffffffffffffffff,
            data matches FileDataInput::Digest { digest, .. } ==> digest@.len() < 0x100000000,
            data matches FileDataInput::Inline(bytes) ==> bytes@.len() < 0x100000000,
        ensures
            final(self).wf(),
            final(self).layer_id == old(self).layer_id,
            r.layer == old(self).layer_id,
            r.offset as int == old(self).file_table@.len() - TABLE_HEADER_LEN + 1,
            final(self).attr_table@ == old(self).attr_table@ + enc_attrs(attrs),
            ({
                let attr_id = (old(self).attr_table@.len() - TABLE_HEADER_LEN + 1) as u64;
                match data {
                    FileDataInput::Empty => final(self).file_table@ == old(self).file_table@
                        + enc_entry(kind, FileDataV::Empty, attr_id) && final(self).inline_data@
                        == old(self).inline_data@,
                    FileDataInput::Inline(bytes) => final(self).file_table@ == old(
                        self,
                    ).file_table@ + enc_entry(
                        kind,
                        FileDataV::Inline {
                            offset: old(self).inline_data@.len() as u64,
                            length: bytes@.len() as u64,
                        },
                        attr_id,
                    ) && final(self).inline_data@ == old(self).inline_data@ + bytes@,
                    FileDataInput::Digest { digest, offset, length } => final(self).file_table@
                        == old(self).file_table@ + enc_entry(
                        kind,
                        FileDataV::Digest { digest: digest@, offset, length },
                        attr_id,
                    ) && final(self).inline_data@ == old(self).inline_data@,
                }
            }),
    {
        proof {
            lemma_pow256_8();
        }
        let attr_id = (self.attr_table.len() - TABLE_HEADER_LEN + 1) as u64;
        write_attrs(&mut self.attr_table, attrs);
        let entry_offset = (self.file_table.len() - TABLE_HEADER_LEN + 1) as u32;

        let tag: u8 = match kind {
            FileType::Directory => 0,
            FileType::RegularFile => 1,
            FileType::Symlink => 2,
        };
        let ghost ft0 = self.file_table@;
        self.file_table.push(tag);
        match data {
            FileDataInput::Empty => {
                self.file_table.push(0);
                encode_le(&mut self.file_table, attr_id, 8);
                proof {
                    assert(self.file_table@ =~= ft0 + enc_entry(
                        kind,
                        FileDataV::Empty,
                        attr_id,
                    ));
                }
            },
            FileDataInput::Inline(bytes) => {
                self.file_table.push(1);
                let offset = self.inline_data.len() as u64;
                let length = bytes.len() as u64;
                encode_le(&mut self.file_table, offset, 8);
                encode_le(&mut self.file_table, length, 8);
                encode_le(&mut self.file_table, attr_id, 8);
                let ghost id0 = self.inline_data@;
                let ghost ft_now = self.file_table@;
                let ghost at_now = self.attr_table@;
                let ghost lid = self.layer_id;
                let mut k: usize = 0;
                while k < bytes.len()
                    invariant
                        k <= bytes@.len(),
                        self.inline_data@ == id0 + bytes@.subrange(0, k as int),
                        self.file_table@ == ft_now,
                        self.attr_table@ == at_now,
                        self.layer_id == lid,
                    decreases bytes@.len() - k,
                {
                    self.inline_data.push(bytes[k]);
                    proof {
                        assert(self.inline_data@ =~= id0 + bytes@.subrange(0, k + 1 as int));
                    }
                    k = k + 1;
                }
                proof {
                    assert(bytes@.subrange(0, bytes@.len() as int) =~= bytes@);
                    assert(self.file_table@ =~= ft0 + enc_entry(
                        kind,
                        FileDataV::Inline { offset, length },
                        attr_id,
                    ));
                }
            },
            FileDataInput::Digest { digest, offset, length } => {
                self.file_table.push(2);
                encode_le(&mut self.file_table, digest.len() as u64, 4);
                let ghost ftd = self.file_table@;
                let ghost at_now = self.attr_table@;
                let ghost id_now = self.inline_data@;
                let ghost lid = self.layer_id;
                let mut k: usize = 0;
                while k < digest.len()
                    invariant
                        k <= digest@.len(),
                        self.file_table@ == ftd + digest@.subrange(0, k as int),
                        self.attr_table@ == at_now,
                        self.inline_data@ == id_now,
                        self.layer_id == lid,
                    decreases digest@.len() - k,
                {
                    self.file_table.push(digest[k]);
                    proof {
                        assert(self.file_table@ =~= ftd + digest@.subrange(0, k + 1 as int));
                    }
                    k = k + 1;
                }
                encode_le(&mut self.file_table, offset, 8);
                encode_le(&mut self.file_table, length, 8);
                encode_le(&mut self.file_table, attr_id, 8);
                proof {
                    assert(digest@.subrange(0, digest@.len() as int) =~= digest@);
                    assert(self.file_table@ =~= ft0 + enc_entry(
                        kind,
                        FileDataV::Digest { digest: digest@, offset, length },
                        attr_id,
                    ));
                }
            },
        }
        FileId { layer: self.layer_id, offset: entry_offset }
    }

    /// Replace the attributes of an already-written entry. The new record
    /// is written over the old one — both are the same fixed size — and
    /// nothing else moves.
    pub fn update_attributes(&mut self, id: FileId, attrs: FileAttributes) -> (r: Result<
        (),
        (),
    >)
        requires
            old(self).wf(),
        ensures
            final(self).wf(),
            final(self).layer_id == old(self).layer_id,
            final(self).file_table@ == old(self).file_table@,
            final(self).inline_data@ == old(self).inline_data@,
            match r {
                Ok(()) => dec_entry(
                    old(self).file_table@,
                    TABLE_HEADER_LEN + id.offset - 1,
                ) matches Some(entry) && {
                    let pos = TABLE_HEADER_LEN + entry.2 - 1;
                    &&& 0 <= pos
                    &&& pos + ATTR_RECORD_LEN <= old(self).attr_table@.len()
                    &&& final(self).attr_table@ =~= old(self).attr_table@.subrange(0, pos)
                        + enc_attrs(attrs) + old(self).attr_table@.subrange(
                        pos + ATTR_RECORD_LEN,
                        old(self).attr_table@.len() as int,
                    )
                },
                Err(_) => final(self).attr_table@ == old(self).attr_table@,
            },
    {
        let (attr_id, found) = match self.find_attr_id(id) {
            Some(a) => (a, true),
            None => (0u64, false),
        };
        if !found {
            return Err(());
        }
        if attr_id < 1 {
            return Err(());
        }
        let pos128: u64 = attr_id - 1;
        if pos128 > usize::MAX as u64 - TABLE_HEADER_LEN as u64 {
            return Err(());
        }
        let pos: usize = TABLE_HEADER_LEN + pos128 as usize;
        if pos > self.attr_table.len() || self.attr_table.len() - pos < ATTR_RECORD_LEN {
            return Err(());
        }
        let mut record: Vec<u8> = Vec::new();
        write_attrs(&mut record, attrs);
        proof {
            lemma_enc_le_len(attrs.size as nat, 8);
            lemma_enc_le_len(attrs.mode as nat, 4);
            lemma_enc_le_len(attrs.mtime as nat, 8);
        }
        let ghost at0 = self.attr_table@;
        let ghost ft0 = self.file_table@;
        let ghost id0 = self.inline_data@;
        let alen = self.attr_table.len();
        let mut k: usize = 0;
        while k < ATTR_RECORD_LEN
            invariant
                k <= ATTR_RECORD_LEN,
                record@ == enc_attrs(attrs),
                record@.len() == ATTR_RECORD_LEN,
                pos <= alen,
                alen - pos >= ATTR_RECORD_LEN,
                alen == at0.len(),
                self.attr_table@.len() == at0.len(),
                self.file_table@ == ft0,
                self.inline_data@ == id0,
                self.layer_id == old(self).layer_id,
                forall|w: int|
                    0 <= w < at0.len() && !(pos <= w < pos + k) ==> self.attr_table@[w]
                        == at0[w],
                forall|w: int|
                    pos <= w < pos + k ==> #[trigger] self.attr_table@[w] == record@[w - pos],
            decreases ATTR_RECORD_LEN - k,
        {
            self.attr_table.set(pos + k, record[k]);
            k = k + 1;
        }
        proof {
            assert(self.attr_table@ =~= at0.subrange(0, pos as int) + enc_attrs(attrs)
                + at0.subrange(pos + ATTR_RECORD_LEN, at0.len() as int));
        }
        Ok(())
    }

    /// The attributes id of the entry an id names, read back from the file
    /// table.
    fn find_attr_id(&self, id: FileId) -> (r: Option<u64>)
        ensures
            match r {
                Some(attr_id) => dec_entry(
                    self.file_table@,
                    TABLE_HEADER_LEN + id.offset - 1,
                ) matches Some(entry) && entry.2 == attr_id,
                None => true,
            },
    {
        if id.offset == 0 {
            return None;
        }
        let n = self.file_table.len();
        let off128: u64 = TABLE_HEADER_LEN as u64 + id.offset as u64 - 1;
        if off128 >= n as u64 || n - (off128 as usize) < 2 {
            return None;
        }
        let off = off128 as usize;
        let kind_byte = self.file_table[off];
        if kind_byte > 2 {
            return None;
        }
        let tag = self.file_table[off + 1];
        if tag == 0 {
            if n - off < 10 {
                return None;
            }
            Some(decode_le(&self.file_table, off + 2, 8))
        } else if tag == 1 {
            if n - off < 26 {
                return None;
            }
            Some(decode_le(&self.file_table, off + 18, 8))
        } else if tag == 2 {
            if n - off < 6 {
                return None;
            }
            let dlen64 = decode_le(&self.file_table, off + 2, 4);
            if dlen64 > (usize::MAX as u64) {
                return None;
            }
            let dlen = dlen64 as usize;
            if n - off - 6 < dlen || n - off - 6 - dlen < 24 {
                return None;
            }
            Some(decode_le(&self.file_table, off + 22 + dlen, 8))
        } else {
            None
        }
    }

    /// Nothing is buffered: the tables are always complete.
    pub fn flush(&mut self)
        ensures
            *final(self) == *old(self),
    {
    }
}

/// Reads a layer's metadata back from its two tables.
pub struct FileMetadataReader {
    pub layer_id: u64,
    pub file_table: Vec<u8>,
    pub attr_table: Vec<u8>,
}

impl FileMetadataReader {
    /// Open the two tables of one layer; their version fields must hold
    /// the version this codec writes.
    pub fn new(layer_id: u64, file_table: Vec<u8>, attr_table: Vec<u8>) -> (r: Result<
        Self,
        (),
    >)
        ensures
            r matches Ok(reader) ==> {
                &&& reader.layer_id == layer_id
                &&& reader.file_table@ == file_table@
                &&& reader.attr_table@ == attr_table@
                &&& file_table@.len() >= TABLE_HEADER_LEN
                &&& attr_table@.len() >= TABLE_HEADER_LEN
                &&& dec_le(file_table@.subrange(0, 8)) == LAYER_FS_VERSION
                &&& dec_le(attr_table@.subrange(0, 8)) == LAYER_FS_VERSION
            },
    {
        if file_table.len() < TABLE_HEADER_LEN || attr_table.len() < TABLE_HEADER_LEN {
            return Err(());
        }
        let fv = decode_le(&file_table, 0, 8);
        let av = decode_le(&attr_table, 0, 8);
        if fv != LAYER_FS_VERSION || av != LAYER_FS_VERSION {
            return Err(());
        }
        Ok(FileMetadataReader { layer_id, file_table, attr_table })
    }

    /// The position in the file table that an id names.
    pub open spec fn entry_pos(&self, id: FileId) -> int {
        TABLE_HEADER_LEN + id.offset - 1
    }

    /// The kind and data pointer of one entry.
    pub fn get_data(&self, id: FileId) -> (r: Result<(FileType, FileData), ()>)
        requires
            id.layer == self.layer_id,
        ensures
            match r {
                Ok((t, d)) => dec_entry(self.file_table@, self.entry_pos(id)) matches Some(
                    entry,
                ) && entry.0 == t && entry.1 == d@,
                Err(_) => dec_entry(self.file_table@, self.entry_pos(id)) is None || id.offset
                    == 0,
            },
    {
        match self.read_entry(id) {
            Ok((t, d, _)) => Ok((t, d)),
            Err(()) => Err(()),
        }
    }

    /// The kind and attributes of one entry.
    pub fn get_attr(&self, id: FileId) -> (r: Result<(FileType, FileAttributes), ()>)
        requires
            id.layer == self.layer_id,
        ensures
            match r {
                Ok((t, a)) => dec_entry(self.file_table@, self.entry_pos(id)) matches Some(
                    entry,
                ) && entry.0 == t && a == dec_attrs(
                    self.attr_table@,
                    TABLE_HEADER_LEN + entry.2 - 1,
                ),
                Err(_) => true,
            },
    {
        let (t, _, attr_id) = match self.read_entry(id) {
            Ok(e) => e,
            Err(()) => {
                return Err(());
            },
        };
        if attr_id < 1 {
            return Err(());
        }
        let pos128: u64 = attr_id - 1;
        if pos128 > usize::MAX as u64 - TABLE_HEADER_LEN as u64 {
            return Err(());
        }
        let pos: usize = TABLE_HEADER_LEN + pos128 as usize;
        if pos > self.attr_table.len() || self.attr_table.len() - pos < ATTR_RECORD_LEN {
            return Err(());
        }
        let a = read_attrs(&self.attr_table, pos);
        Ok((t, a))
    }

    /// Decode the entry an id names.
    fn read_entry(&self, id: FileId) -> (r: Result<(FileType, FileData, u64), ()>)
        ensures
            match r {
                Ok((t, d, attr_id)) => dec_entry(self.file_table@, self.entry_pos(id))
                    matches Some(entry) && entry.0 == t && entry.1 == d@ && entry.2 == attr_id,
                Err(_) => dec_entry(self.file_table@, self.entry_pos(id)) is None
                    || id.offset == 0,
            },
    {
        if id.offset == 0 {
            return Err(());
        }
        let n = self.file_table.len();
        let off128: u64 = TABLE_HEADER_LEN as u64 + id.offset as u64 - 1;
        if off128 >= n as u64 || n - (off128 as usize) < 2 {
            return Err(());
        }
        let off = off128 as usize;
        let kind_byte = self.file_table[off];
        let t = if kind_byte == 0 {
            FileType::Directory
        } else if kind_byte == 1 {
            FileType::RegularFile
        } else if kind_byte == 2 {
            FileType::Symlink
        } else {
            return Err(());
        };
        let tag = self.file_table[off + 1];
        if tag == 0 {
            if n - off < 10 {
                return Err(());
            }
            let attr_id = decode_le(&self.file_table, off + 2, 8);
            Ok((t, FileData::Empty, attr_id))
        } else if tag == 1 {
            if n - off < 26 {
                return Err(());
            }
            let offset = decode_le(&self.file_table, off + 2, 8);
            let length = decode_le(&self.file_table, off + 10, 8);
            let attr_id = decode_le(&self.file_table, off + 18, 8);
            Ok((t, FileData::Inline { offset, length }, attr_id))
        } else if tag == 2 {
            if n - off < 6 {
                return Err(());
            }
            let dlen64 = decode_le(&self.file_table, off + 2, 4);
            if dlen64 > (usize::MAX as u64) {
                return Err(());
            }
            let dlen = dlen64 as usize;
            if n - off < 6 || n - off - 6 < dlen || n - off - 6 - dlen < 24 {
                return Err(());
            }
            let mut digest: Vec<u8> = Vec::new();
            let mut k: usize = 0;
            while k < dlen
                invariant
                    k <= dlen,
                    n == self.file_table@.len(),
                    off + 6 + dlen <= n,
                    digest@ == self.file_table@.subrange(off + 6, off + 6 + k),
                decreases dlen - k,
            {
                digest.push(self.file_table[off + 6 + k]);
                proof {
                    assert(digest@ =~= self.file_table@.subrange(off + 6, off + 6 + k + 1));
                }
                k = k + 1;
            }
            let offset = decode_le(&self.file_table, off + 6 + dlen, 8);
            let length = decode_le(&self.file_table, off + 14 + dlen, 8);
            let attr_id = decode_le(&self.file_table, off + 22 + dlen, 8);
            Ok((t, FileData::Digest { digest, offset, length }, attr_id))
        } else {
            Err(())
        }
    }
}

} // verus!
