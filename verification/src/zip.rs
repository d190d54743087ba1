//! A minimal, fully deterministic PKZIP writer.
//!
//! Entries are stored uncompressed, in the order in which they are added, each
//! with the same fixed time stamp, so that the archive depends on nothing but
//! the names and contents.
use vstd::prelude::*;
use vstd::string::*;

verus! {

/// The DOS date of 1980-01-01.
pub const FIXED_DOS_DATE: u16 = 0x0021;

/// The DOS time of midnight.
pub const FIXED_DOS_TIME: u16 = 0x0000;

/// Marks a local file header.
pub const LOCAL_FILE_HEADER_SIG: u32 = 0x0403_4b50;

/// Marks a central directory header.
pub const CENTRAL_DIR_HEADER_SIG: u32 = 0x0201_4b50;

/// Marks the end of the central directory.
pub const END_OF_CENTRAL_DIR_SIG: u32 = 0x0605_4b50;

/// Version 2.0: stored entries and nothing more.
pub const VERSION: u16 = 20;

// ---------------------------------------------------------------------------
// CRC-32
// ---------------------------------------------------------------------------

/// One bit of division by the reflected polynomial.
pub open spec fn crc_bit(c: u32) -> u32 {
    if c & 1 != 0 {
        (c >> 1) ^ 0xEDB8_8320
    } else {
        c >> 1
    }
}

/// Eight bits of division.
pub open spec fn crc_eight(c: u32) -> u32 {
    crc_bit(crc_bit(crc_bit(crc_bit(crc_bit(crc_bit(crc_bit(crc_bit(c))))))))
}

/// The remainder after the bytes of `data`, bit by bit.
pub open spec fn crc_rem(data: Seq<u8>) -> u32
    decreases data.len(),
{
    if data.len() == 0 {
        0xFFFF_FFFF
    } else {
        crc_eight(crc_rem(data.drop_last()) ^ (data.last() as u32))
    }
}

/// The CRC-32 checksum of `data`.
pub open spec fn crc32_of(data: Seq<u8>) -> u32 {
    crc_rem(data) ^ 0xFFFF_FFFF
}

/// Division is linear: a byte-indexed table can do eight bits at once.
proof fn lemma_crc_table(c: u32)
    ensures
        crc_eight(c) == (c >> 8) ^ crc_eight(c & 0xFF),
        c & 0xFF < 256,
{
    assert(crc_eight(c) == (c >> 8) ^ crc_eight(c & 0xFF)) by (bit_vector);
    assert(c & 0xFF < 256) by (bit_vector);
}

/// The remainders of the 256 bytes.
pub fn build_crc32_table() -> (r: Vec<u32>)
    ensures
        r@.len() == 256,
        forall|i: int| 0 <= i < 256 ==> r@[i] == crc_eight(i as u32),
{
    let mut table: Vec<u32> = Vec::new();
    let mut i: u32 = 0;
    while i < 256
        invariant
            i <= 256,
            table@.len() == i,
            forall|k: int| 0 <= k < i ==> table@[k] == crc_eight(k as u32),
        decreases 256 - i,
    {
        let mut crc: u32 = i;
        let mut j: u32 = 0;
        while j < 8
            invariant
                j <= 8,
                j == 0 ==> crc_eight(crc) == crc_eight(i),
                j == 1 ==> crc_bit(crc_bit(crc_bit(crc_bit(crc_bit(crc_bit(crc_bit(crc)))))))
                    == crc_eight(i),
                j == 2 ==> crc_bit(crc_bit(crc_bit(crc_bit(crc_bit(crc_bit(crc)))))) == crc_eight(
                    i,
                ),
                j == 3 ==> crc_bit(crc_bit(crc_bit(crc_bit(crc_bit(crc))))) == crc_eight(i),
                j == 4 ==> crc_bit(crc_bit(crc_bit(crc_bit(crc)))) == crc_eight(i),
                j == 5 ==> crc_bit(crc_bit(crc_bit(crc))) == crc_eight(i),
                j == 6 ==> crc_bit(crc_bit(crc)) == crc_eight(i),
                j == 7 ==> crc_bit(crc) == crc_eight(i),
                j == 8 ==> crc == crc_eight(i),
            decreases 8 - j,
        {
            if crc & 1 != 0 {
                crc = (crc >> 1) ^ 0xEDB8_8320;
            } else {
                crc = crc >> 1;
            }
            j = j + 1;
        }
        table.push(crc);
        i = i + 1;
    }
    table
}

/// The CRC-32 checksum of `data`.
pub fn crc32(data: &[u8]) -> (r: u32)
    ensures
        r == crc32_of(data@),
{
    let table = build_crc32_table();
    let mut crc: u32 = 0xFFFF_FFFF;
    let mut i: usize = 0;
    while i < data.len()
        invariant
            i <= data@.len(),
            table@.len() == 256,
            forall|k: int| 0 <= k < 256 ==> table@[k] == crc_eight(k as u32),
            crc == crc_rem(data@.take(i as int)),
        decreases data@.len() - i,
    {
        let byte: u8 = data[i];
        let mixed: u32 = crc ^ (byte as u32);
        proof {
            lemma_crc_table(mixed);
            assert(mixed >> 8 == crc >> 8) by (bit_vector)
                requires
                    mixed == crc ^ (byte as u32),
            ;
            assert(data@.take(i + 1).drop_last() =~= data@.take(i as int));
        }
        let idx: usize = (mixed & 0xFF) as usize;
        crc = (crc >> 8) ^ table[idx];
        i = i + 1;
    }
    assert(data@.take(data@.len() as int) =~= data@);
    crc ^ 0xFFFF_FFFF
}

// ---------------------------------------------------------------------------
// Little-endian numbers
// ---------------------------------------------------------------------------

/// The two bytes of `v`, low byte first.
pub open spec fn le16(v: u16) -> Seq<u8> {
    seq![(v & 0xFF) as u8, (v >> 8) as u8]
}

/// The four bytes of `v`, low byte first.
pub open spec fn le32(v: u32) -> Seq<u8> {
    seq![
        (v & 0xFF) as u8,
        ((v >> 8) & 0xFF) as u8,
        ((v >> 16) & 0xFF) as u8,
        (v >> 24) as u8,
    ]
}

/// Appends the two bytes of `v`, low byte first.
pub fn push_u16(buf: &mut Vec<u8>, v: u16)
    ensures
        final(buf)@ == old(buf)@ + le16(v),
{
    buf.push((v & 0xFF) as u8);
    buf.push((v >> 8) as u8);
    assert(buf@ =~= old(buf)@ + le16(v));
}

/// Appends the four bytes of `v`, low byte first.
pub fn push_u32(buf: &mut Vec<u8>, v: u32)
    ensures
        final(buf)@ == old(buf)@ + le32(v),
{
    buf.push((v & 0xFF) as u8);
    buf.push(((v >> 8) & 0xFF) as u8);
    buf.push(((v >> 16) & 0xFF) as u8);
    buf.push((v >> 24) as u8);
    assert(buf@ =~= old(buf)@ + le32(v));
}

/// Appends `bytes`.
pub fn push_bytes(buf: &mut Vec<u8>, bytes: &[u8])
    ensures
        final(buf)@ == old(buf)@ + bytes@,
{
    let ghost start = buf@;
    let mut i: usize = 0;
    assert(start + bytes@.take(0) =~= start);
    while i < bytes.len()
        invariant
            i <= bytes@.len(),
            buf@ == start + bytes@.take(i as int),
        decreases bytes@.len() - i,
    {
        buf.push(bytes[i]);
        assert((start + bytes@.take(i as int)).push(bytes@[i as int]) =~= start + bytes@.take(
            i + 1,
        ));
        i = i + 1;
    }
    assert(bytes@.take(bytes@.len() as int) =~= bytes@);
}

// ---------------------------------------------------------------------------
// The archive
// ---------------------------------------------------------------------------

/// A name and what is stored under it.
#[verifier::ext_equal]
pub struct Stored {
    pub name: Seq<char>,
    pub data: Seq<u8>,
}

/// The bytes of a name.
pub open spec fn name_bytes(e: Stored) -> Seq<u8> {
    vstd::utf8::encode_utf8(e.name)
}

/// An entry: its header, its name, its contents.
pub open spec fn local_record(e: Stored) -> Seq<u8> {
    le32(LOCAL_FILE_HEADER_SIG) + le16(VERSION) + le16(0) + le16(0) + le16(FIXED_DOS_TIME) + le16(
        FIXED_DOS_DATE,
    ) + le32(crc32_of(e.data)) + le32(e.data.len() as u32) + le32(e.data.len() as u32) + le16(
        name_bytes(e).len() as u16,
    ) + le16(0) + name_bytes(e) + e.data
}

/// The entries, one after another.
pub open spec fn local_records(s: Seq<Stored>) -> Seq<u8>
    decreases s.len(),
{
    if s.len() == 0 {
        Seq::empty()
    } else {
        local_records(s.drop_last()) + local_record(s.last())
    }
}

/// The central directory's header for an entry at byte `offset`.
pub open spec fn central_record(e: Stored, offset: int) -> Seq<u8> {
    le32(CENTRAL_DIR_HEADER_SIG) + le16(VERSION) + le16(VERSION) + le16(0) + le16(0) + le16(
        FIXED_DOS_TIME,
    ) + le16(FIXED_DOS_DATE) + le32(crc32_of(e.data)) + le32(e.data.len() as u32) + le32(
        e.data.len() as u32,
    ) + le16(name_bytes(e).len() as u16) + le16(0) + le16(0) + le16(0) + le16(0) + le32(0) + le32(
        offset as u32,
    ) + name_bytes(e)
}

/// The byte at which the entry `i` begins.
pub open spec fn entry_offset(s: Seq<Stored>, i: int) -> int {
    local_records(s.take(i)).len() as int
}

/// The central directory's headers for the first `n` entries.
pub open spec fn central_directory(s: Seq<Stored>, n: int) -> Seq<u8>
    decreases n,
{
    if n <= 0 {
        Seq::empty()
    } else {
        central_directory(s, n - 1) + central_record(s[n - 1], entry_offset(s, n - 1))
    }
}

/// The record that closes an archive of `count` entries, whose central
/// directory begins at `start` and ends at `end`.
pub open spec fn end_record(count: int, start: int, end: int) -> Seq<u8> {
    le32(END_OF_CENTRAL_DIR_SIG) + le16(0) + le16(0) + le16(count as u16) + le16(count as u16)
        + le32((end as u32).wrapping_sub(start as u32)) + le32(start as u32) + le16(0)
}

/// The archive of the entries `s`.
pub open spec fn archive(s: Seq<Stored>) -> Seq<u8> {
    let body = local_records(s);
    let directory = central_directory(s, s.len() as int);
    body + directory + end_record(
        s.len() as int,
        body.len() as int,
        (body.len() + directory.len()) as int,
    )
}

/// What the central directory says of an entry.
struct CentralEntry {
    name: String,
    crc32: u32,
    size: u32,
    local_header_offset: u32,
}

/// A deterministic writer of uncompressed archives.
///
/// Its view is the list of entries added so far.
pub struct ZipWriter {
    buf: Vec<u8>,
    entries: Vec<CentralEntry>,
    added: Ghost<Seq<Stored>>,
}

impl View for ZipWriter {
    type V = Seq<Stored>;

    closed spec fn view(&self) -> Seq<Stored> {
        self.added@
    }
}

impl ZipWriter {
    /// The buffer holds the entries, and the directory describes them.
    #[verifier::type_invariant]
    closed spec fn wf(self) -> bool {
        &&& self.buf@ == local_records(self.added@)
        &&& self.entries@.len() == self.added@.len()
        &&& forall|i: int|
            0 <= i < self.added@.len() ==> {
                let e = #[trigger] self.entries@[i];
                &&& e.name@ == self.added@[i].name
                &&& e.crc32 == crc32_of(self.added@[i].data)
                &&& e.size == self.added@[i].data.len() as u32
                &&& e.local_header_offset == entry_offset(self.added@, i) as u32
            }
    }

    /// A writer without entries.
    pub fn new() -> (r: Self)
        ensures
            r@ == Seq::<Stored>::empty(),
    {
        ZipWriter { buf: Vec::new(), entries: Vec::new(), added: Ghost(Seq::empty()) }
    }

    /// Adds the entry `name` with the contents `data`.
    pub fn add(&mut self, name: &str, data: &[u8])
        ensures
            final(self)@ == old(self)@.push(Stored { name: name@, data: data@ }),
    {
        proof {
            use_type_invariant(&*self);
        }
        let ghost e = Stored { name: name@, data: data@ };
        let ghost before = self.added@;
        let crc: u32 = crc32(data);
        let size: u32 = data.len() as u32;
        let bytes: &[u8] = name.as_bytes();

        let mut record: Vec<u8> = Vec::new();
        push_u32(&mut record, LOCAL_FILE_HEADER_SIG);
        assert(record@ =~= le32(LOCAL_FILE_HEADER_SIG));
        push_u16(&mut record, VERSION);
        push_u16(&mut record, 0);
        push_u16(&mut record, 0);
        push_u16(&mut record, FIXED_DOS_TIME);
        push_u16(&mut record, FIXED_DOS_DATE);
        push_u32(&mut record, crc);
        push_u32(&mut record, size);
        push_u32(&mut record, size);
        push_u16(&mut record, bytes.len() as u16);
        push_u16(&mut record, 0);
        push_bytes(&mut record, bytes);
        push_bytes(&mut record, data);
        assert(record@ == local_record(e));

        let mut fresh = ZipWriter::new();
        std::mem::swap(&mut fresh, self);
        let ZipWriter { buf: mut buf, entries: mut entries, added: _ } = fresh;
        let local_header_offset: u32 = buf.len() as u32;
        push_bytes(&mut buf, record.as_slice());
        entries.push(
            CentralEntry { name: String::from_str(name), crc32: crc, size, local_header_offset },
        );
        proof {
            let after = before.push(e);
            assert(after.drop_last() =~= before);
            assert forall|i: int| 0 <= i < after.len() implies ({
                let c = #[trigger] entries@[i];
                &&& c.name@ == after[i].name
                &&& c.crc32 == crc32_of(after[i].data)
                &&& c.size == after[i].data.len() as u32
                &&& c.local_header_offset == entry_offset(after, i) as u32
            }) by {
                assert(after.take(i) =~= before.take(i));
                if i == before.len() {
                    assert(before.take(i) =~= before);
                }
            }
        }
        *self = ZipWriter { buf, entries, added: Ghost(before.push(e)) };
    }

    /// The archive.
    pub fn finish(self) -> (r: Vec<u8>)
        ensures
            r@ == archive(self@),
    {
        proof {
            use_type_invariant(&self);
        }
        let ghost s = self.added@;
        let ZipWriter { buf: mut buf, entries, added: _ } = self;
        let ghost body = buf@;
        let cd_start: u32 = buf.len() as u32;
        let mut i: usize = 0;
        assert(body + central_directory(s, 0) =~= body);
        while i < entries.len()
            invariant
                i <= entries@.len(),
                entries@.len() == s.len(),
                buf@ == body + central_directory(s, i as int),
                forall|k: int|
                    0 <= k < s.len() ==> {
                        let e = #[trigger] entries@[k];
                        &&& e.name@ == s[k].name
                        &&& e.crc32 == crc32_of(s[k].data)
                        &&& e.size == s[k].data.len() as u32
                        &&& e.local_header_offset == entry_offset(s, k) as u32
                    },
            decreases entries@.len() - i,
        {
            let entry = &entries[i];
            let bytes: &[u8] = entry.name.as_str().as_bytes();
            let mut record: Vec<u8> = Vec::new();
            push_u32(&mut record, CENTRAL_DIR_HEADER_SIG);
            assert(record@ =~= le32(CENTRAL_DIR_HEADER_SIG));
            push_u16(&mut record, VERSION);
            push_u16(&mut record, VERSION);
            push_u16(&mut record, 0);
            push_u16(&mut record, 0);
            push_u16(&mut record, FIXED_DOS_TIME);
            push_u16(&mut record, FIXED_DOS_DATE);
            push_u32(&mut record, entry.crc32);
            push_u32(&mut record, entry.size);
            push_u32(&mut record, entry.size);
            push_u16(&mut record, bytes.len() as u16);
            push_u16(&mut record, 0);
            push_u16(&mut record, 0);
            push_u16(&mut record, 0);
            push_u16(&mut record, 0);
            push_u32(&mut record, 0);
            push_u32(&mut record, entry.local_header_offset);
            push_bytes(&mut record, bytes);
            assert(record@ == central_record(s[i as int], entry_offset(s, i as int)));
            push_bytes(&mut buf, record.as_slice());
            assert(body + central_directory(s, i as int) + record@ =~= body + central_directory(
                s,
                i + 1,
            ));
            i = i + 1;
        }
        let cd_end: u32 = buf.len() as u32;
        let cd_size: u32 = cd_end.wrapping_sub(cd_start);
        let entry_count: u16 = entries.len() as u16;
        let mut record: Vec<u8> = Vec::new();
        push_u32(&mut record, END_OF_CENTRAL_DIR_SIG);
        assert(record@ =~= le32(END_OF_CENTRAL_DIR_SIG));
        push_u16(&mut record, 0);
        push_u16(&mut record, 0);
        push_u16(&mut record, entry_count);
        push_u16(&mut record, entry_count);
        push_u32(&mut record, cd_size);
        push_u32(&mut record, cd_start);
        push_u16(&mut record, 0);
        push_bytes(&mut buf, record.as_slice());
        buf
    }
}

impl Default for ZipWriter {
    fn default() -> (r: Self)
        ensures
            r@ == Seq::<Stored>::empty(),
    {
        Self::new()
    }
}

// ---------------------------------------------------------------------------
// What an archive holds
// ---------------------------------------------------------------------------

/// An entry's header takes 30 bytes, and its name and contents follow.
pub proof fn law_local_record(e: Stored)
    ensures
        local_record(e).len() == 30 + name_bytes(e).len() + e.data.len(),
        local_record(e).subrange(0, 4) == le32(LOCAL_FILE_HEADER_SIG),
        local_record(e).subrange(8, 10) == le16(0),
        local_record(e).subrange(18, 22) == le32(e.data.len() as u32),
        local_record(e).subrange(22, 26) == le32(e.data.len() as u32),
        local_record(e).subrange(30, 30 + name_bytes(e).len() as int) == name_bytes(e),
        local_record(e).skip(30 + name_bytes(e).len() as int) == e.data,
{
    let r = local_record(e);
    assert(r.subrange(0, 4) =~= le32(LOCAL_FILE_HEADER_SIG));
    assert(r.subrange(8, 10) =~= le16(0));
    assert(r.subrange(18, 22) =~= le32(e.data.len() as u32));
    assert(r.subrange(22, 26) =~= le32(e.data.len() as u32));
    assert(r.subrange(30, 30 + name_bytes(e).len() as int) =~= name_bytes(e));
    assert(r.skip(30 + name_bytes(e).len() as int) =~= e.data);
}

proof fn lemma_records_extend(s: Seq<Stored>, i: int)
    requires
        0 <= i < s.len(),
    ensures
        entry_offset(s, i) + local_record(s[i]).len() == entry_offset(s, i + 1),
        local_records(s.take(i + 1)).subrange(entry_offset(s, i), entry_offset(s, i + 1))
            == local_record(s[i]),
{
    assert(s.take(i + 1).drop_last() =~= s.take(i));
    assert(local_records(s.take(i + 1)).subrange(entry_offset(s, i), entry_offset(s, i + 1))
        =~= local_record(s[i]));
}

proof fn lemma_records_prefix(s: Seq<Stored>, i: int)
    requires
        0 <= i <= s.len(),
    ensures
        entry_offset(s, i) <= local_records(s).len(),
        local_records(s).take(entry_offset(s, i)) == local_records(s.take(i)),
    decreases s.len() - i,
{
    if i == s.len() {
        assert(s.take(i) =~= s);
        assert(local_records(s).take(entry_offset(s, i)) =~= local_records(s));
    } else {
        lemma_records_prefix(s, i + 1);
        lemma_records_extend(s, i);
        assert(s.take(i + 1).drop_last() =~= s.take(i));
        assert(local_records(s).take(entry_offset(s, i)) =~= local_records(s).take(
            entry_offset(s, i + 1),
        ).take(entry_offset(s, i)));
        assert(local_records(s.take(i + 1)).take(entry_offset(s, i)) =~= local_records(s.take(i)));
    }
}

/// An archive gives back what was added: the entry `i` stands, header, name and
/// contents, at the byte that the directory gives for it, and the entries stand
/// in the order in which they were added.
pub proof fn law_archive_holds_entries(s: Seq<Stored>, i: int)
    requires
        0 <= i < s.len(),
    ensures
        entry_offset(s, i + 1) == entry_offset(s, i) + local_record(s[i]).len(),
        entry_offset(s, i + 1) <= local_records(s).len() <= archive(s).len(),
        archive(s).subrange(entry_offset(s, i), entry_offset(s, i + 1)) == local_record(s[i]),
{
    lemma_records_extend(s, i);
    lemma_records_prefix(s, i + 1);
    let a = entry_offset(s, i);
    let b = entry_offset(s, i + 1);
    assert(archive(s).subrange(a, b) =~= local_records(s).take(b).subrange(a, b));
}

proof fn lemma_directory_prefix(s: Seq<Stored>, i: int, n: int)
    requires
        0 <= i <= n <= s.len(),
    ensures
        central_directory(s, i).len() <= central_directory(s, n).len(),
        central_directory(s, n).take(central_directory(s, i).len() as int) == central_directory(
            s,
            i,
        ),
    decreases n - i,
{
    if i == n {
        assert(central_directory(s, n).take(central_directory(s, n).len() as int)
            =~= central_directory(s, n));
    } else {
        lemma_directory_prefix(s, i, n - 1);
        assert(central_directory(s, n).take(central_directory(s, i).len() as int)
            =~= central_directory(s, n - 1).take(central_directory(s, i).len() as int));
    }
}

/// The directory lists the entries in the order in which they were added, each
/// with its name and the byte at which it begins.
pub proof fn law_directory_lists_entries(s: Seq<Stored>, i: int)
    requires
        0 <= i < s.len(),
    ensures
        ({
            let from = (local_records(s).len() + central_directory(s, i).len()) as int;
            let to = from + 46 + name_bytes(s[i]).len() as int;
            &&& to <= archive(s).len()
            &&& archive(s).subrange(from, to) == central_record(
                s[i],
                entry_offset(s, i),
            )
            &&& archive(s).subrange(from + 42, from + 46) == le32(entry_offset(s, i) as u32)
            &&& archive(s).subrange(from + 46, to) == name_bytes(s[i])
        }),
{
    let n = s.len() as int;
    lemma_directory_prefix(s, i + 1, n);
    let from = (local_records(s).len() + central_directory(s, i).len()) as int;
    let to = from + 46 + name_bytes(s[i]).len() as int;
    let c = central_record(s[i], entry_offset(s, i));
    assert(c.len() == 46 + name_bytes(s[i]).len());
    assert(c.subrange(42, 46) =~= le32(entry_offset(s, i) as u32));
    assert(c.skip(46) =~= name_bytes(s[i]));
    let d = central_directory(s, i + 1);
    assert(d.skip(central_directory(s, i).len() as int) =~= c);
    assert(archive(s).subrange(from, to) =~= central_directory(s, n).take(
        d.len() as int,
    ).skip(central_directory(s, i).len() as int));
    assert(archive(s).subrange(from + 42, from + 46) =~= archive(s).subrange(
        from,
        to,
    ).subrange(42, 46));
    assert(archive(s).subrange(from + 46, to) =~= archive(s).subrange(
        from,
        to,
    ).skip(46));
}

/// An archive ends with a record of 22 bytes that says how many entries there
/// are and where their directory begins.
pub proof fn law_archive_end(s: Seq<Stored>)
    ensures
        archive(s).len() >= 22,
        ({
            let r = archive(s).skip(archive(s).len() - 22);
            &&& r.subrange(0, 4) == le32(END_OF_CENTRAL_DIR_SIG)
            &&& r.subrange(10, 12) == le16(s.len() as u16)
            &&& r.subrange(16, 20) == le32(local_records(s).len() as u32)
        }),
{
    let n = s.len() as int;
    let body = local_records(s);
    let directory = central_directory(s, n);
    let e = end_record(n, body.len() as int, (body.len() + directory.len()) as int);
    assert(e.len() == 22);
    let r = archive(s).skip(archive(s).len() - 22);
    assert(r =~= e);
    assert(e.subrange(0, 4) =~= le32(END_OF_CENTRAL_DIR_SIG));
    assert(e.subrange(10, 12) =~= le16(n as u16));
    assert(e.subrange(16, 20) =~= le32(body.len() as u32));
}

/// A number is read back from its bytes, the low one first.
pub proof fn law_little_endian(v: u16, w: u32)
    ensures
        le16(v).len() == 2,
        le16(v)[0] + 0x100 * le16(v)[1] == v,
        le32(w).len() == 4,
        le32(w)[0] + 0x100 * le32(w)[1] + 0x1_0000 * le32(w)[2] + 0x100_0000 * le32(w)[3] == w,
{
    assert(((v & 0xFF) as u8) + 0x100 * ((v >> 8) as u8) == v) by (bit_vector);
    assert(((w & 0xFF) as u8) + 0x100 * (((w >> 8) & 0xFF) as u8) + 0x1_0000 * (((w >> 16)
        & 0xFF) as u8) + 0x100_0000 * ((w >> 24) as u8) == w) by (bit_vector);
}

/// The header of an entry begins with its mark, and gives the checksum and the length of
/// the contents, and the length of the name.
pub proof fn law_local_record_says(e: Stored)
    ensures
        local_record(e).subrange(0, 4) == seq![0x50u8, 0x4B, 0x03, 0x04],
        local_record(e).subrange(14, 18) == le32(crc32_of(e.data)),
        local_record(e).subrange(26, 28) == le16(name_bytes(e).len() as u16),
        local_record(e).subrange(28, 30) == le16(0),
{
    let r = local_record(e);
    assert(le32(LOCAL_FILE_HEADER_SIG) =~= seq![0x50u8, 0x4B, 0x03, 0x04]) by {
        assert((0x0403_4B50u32 & 0xFF) as u8 == 0x50u8 && ((0x0403_4B50u32 >> 8) & 0xFF) as u8
            == 0x4Bu8 && ((0x0403_4B50u32 >> 16) & 0xFF) as u8 == 0x03u8 && (0x0403_4B50u32
            >> 24) as u8 == 0x04u8) by (bit_vector);
    }
    assert(r.subrange(0, 4) =~= le32(LOCAL_FILE_HEADER_SIG));
    assert(r.subrange(14, 18) =~= le32(crc32_of(e.data)));
    assert(r.subrange(26, 28) =~= le16(name_bytes(e).len() as u16));
    assert(r.subrange(28, 30) =~= le16(0));
}

/// The directory gives of each entry what its header gives: the checksum and the length
/// of the contents, and the length of the name.
pub proof fn law_central_record_says(e: Stored, offset: int)
    ensures
        central_record(e, offset).len() == 46 + name_bytes(e).len(),
        central_record(e, offset).subrange(0, 4) == seq![0x50u8, 0x4B, 0x01, 0x02],
        central_record(e, offset).subrange(16, 20) == le32(crc32_of(e.data)),
        central_record(e, offset).subrange(20, 24) == le32(e.data.len() as u32),
        central_record(e, offset).subrange(24, 28) == le32(e.data.len() as u32),
        central_record(e, offset).subrange(28, 30) == le16(name_bytes(e).len() as u16),
        central_record(e, offset).subrange(42, 46) == le32(offset as u32),
        central_record(e, offset).skip(46) == name_bytes(e),
{
    let r = central_record(e, offset);
    assert(le32(CENTRAL_DIR_HEADER_SIG) =~= seq![0x50u8, 0x4B, 0x01, 0x02]) by {
        assert((0x0201_4B50u32 & 0xFF) as u8 == 0x50u8 && ((0x0201_4B50u32 >> 8) & 0xFF) as u8
            == 0x4Bu8 && ((0x0201_4B50u32 >> 16) & 0xFF) as u8 == 0x01u8 && (0x0201_4B50u32
            >> 24) as u8 == 0x02u8) by (bit_vector);
    }
    assert(r.subrange(0, 4) =~= le32(CENTRAL_DIR_HEADER_SIG));
    assert(r.subrange(16, 20) =~= le32(crc32_of(e.data)));
    assert(r.subrange(20, 24) =~= le32(e.data.len() as u32));
    assert(r.subrange(24, 28) =~= le32(e.data.len() as u32));
    assert(r.subrange(28, 30) =~= le16(name_bytes(e).len() as u16));
    assert(r.subrange(42, 46) =~= le32(offset as u32));
    assert(r.skip(46) =~= name_bytes(e));
}

/// A text that is followed by its own checksum, the low byte first, always has the same
/// checksum, whatever the text is.
pub proof fn law_checksum_checks(data: Seq<u8>)
    ensures
        crc32_of(data + le32(crc32_of(data))) == 0x2144_DF1C,
{
    let r = crc_rem(data);
    let w = le32(crc32_of(data));
    let all = data + w;
    let n = data.len() as int;
    let (d1, d2, d3) = (all.take(n + 1), all.take(n + 2), all.take(n + 3));
    assert(d1.drop_last() =~= data);
    assert(d2.drop_last() =~= d1);
    assert(d3.drop_last() =~= d2);
    assert(all.drop_last() =~= d3);
    assert(d1.last() == w[0] && d2.last() == w[1] && d3.last() == w[2] && all.last() == w[3]);
    let c = r ^ 0xFFFF_FFFF;
    let (b0, b1, b2, b3) = (w[0] as u32, w[1] as u32, w[2] as u32, w[3] as u32);
    assert(b0 == c & 0xFF && b1 == (c >> 8) & 0xFF && b2 == (c >> 16) & 0xFF && b3 == c >> 24) by {
        assert(((c & 0xFF) as u8) as u32 == c & 0xFF && (((c >> 8) & 0xFF) as u8) as u32 == (c >> 8)
            & 0xFF && (((c >> 16) & 0xFF) as u8) as u32 == (c >> 16) & 0xFF && ((c >> 24) as u8) as u32
            == c >> 24) by (bit_vector);
    }
    let s1 = crc_eight(r ^ b0);
    let s2 = crc_eight(s1 ^ b1);
    let s3 = crc_eight(s2 ^ b2);
    let s4 = crc_eight(s3 ^ b3);
    lemma_crc_table(r ^ b0);
    lemma_crc_table(s1 ^ b1);
    lemma_crc_table(s2 ^ b2);
    lemma_crc_table(s3 ^ b3);
    assert(crc_eight(0xFF) == 0x2D02_EF8D) by (bit_vector);
    assert((r ^ b0) & 0xFF == 0xFF) by (bit_vector)
        requires
            b0 == (r ^ 0xFFFF_FFFF) & 0xFF,
    ;
    assert(s1 == ((r ^ b0) >> 8) ^ 0x2D02_EF8Du32);
    assert(crc_eight(0x72) == 0xBE0B_1010) by (bit_vector);
    assert((s1 ^ b1) & 0xFF == 0x72) by (bit_vector)
        requires
            s1 == ((r ^ b0) >> 8) ^ 0x2D02_EF8Du32,
            b0 == (r ^ 0xFFFF_FFFF) & 0xFF,
            b1 == ((r ^ 0xFFFF_FFFF) >> 8) & 0xFF,
    ;
    assert(s2 == ((s1 ^ b1) >> 8) ^ 0xBE0B_1010u32);
    assert(crc_eight(0x00) == 0x0000_0000) by (bit_vector);
    assert((s2 ^ b2) & 0xFF == 0x00) by (bit_vector)
        requires
            s1 == ((r ^ b0) >> 8) ^ 0x2D02_EF8Du32,
            s2 == ((s1 ^ b1) >> 8) ^ 0xBE0B_1010u32,
            b0 == (r ^ 0xFFFF_FFFF) & 0xFF,
            b1 == ((r ^ 0xFFFF_FFFF) >> 8) & 0xFF,
            b2 == ((r ^ 0xFFFF_FFFF) >> 16) & 0xFF,
    ;
    assert(s3 == ((s2 ^ b2) >> 8) ^ 0x0000_0000u32);
    assert(crc_eight(0xED) == 0xDEBB_9EC5) by (bit_vector);
    assert((s3 ^ b3) & 0xFF == 0xED) by (bit_vector)
        requires
            s1 == ((r ^ b0) >> 8) ^ 0x2D02_EF8Du32,
            s2 == ((s1 ^ b1) >> 8) ^ 0xBE0B_1010u32,
            s3 == ((s2 ^ b2) >> 8) ^ 0x0000_0000u32,
            b0 == (r ^ 0xFFFF_FFFF) & 0xFF,
            b1 == ((r ^ 0xFFFF_FFFF) >> 8) & 0xFF,
            b2 == ((r ^ 0xFFFF_FFFF) >> 16) & 0xFF,
            b3 == (r ^ 0xFFFF_FFFF) >> 24,
    ;
    assert(s4 == ((s3 ^ b3) >> 8) ^ 0xDEBB_9EC5u32);
    assert(crc_rem(d1) == s1);
    assert(crc_rem(d2) == s2);
    assert(crc_rem(d3) == s3);
    assert(crc_rem(all) == s4);
    assert(s4 ^ 0xFFFF_FFFF == 0x2144_DF1C) by (bit_vector)
        requires
            s1 == ((r ^ b0) >> 8) ^ 0x2D02_EF8Du32,
            s2 == ((s1 ^ b1) >> 8) ^ 0xBE0B_1010u32,
            s3 == ((s2 ^ b2) >> 8) ^ 0x0000_0000u32,
            s4 == ((s3 ^ b3) >> 8) ^ 0xDEBB_9EC5u32,
            b0 == (r ^ 0xFFFF_FFFF) & 0xFF,
            b1 == ((r ^ 0xFFFF_FFFF) >> 8) & 0xFF,
            b2 == ((r ^ 0xFFFF_FFFF) >> 16) & 0xFF,
            b3 == (r ^ 0xFFFF_FFFF) >> 24,
    ;
}

} // verus!
