//! The image serializer: entry types, the binary layout model, and
//! `to_initrd`, which emits an entry list as one contiguous byte buffer.
//!
//! The layout is: a 16-byte header (magic, entry count), one 40-byte
//! descriptor per entry, then for each entry in order its name bytes and
//! its content bytes, each padded with zeros to an eight-byte boundary.
//! All integers are encoded as eight little-endian bytes. The spec function
//! `image_spec` states the whole layout; `to_initrd` is proved to return
//! exactly those bytes.

use crate::align::{
    align_to, align_up, lemma_align_is_pow2, lemma_align_up_props, spec_align_up, zeros, ALIGN,
};
use vstd::arithmetic::div_mod::{
    lemma_add_mod_noop, lemma_mod_division_less_than_divisor, lemma_mod_multiples_basic,
    lemma_small_mod,
};
use vstd::bytes::{lemma_auto_spec_u64_to_from_le_bytes, spec_u64_to_le_bytes, u64_to_le_bytes};
use vstd::prelude::*;

verus! {

/// Value at the start of every valid image; a reader rejects files that do
/// not begin with it.
pub const MAGIC: u64 = 0x39f298aa4b92e836;

/// Byte size of the serialized header: magic and entry count.
pub const HEADER_SIZE: u64 = 16;

/// Byte size of one serialized entry descriptor: five 8-byte fields.
pub const DESC_SIZE: u64 = 40;

/// Rounds a non-negative length or offset up to the image's eight-byte
/// alignment boundary.
pub open spec fn align8(n: int) -> int {
    spec_align_up(n, ALIGN as int)
}

/// The closed set of entry categories an image distinguishes.
#[derive(Clone, Copy, PartialEq, Eq, Structural, Debug)]
pub enum EntryType {
    /// An additional, unclassified file.
    Any,
    /// The first executable the kernel spawns.
    EarlyInit,
    /// The partition-list file read by the early-init program.
    PartList,
    /// The filesystem-server executable.
    FsServer,
    /// The AHCI-server executable (optional slot).
    AhciServer,
}

/// The tag recorded for each entry kind in its descriptor.
pub open spec fn kind_code(t: EntryType) -> u64 {
    match t {
        EntryType::Any => 0,
        EntryType::EarlyInit => 1,
        EntryType::PartList => 2,
        EntryType::FsServer => 3,
        EntryType::AhciServer => 4,
    }
}

impl EntryType {
    /// The numeric tag written into the image for this kind.
    pub fn code(&self) -> (c: u64)
        ensures
            c == kind_code(*self),
    {
        match self {
            EntryType::Any => 0,
            EntryType::EarlyInit => 1,
            EntryType::PartList => 2,
            EntryType::FsServer => 3,
            EntryType::AhciServer => 4,
        }
    }
}

/// The fixed-size image header.
#[derive(Clone, Copy, PartialEq, Eq, Structural, Debug)]
pub struct Header {
    /// Always `MAGIC` in an image this library builds.
    pub magic: u64,
    /// The number of entries, locating the end of the descriptor table.
    pub len: u64,
}

/// The serialized form of a header: both fields as little-endian bytes.
pub open spec fn spec_header_bytes(h: Header) -> Seq<u8> {
    spec_u64_to_le_bytes(h.magic) + spec_u64_to_le_bytes(h.len)
}

impl Header {
    /// A header for an image of `len` entries.
    pub fn new(len: u64) -> (h: Header)
        ensures
            h == (Header { magic: MAGIC, len }),
    {
        Header { magic: MAGIC, len }
    }

    /// Serializes the header into its 16 bytes.
    pub fn as_bytes(&self) -> (out: Vec<u8>)
        ensures
            out@ == spec_header_bytes(*self),
    {
        let mut out = u64_to_le_bytes(self.magic);
        let mut tail = u64_to_le_bytes(self.len);
        out.append(&mut tail);
        out
    }
}

/// One fixed-size descriptor row: the entry's kind tag and the offsets and
/// byte lengths of its name and content within the image.
#[derive(Clone, Copy, PartialEq, Eq, Structural, Debug)]
pub struct EntryRaw {
    /// The kind tag, one of the `kind_code` values.
    pub typ: u64,
    /// Byte offset of the name within the image.
    pub name: u64,
    /// Byte length of the name, without padding.
    pub name_len: u64,
    /// Byte offset of the content within the image.
    pub data: u64,
    /// Byte length of the content, without padding.
    pub data_len: u64,
}

/// The serialized form of a descriptor: its five fields as little-endian
/// bytes, in declaration order.
pub open spec fn spec_raw_bytes(r: EntryRaw) -> Seq<u8> {
    spec_u64_to_le_bytes(r.typ) + spec_u64_to_le_bytes(r.name) + spec_u64_to_le_bytes(r.name_len)
        + spec_u64_to_le_bytes(r.data) + spec_u64_to_le_bytes(r.data_len)
}

impl EntryRaw {
    /// Serializes the descriptor into its 40 bytes.
    pub fn as_bytes(&self) -> (out: Vec<u8>)
        ensures
            out@ == spec_raw_bytes(*self),
    {
        let mut out = u64_to_le_bytes(self.typ);
        let mut part = u64_to_le_bytes(self.name);
        out.append(&mut part);
        let mut part = u64_to_le_bytes(self.name_len);
        out.append(&mut part);
        let mut part = u64_to_le_bytes(self.data);
        out.append(&mut part);
        let mut part = u64_to_le_bytes(self.data_len);
        out.append(&mut part);
        proof {
            assert(out@ =~= spec_raw_bytes(*self));
        }
        out
    }
}

/// One record to be embedded in the image: a kind, an identifying name,
/// and the content bytes.
pub struct Entry {
    /// The entry's category.
    pub typ: EntryType,
    /// The identifying label, kept verbatim as bytes.
    pub name: Vec<u8>,
    /// The entry's content.
    pub data: Vec<u8>,
}

/// The mathematical model of an entry: its kind and its two byte sequences.
pub struct EntryModel {
    /// The entry's category.
    pub typ: EntryType,
    /// The name bytes.
    pub name: Seq<u8>,
    /// The content bytes.
    pub data: Seq<u8>,
}

impl View for Entry {
    type V = EntryModel;

    open spec fn view(&self) -> EntryModel {
        EntryModel { typ: self.typ, name: self.name@, data: self.data@ }
    }
}

/// The descriptor for an entry before its offsets are assigned.
pub open spec fn spec_as_raw(e: EntryModel) -> EntryRaw {
    EntryRaw {
        typ: kind_code(e.typ),
        name: 0,
        name_len: e.name.len() as u64,
        data: 0,
        data_len: e.data.len() as u64,
    }
}

impl Entry {
    /// An entry of the given kind, name, and content.
    pub fn new(typ: EntryType, name: Vec<u8>, data: Vec<u8>) -> (e: Entry)
        ensures
            e@ == (EntryModel { typ, name: name@, data: data@ }),
    {
        Entry { typ, name, data }
    }

    /// The name as a byte slice.
    pub fn name_bytes(&self) -> (r: &[u8])
        ensures
            r@ == self@.name,
    {
        self.name.as_slice()
    }

    /// The content as a byte slice.
    pub fn data_bytes(&self) -> (r: &[u8])
        ensures
            r@ == self@.data,
    {
        self.data.as_slice()
    }

    /// The entry's descriptor with both offsets still unset.
    pub fn as_raw(&self) -> (r: EntryRaw)
        ensures
            r == spec_as_raw(self@),
    {
        EntryRaw {
            typ: self.typ.code(),
            name: 0,
            name_len: self.name.len() as u64,
            data: 0,
            data_len: self.data.len() as u64,
        }
    }
}

/// The models of a sequence of entries.
pub open spec fn models(es: Seq<Entry>) -> Seq<EntryModel> {
    es.map_values(|e: Entry| e@)
}

/// The bytes one entry occupies in the data region: its name and content,
/// each padded to the alignment boundary.
pub open spec fn entry_span(e: EntryModel) -> int {
    align8(e.name.len() as int) + align8(e.data.len() as int)
}

/// Where the data region starts: right after the header and the
/// descriptor table.
pub open spec fn table_end(s: Seq<EntryModel>) -> int {
    HEADER_SIZE as int + DESC_SIZE as int * s.len() as int
}

/// The running offset just before entry `i`'s name: the end of the
/// descriptor table plus the spans of all earlier entries.
pub open spec fn cursor(s: Seq<EntryModel>, i: int) -> int
    decreases i,
{
    if i <= 0 {
        table_end(s)
    } else {
        cursor(s, i - 1) + entry_span(s[i - 1])
    }
}

/// Byte offset of entry `i`'s name within the image.
pub open spec fn name_offset(s: Seq<EntryModel>, i: int) -> int {
    cursor(s, i)
}

/// Byte offset of entry `i`'s content within the image.
pub open spec fn data_offset(s: Seq<EntryModel>, i: int) -> int {
    cursor(s, i) + align8(s[i].name.len() as int)
}

/// The total byte length of the image for the entry list `s`.
pub open spec fn total_size(s: Seq<EntryModel>) -> int {
    cursor(s, s.len() as int)
}

/// The completed descriptor of entry `i`, offsets assigned.
pub open spec fn descriptor(s: Seq<EntryModel>, i: int) -> EntryRaw {
    EntryRaw {
        typ: kind_code(s[i].typ),
        name: name_offset(s, i) as u64,
        name_len: s[i].name.len() as u64,
        data: data_offset(s, i) as u64,
        data_len: s[i].data.len() as u64,
    }
}

/// A blob followed by the zero bytes that pad it to the alignment boundary.
pub open spec fn padded(b: Seq<u8>) -> Seq<u8> {
    b + zeros(align8(b.len() as int) - b.len())
}

/// The first `i` rows of the descriptor table, serialized.
pub open spec fn table_bytes(s: Seq<EntryModel>, i: int) -> Seq<u8>
    decreases i,
{
    if i <= 0 {
        Seq::empty()
    } else {
        table_bytes(s, i - 1) + spec_raw_bytes(descriptor(s, i - 1))
    }
}

/// The data region for the first `i` entries: each name and each content,
/// padded, in entry order.
pub open spec fn region_bytes(s: Seq<EntryModel>, i: int) -> Seq<u8>
    decreases i,
{
    if i <= 0 {
        Seq::empty()
    } else {
        region_bytes(s, i - 1) + padded(s[i - 1].name) + padded(s[i - 1].data)
    }
}

/// The whole image: header, descriptor table, data region.
pub open spec fn image_spec(s: Seq<EntryModel>) -> Seq<u8> {
    spec_header_bytes(Header { magic: MAGIC, len: s.len() as u64 }) + table_bytes(
        s,
        s.len() as int,
    ) + region_bytes(s, s.len() as int)
}

/// `align8` rounds up by less than one boundary, lands on a multiple of
/// eight, and leaves an aligned value unchanged.
pub proof fn lemma_align8_props(n: int)
    requires
        0 <= n,
    ensures
        n <= align8(n),
        align8(n) < n + 8,
        align8(n) % 8 == 0,
        n % 8 == 0 ==> align8(n) == n,
{
    lemma_align_up_props(n, ALIGN as int);
}

/// Rounding up past a base that is already aligned pads only the tail.
pub proof fn lemma_align8_shift(a: int, b: int)
    requires
        0 <= a,
        0 <= b,
        a % 8 == 0,
    ensures
        align8(a + b) == a + align8(b),
{
    lemma_add_mod_noop(a, b, 8);
    lemma_mod_division_less_than_divisor(b, 8);
    lemma_small_mod((b % 8) as nat, 8nat);
}

/// The serialized descriptor table for `i` entries takes exactly
/// `DESC_SIZE * i` bytes.
pub proof fn lemma_table_len(s: Seq<EntryModel>, i: int)
    requires
        0 <= i,
    ensures
        table_bytes(s, i).len() == DESC_SIZE as int * i,
    decreases i,
{
    lemma_auto_spec_u64_to_from_le_bytes();
    if i > 0 {
        lemma_table_len(s, i - 1);
    }
}

/// The data region for the first `i` entries fills the image exactly from
/// the end of the descriptor table up to `cursor(s, i)`.
pub proof fn lemma_region_len(s: Seq<EntryModel>, i: int)
    requires
        0 <= i <= s.len(),
    ensures
        region_bytes(s, i).len() == cursor(s, i) - table_end(s),
        table_end(s) <= cursor(s, i),
    decreases i,
{
    if i > 0 {
        lemma_region_len(s, i - 1);
        lemma_align8_props(s[i - 1].name.len() as int);
        lemma_align8_props(s[i - 1].data.len() as int);
    }
}

/// The cursor never moves backwards.
pub proof fn lemma_cursor_mono(s: Seq<EntryModel>, i: int, j: int)
    requires
        0 <= i <= j <= s.len(),
    ensures
        cursor(s, i) <= cursor(s, j),
    decreases j - i,
{
    if i < j {
        lemma_cursor_mono(s, i, j - 1);
        lemma_align8_props(s[j - 1].name.len() as int);
        lemma_align8_props(s[j - 1].data.len() as int);
    }
}

/// Every cursor value is a multiple of the alignment boundary.
pub proof fn lemma_cursor_aligned(s: Seq<EntryModel>, i: int)
    requires
        0 <= i <= s.len(),
    ensures
        cursor(s, i) % 8 == 0,
    decreases i,
{
    if i == 0 {
        lemma_mod_multiples_basic(2 + 5 * s.len() as int, 8);
        assert(table_end(s) == (2 + 5 * s.len() as int) * 8);
    } else {
        lemma_cursor_aligned(s, i - 1);
        let x = align8(s[i - 1].name.len() as int);
        let y = align8(s[i - 1].data.len() as int);
        lemma_align8_props(s[i - 1].name.len() as int);
        lemma_align8_props(s[i - 1].data.len() as int);
        lemma_add_mod_noop(x, y, 8);
        lemma_add_mod_noop(cursor(s, i - 1), x + y, 8);
        lemma_mod_division_less_than_divisor(x + y, 8);
        lemma_small_mod(((x + y) % 8) as nat, 8nat);
    }
}

/// The summed spans of the first `i` entries: every padded name and
/// content length up to there.
pub open spec fn padded_total(s: Seq<EntryModel>, i: int) -> int
    decreases i,
{
    if i <= 0 {
        0
    } else {
        padded_total(s, i - 1) + entry_span(s[i - 1])
    }
}

/// The cursor is the end of the descriptor table plus the spans of the
/// entries before it.
pub proof fn lemma_cursor_is_padded_total(s: Seq<EntryModel>, i: int)
    requires
        0 <= i,
    ensures
        cursor(s, i) == table_end(s) + padded_total(s, i),
    decreases i,
{
    if i > 0 {
        lemma_cursor_is_padded_total(s, i - 1);
    }
}

/// Within the serialized table for `j` entries, the bytes of row `i` are
/// exactly the serialized descriptor of entry `i`.
pub proof fn lemma_table_slice(s: Seq<EntryModel>, i: int, j: int)
    requires
        0 <= i < j,
    ensures
        table_bytes(s, j).subrange(DESC_SIZE as int * i, DESC_SIZE as int * (i + 1))
            == spec_raw_bytes(descriptor(s, i)),
    decreases j,
{
    lemma_auto_spec_u64_to_from_le_bytes();
    lemma_table_len(s, i);
    lemma_table_len(s, j - 1);
    if j == i + 1 {
        assert(table_bytes(s, j).subrange(DESC_SIZE as int * i, DESC_SIZE as int * (i + 1))
            =~= spec_raw_bytes(descriptor(s, i)));
    } else {
        lemma_table_slice(s, i, j - 1);
        assert(table_bytes(s, j).subrange(DESC_SIZE as int * i, DESC_SIZE as int * (i + 1))
            =~= table_bytes(s, j - 1).subrange(DESC_SIZE as int * i, DESC_SIZE as int * (i + 1)));
    }
}

/// Within the data region for `j` entries, the bytes between entry `i`'s
/// cursor and the next cursor are exactly its padded name followed by its
/// padded content.
pub proof fn lemma_region_slice(s: Seq<EntryModel>, i: int, j: int)
    requires
        0 <= i < j <= s.len(),
    ensures
        region_bytes(s, j).subrange(cursor(s, i) - table_end(s), cursor(s, i + 1) - table_end(s))
            == padded(s[i].name) + padded(s[i].data),
    decreases j,
{
    lemma_region_len(s, i);
    lemma_region_len(s, j - 1);
    lemma_align8_props(s[i].name.len() as int);
    lemma_align8_props(s[i].data.len() as int);
    if j == i + 1 {
        assert(region_bytes(s, j).subrange(
            cursor(s, i) - table_end(s),
            cursor(s, i + 1) - table_end(s),
        ) =~= padded(s[i].name) + padded(s[i].data));
    } else {
        lemma_region_slice(s, i, j - 1);
        lemma_cursor_mono(s, i + 1, j - 1);
        assert(region_bytes(s, j).subrange(
            cursor(s, i) - table_end(s),
            cursor(s, i + 1) - table_end(s),
        ) =~= region_bytes(s, j - 1).subrange(
            cursor(s, i) - table_end(s),
            cursor(s, i + 1) - table_end(s),
        ));
    }
}

/// Appends every byte of `src` to `out`, in order.
fn push_bytes(out: &mut Vec<u8>, src: &[u8])
    ensures
        final(out)@ == old(out)@ + src@,
{
    let mut i: usize = 0;
    while i < src.len()
        invariant
            i <= src@.len(),
            out@ == old(out)@ + src@.subrange(0, i as int),
        decreases src@.len() - i,
    {
        let b = src[i];
        out.push(b);
        i = i + 1;
        proof {
            assert(out@ =~= old(out)@ + src@.subrange(0, i as int));
        }
    }
    proof {
        assert(old(out)@ + src@.subrange(0, src@.len() as int) =~= old(out)@ + src@);
    }
}

/// Serializes the entries into one image: the header, then each entry's
/// completed descriptor, then the aligned data region, all offsets computed
/// in a single forward pass.
pub fn to_initrd(entries: &Vec<Entry>) -> (out: Vec<u8>)
    requires
        total_size(models(entries@)) <= usize::MAX,
    ensures
        out@ == image_spec(models(entries@)),
{
    let ghost s = models(entries@);
    let n = entries.len();
    proof {
        assert(s.len() == n);
        lemma_region_len(s, s.len() as int);
        lemma_align_is_pow2();
    }
    let mut offset: u64 = HEADER_SIZE + DESC_SIZE * (n as u64);

    let header = Header::new(n as u64);
    let mut out = header.as_bytes();

    let mut i: usize = 0;
    while i < n
        invariant
            s == models(entries@),
            n == entries@.len(),
            s.len() == n,
            total_size(s) <= usize::MAX,
            i <= n,
            offset == cursor(s, i as int),
            out@ == spec_header_bytes(Header { magic: MAGIC, len: n as u64 }) + table_bytes(
                s,
                i as int,
            ),
        decreases n - i,
    {
        let ghost ii = i as int;
        proof {
            assert(s[ii] == entries@[ii]@);
            lemma_align_is_pow2();
            lemma_align8_props(s[ii].name.len() as int);
            lemma_align8_props(s[ii].data.len() as int);
            lemma_region_len(s, ii);
            lemma_cursor_mono(s, ii + 1, s.len() as int);
            assert(cursor(s, ii + 1) == cursor(s, ii) + entry_span(s[ii]));
        }
        let e = &entries[i];
        let mut raw = e.as_raw();

        raw.name = offset;
        let name_span = align_up(raw.name_len, ALIGN);
        offset = offset + name_span;

        raw.data = offset;
        let data_span = align_up(raw.data_len, ALIGN);
        offset = offset + data_span;

        proof {
            assert(raw == descriptor(s, ii));
        }
        let mut row = raw.as_bytes();
        out.append(&mut row);
        proof {
            assert(out@ =~= spec_header_bytes(Header { magic: MAGIC, len: n as u64 })
                + table_bytes(s, ii + 1));
        }
        i = i + 1;
    }

    proof {
        lemma_auto_spec_u64_to_from_le_bytes();
        lemma_table_len(s, n as int);
    }
    let mut i: usize = 0;
    while i < n
        invariant
            s == models(entries@),
            n == entries@.len(),
            s.len() == n,
            total_size(s) <= usize::MAX,
            i <= n,
            out@ == spec_header_bytes(Header { magic: MAGIC, len: n as u64 }) + table_bytes(
                s,
                n as int,
            ) + region_bytes(s, i as int),
            out@.len() == cursor(s, i as int),
        decreases n - i,
    {
        let ghost ii = i as int;
        let ghost base = cursor(s, ii);
        let ghost nl = s[ii].name.len() as int;
        let ghost dl = s[ii].data.len() as int;
        proof {
            assert(s[ii] == entries@[ii]@);
            lemma_align_is_pow2();
            lemma_align8_props(nl);
            lemma_align8_props(dl);
            lemma_region_len(s, ii);
            lemma_cursor_mono(s, ii + 1, s.len() as int);
            lemma_cursor_aligned(s, ii);
            assert(cursor(s, ii + 1) == base + entry_span(s[ii]));
            lemma_align8_shift(base, nl);
            lemma_add_mod_noop(base, align8(nl), 8);
            lemma_align8_shift(base + align8(nl), dl);
        }
        let e = &entries[i];
        push_bytes(&mut out, e.name_bytes());
        align_to(&mut out, ALIGN);
        proof {
            assert(out@ =~= spec_header_bytes(Header { magic: MAGIC, len: n as u64 })
                + table_bytes(s, n as int) + region_bytes(s, ii) + padded(s[ii].name));
        }
        push_bytes(&mut out, e.data_bytes());
        align_to(&mut out, ALIGN);
        proof {
            assert(out@ =~= spec_header_bytes(Header { magic: MAGIC, len: n as u64 })
                + table_bytes(s, n as int) + region_bytes(s, ii + 1));
        }
        i = i + 1;
    }
    proof {
        assert(out@ =~= image_spec(s));
    }
    out
}

} // verus!
