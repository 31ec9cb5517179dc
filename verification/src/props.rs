//! The serializer's guarantees, proved as laws over the layout model:
//! exact image length, aligned and disjoint offsets, header-only empty
//! images, and a full round trip from the emitted bytes back to every
//! entry's descriptor, name, and content.

use crate::image::{
    align8, cursor, data_offset, descriptor, entry_span, image_spec, kind_code,
    lemma_align8_props, lemma_cursor_aligned, lemma_cursor_is_padded_total, lemma_cursor_mono,
    lemma_region_len, lemma_region_slice, lemma_table_len, lemma_table_slice, name_offset, padded,
    padded_total, region_bytes, spec_raw_bytes, table_bytes, table_end, total_size, EntryModel,
    DESC_SIZE, HEADER_SIZE, MAGIC,
};
use vstd::arithmetic::div_mod::lemma_add_mod_noop;
use vstd::bytes::{
    lemma_auto_spec_u64_to_from_le_bytes, spec_u64_from_le_bytes, spec_u64_to_le_bytes,
};
use vstd::prelude::*;

verus! {

/// The image is never shorter than the header and the descriptor table,
/// and its length is exactly theirs plus the sum of every entry's padded
/// name and content lengths.
pub proof fn lemma_image_length(s: Seq<EntryModel>)
    ensures
        image_spec(s).len() == HEADER_SIZE as int + DESC_SIZE as int * s.len() + padded_total(
            s,
            s.len() as int,
        ),
        image_spec(s).len() >= HEADER_SIZE as int + DESC_SIZE as int * s.len(),
        image_spec(s).len() == total_size(s),
{
    lemma_auto_spec_u64_to_from_le_bytes();
    lemma_table_len(s, s.len() as int);
    lemma_region_len(s, s.len() as int);
    lemma_cursor_is_padded_total(s, s.len() as int);
}

/// Every recorded name offset and data offset is a multiple of eight.
pub proof fn lemma_offsets_aligned(s: Seq<EntryModel>, i: int)
    requires
        0 <= i < s.len(),
    ensures
        name_offset(s, i) % 8 == 0,
        data_offset(s, i) % 8 == 0,
{
    lemma_cursor_aligned(s, i);
    lemma_align8_props(s[i].name.len() as int);
    lemma_add_mod_noop(cursor(s, i), align8(s[i].name.len() as int), 8);
}

/// An empty entry list yields a header-only image: `HEADER_SIZE` bytes
/// whose magic field is intact and whose entry count reads zero.
pub proof fn lemma_empty_image(s: Seq<EntryModel>)
    requires
        s.len() == 0,
    ensures
        image_spec(s).len() == HEADER_SIZE,
        spec_u64_from_le_bytes(image_spec(s).subrange(0, 8)) == MAGIC,
        spec_u64_from_le_bytes(image_spec(s).subrange(8, 16)) == 0,
{
    lemma_auto_spec_u64_to_from_le_bytes();
    assert(image_spec(s).subrange(0, 8) =~= spec_u64_to_le_bytes(MAGIC));
    assert(image_spec(s).subrange(8, 16) =~= spec_u64_to_le_bytes(0));
}

/// A zero-length name or content occupies no data-region bytes and draws
/// no padding: the offsets simply do not advance past it.
pub proof fn lemma_empty_blob_no_padding(s: Seq<EntryModel>, i: int)
    requires
        0 <= i < s.len(),
    ensures
        s[i].name.len() == 0 ==> padded(s[i].name) == Seq::<u8>::empty() && data_offset(s, i)
            == name_offset(s, i),
        s[i].data.len() == 0 ==> padded(s[i].data) == Seq::<u8>::empty() && cursor(s, i + 1)
            == data_offset(s, i),
{
    lemma_align8_props(0);
    assert(align8(0) == 0);
    if s[i].name.len() == 0 {
        assert(padded(s[i].name) =~= Seq::<u8>::empty());
    }
    if s[i].data.len() == 0 {
        assert(padded(s[i].data) =~= Seq::<u8>::empty());
    }
}

/// Descriptor offsets are monotonically non-decreasing across entries in
/// input order.
pub proof fn lemma_offsets_monotone(s: Seq<EntryModel>, i: int, j: int)
    requires
        0 <= i <= j < s.len(),
    ensures
        name_offset(s, i) <= name_offset(s, j),
        data_offset(s, i) <= data_offset(s, j),
{
    lemma_cursor_mono(s, i, j);
    lemma_align8_props(s[i].name.len() as int);
    lemma_align8_props(s[i].data.len() as int);
    lemma_align8_props(s[j].name.len() as int);
    if i < j {
        lemma_cursor_mono(s, i + 1, j);
    }
}

/// No two recorded ranges overlap: an entry's name range ends by its data
/// offset, its data range ends by the next cursor, and everything of an
/// earlier entry ends by the name offset of a later one.
pub proof fn lemma_ranges_disjoint(s: Seq<EntryModel>, i: int, j: int)
    requires
        0 <= i < s.len(),
        i <= j < s.len(),
    ensures
        name_offset(s, i) + s[i].name.len() <= data_offset(s, i),
        data_offset(s, i) + s[i].data.len() <= cursor(s, i + 1),
        i < j ==> data_offset(s, i) + s[i].data.len() <= name_offset(s, j),
{
    lemma_align8_props(s[i].name.len() as int);
    lemma_align8_props(s[i].data.len() as int);
    if i < j {
        lemma_cursor_mono(s, i + 1, j);
    }
}

/// Reading the header back from the image: the first eight bytes decode
/// to the magic value and the next eight to the entry count.
pub proof fn lemma_header_round_trip(s: Seq<EntryModel>)
    requires
        total_size(s) <= u64::MAX,
    ensures
        image_spec(s).len() >= HEADER_SIZE,
        spec_u64_from_le_bytes(image_spec(s).subrange(0, 8)) == MAGIC,
        spec_u64_from_le_bytes(image_spec(s).subrange(8, 16)) == s.len(),
{
    lemma_auto_spec_u64_to_from_le_bytes();
    lemma_table_len(s, s.len() as int);
    lemma_region_len(s, s.len() as int);
    assert(image_spec(s).subrange(0, 8) =~= spec_u64_to_le_bytes(MAGIC));
    assert(image_spec(s).subrange(8, 16) =~= spec_u64_to_le_bytes(s.len() as u64));
}

/// Reading entry `i` back from the image: its descriptor row decodes to
/// the entry's kind tag, offsets, and lengths, and slicing the image at
/// the recorded offsets and lengths reproduces the name bytes and the
/// content bytes exactly.
#[verifier::rlimit(60)]
pub proof fn lemma_entry_round_trip(s: Seq<EntryModel>, i: int)
    requires
        total_size(s) <= u64::MAX,
        0 <= i < s.len(),
    ensures
        spec_u64_from_le_bytes(
            image_spec(s).subrange(
                HEADER_SIZE as int + DESC_SIZE as int * i,
                HEADER_SIZE as int + DESC_SIZE as int * i + 8,
            ),
        ) == kind_code(s[i].typ),
        spec_u64_from_le_bytes(
            image_spec(s).subrange(
                HEADER_SIZE as int + DESC_SIZE as int * i + 8,
                HEADER_SIZE as int + DESC_SIZE as int * i + 16,
            ),
        ) == name_offset(s, i),
        spec_u64_from_le_bytes(
            image_spec(s).subrange(
                HEADER_SIZE as int + DESC_SIZE as int * i + 16,
                HEADER_SIZE as int + DESC_SIZE as int * i + 24,
            ),
        ) == s[i].name.len(),
        spec_u64_from_le_bytes(
            image_spec(s).subrange(
                HEADER_SIZE as int + DESC_SIZE as int * i + 24,
                HEADER_SIZE as int + DESC_SIZE as int * i + 32,
            ),
        ) == data_offset(s, i),
        spec_u64_from_le_bytes(
            image_spec(s).subrange(
                HEADER_SIZE as int + DESC_SIZE as int * i + 32,
                HEADER_SIZE as int + DESC_SIZE as int * i + 40,
            ),
        ) == s[i].data.len(),
        image_spec(s).subrange(name_offset(s, i), name_offset(s, i) + s[i].name.len())
            == s[i].name,
        image_spec(s).subrange(data_offset(s, i), data_offset(s, i) + s[i].data.len())
            == s[i].data,
{
    let n = s.len() as int;
    let img = image_spec(s);
    let tb = table_bytes(s, n);
    let rb = region_bytes(s, n);
    let nl = s[i].name.len() as int;
    let dl = s[i].data.len() as int;
    lemma_auto_spec_u64_to_from_le_bytes();
    lemma_table_len(s, n);
    lemma_region_len(s, n);
    lemma_region_len(s, i);
    lemma_cursor_mono(s, i + 1, n);
    lemma_align8_props(nl);
    lemma_align8_props(dl);
    assert(cursor(s, i + 1) == cursor(s, i) + entry_span(s[i]));

    // The descriptor row and its five fields.
    lemma_table_slice(s, i, n);
    let row = spec_raw_bytes(descriptor(s, i));
    let base = HEADER_SIZE as int + DESC_SIZE as int * i;
    assert(img.subrange(base, base + DESC_SIZE as int) =~= tb.subrange(
        DESC_SIZE as int * i,
        DESC_SIZE as int * (i + 1),
    ));
    assert(row.subrange(0, 8) =~= spec_u64_to_le_bytes(descriptor(s, i).typ));
    assert(row.subrange(8, 16) =~= spec_u64_to_le_bytes(descriptor(s, i).name));
    assert(row.subrange(16, 24) =~= spec_u64_to_le_bytes(descriptor(s, i).name_len));
    assert(row.subrange(24, 32) =~= spec_u64_to_le_bytes(descriptor(s, i).data));
    assert(row.subrange(32, 40) =~= spec_u64_to_le_bytes(descriptor(s, i).data_len));
    assert(img.subrange(base, base + 8) =~= row.subrange(0, 8));
    assert(img.subrange(base + 8, base + 16) =~= row.subrange(8, 16));
    assert(img.subrange(base + 16, base + 24) =~= row.subrange(16, 24));
    assert(img.subrange(base + 24, base + 32) =~= row.subrange(24, 32));
    assert(img.subrange(base + 32, base + 40) =~= row.subrange(32, 40));

    // The recorded values all fit in a `u64`, so decoding them gives back
    // the model's offsets and lengths.
    assert(descriptor(s, i).name == name_offset(s, i));
    assert(descriptor(s, i).name_len == s[i].name.len());
    assert(descriptor(s, i).data == data_offset(s, i));
    assert(descriptor(s, i).data_len == s[i].data.len());

    // The name and content bytes at their recorded offsets.
    lemma_region_slice(s, i, n);
    let pp = padded(s[i].name) + padded(s[i].data);
    assert(img.subrange(cursor(s, i), cursor(s, i + 1)) =~= rb.subrange(
        cursor(s, i) - table_end(s),
        cursor(s, i + 1) - table_end(s),
    ));
    assert(img.subrange(name_offset(s, i), name_offset(s, i) + nl) =~= pp.subrange(0, nl));
    assert(pp.subrange(0, nl) =~= s[i].name);
    assert(img.subrange(data_offset(s, i), data_offset(s, i) + dl) =~= pp.subrange(
        align8(nl),
        align8(nl) + dl,
    ));
    assert(pp.subrange(align8(nl), align8(nl) + dl) =~= s[i].data);
}

} // verus!
