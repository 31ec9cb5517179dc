use gen_initrd::image::{to_initrd, Entry, EntryType, Header, DESC_SIZE, HEADER_SIZE, MAGIC};

fn u64_at(bytes: &[u8], off: usize) -> u64 {
    u64::from_le_bytes(bytes[off..off + 8].try_into().unwrap())
}

fn entry(typ: EntryType, name: &str, data: &[u8]) -> Entry {
    Entry::new(typ, name.as_bytes().to_vec(), data.to_vec())
}

struct Desc {
    typ: u64,
    name: u64,
    name_len: u64,
    data: u64,
    data_len: u64,
}

fn desc_at(image: &[u8], i: usize) -> Desc {
    let base = HEADER_SIZE as usize + DESC_SIZE as usize * i;
    Desc {
        typ: u64_at(image, base),
        name: u64_at(image, base + 8),
        name_len: u64_at(image, base + 16),
        data: u64_at(image, base + 24),
        data_len: u64_at(image, base + 32),
    }
}

fn align8(n: u64) -> u64 {
    (n + 7) & !7
}

#[test]
fn empty_list_is_header_only() {
    let out = to_initrd(&Vec::new());
    assert_eq!(out.len(), 16);
    assert_eq!(u64_at(&out, 0), MAGIC);
    assert_eq!(u64_at(&out, 8), 0);
}

#[test]
fn two_entry_layout_is_exact() {
    let entries = vec![
        entry(EntryType::EarlyInit, "init", b"AB"),
        entry(EntryType::PartList, "list", b""),
    ];
    let out = to_initrd(&entries);

    assert_eq!(out.len(), 120);
    assert_eq!(u64_at(&out, 0), MAGIC);
    assert_eq!(u64_at(&out, 8), 2);

    let d0 = desc_at(&out, 0);
    assert_eq!(d0.typ, 1);
    assert_eq!(d0.name, 96);
    assert_eq!(d0.name_len, 4);
    assert_eq!(d0.data, 104);
    assert_eq!(d0.data_len, 2);

    let d1 = desc_at(&out, 1);
    assert_eq!(d1.typ, 2);
    assert_eq!(d1.name, 112);
    assert_eq!(d1.name_len, 4);
    assert_eq!(d1.data, 120);
    assert_eq!(d1.data_len, 0);

    assert_eq!(&out[96..100], b"init");
    assert_eq!(&out[100..104], &[0u8; 4]);
    assert_eq!(&out[104..106], b"AB");
    assert_eq!(&out[106..112], &[0u8; 6]);
    assert_eq!(&out[112..116], b"list");
    assert_eq!(&out[116..120], &[0u8; 4]);
}

#[test]
fn round_trip_reproduces_names_and_contents() {
    let entries = vec![
        entry(EntryType::EarlyInit, "bin/early-init", b"\x7fELF machine"),
        entry(EntryType::PartList, "", b"root=/dev/sda1\n"),
        entry(EntryType::FsServer, "bin/fs-server", b""),
        entry(EntryType::Any, "etc/motd", b"123456789"),
        entry(EntryType::AhciServer, "bin/ahci", &[0u8; 17]),
    ];
    let out = to_initrd(&entries);

    assert_eq!(u64_at(&out, 0), MAGIC);
    assert_eq!(u64_at(&out, 8), entries.len() as u64);
    for (i, e) in entries.iter().enumerate() {
        let d = desc_at(&out, i);
        let name = &out[d.name as usize..(d.name + d.name_len) as usize];
        let data = &out[d.data as usize..(d.data + d.data_len) as usize];
        assert_eq!(name, e.name_bytes());
        assert_eq!(data, e.data_bytes());
    }
}

#[test]
fn recorded_offsets_are_aligned() {
    let entries = vec![
        entry(EntryType::EarlyInit, "a", b"xyz"),
        entry(EntryType::PartList, "longer-name", b"1"),
        entry(EntryType::Any, "odd", &[9u8; 13]),
    ];
    let out = to_initrd(&entries);
    for i in 0..entries.len() {
        let d = desc_at(&out, i);
        assert_eq!(d.name % 8, 0);
        assert_eq!(d.data % 8, 0);
    }
}

#[test]
fn offsets_monotone_and_ranges_disjoint() {
    let entries = vec![
        entry(EntryType::EarlyInit, "one", b"aaaa"),
        entry(EntryType::Any, "", b"bb"),
        entry(EntryType::Any, "three", b""),
        entry(EntryType::Any, "four", b"ddddddddd"),
    ];
    let out = to_initrd(&entries);
    let mut ranges: Vec<(u64, u64)> = Vec::new();
    for i in 0..entries.len() {
        let d = desc_at(&out, i);
        ranges.push((d.name, d.name + d.name_len));
        ranges.push((d.data, d.data + d.data_len));
    }
    // In input order the starts never decrease, and each range ends before
    // the next begins.
    for w in ranges.windows(2) {
        assert!(w[0].0 <= w[1].0);
        assert!(w[0].1 <= w[1].0);
    }
}

#[test]
fn zero_length_blobs_draw_no_padding() {
    let entries = vec![entry(EntryType::Any, "", b"")];
    let out = to_initrd(&entries);
    assert_eq!(out.len(), 56);
    let d = desc_at(&out, 0);
    assert_eq!(d.name, 56);
    assert_eq!(d.name_len, 0);
    assert_eq!(d.data, 56);
    assert_eq!(d.data_len, 0);

    // A name whose length is already a multiple of eight is not padded
    // either: the data offset follows it immediately.
    let entries = vec![entry(EntryType::Any, "12345678", b"x")];
    let out = to_initrd(&entries);
    let d = desc_at(&out, 0);
    assert_eq!(d.data, d.name + 8);
    assert_eq!(out.len(), (d.data + 8) as usize);
}

#[test]
fn total_length_matches_formula() {
    let cases: Vec<Vec<Entry>> = vec![
        vec![],
        vec![entry(EntryType::EarlyInit, "init", b"AB")],
        vec![
            entry(EntryType::EarlyInit, "a", b""),
            entry(EntryType::PartList, "bcdefgh", &[1u8; 23]),
            entry(EntryType::Any, "", &[2u8; 8]),
        ],
    ];
    for entries in cases {
        let out = to_initrd(&entries);
        let mut expect = HEADER_SIZE + DESC_SIZE * entries.len() as u64;
        for e in &entries {
            expect += align8(e.name_bytes().len() as u64);
            expect += align8(e.data_bytes().len() as u64);
        }
        assert!(out.len() as u64 >= HEADER_SIZE + DESC_SIZE * u64_at(&out, 8));
        assert_eq!(out.len() as u64, expect);
    }
}

#[test]
fn header_new_and_bytes() {
    let h = Header::new(3);
    assert_eq!(h.magic, MAGIC);
    assert_eq!(h.len, 3);
    let b = h.as_bytes();
    assert_eq!(b.len(), 16);
    assert_eq!(u64_at(&b, 0), MAGIC);
    assert_eq!(u64_at(&b, 8), 3);
}

#[test]
fn entry_accessors_and_raw_descriptor() {
    let e = entry(EntryType::FsServer, "srv", b"abcde");
    assert_eq!(e.name_bytes(), b"srv");
    assert_eq!(e.data_bytes(), b"abcde");
    let raw = e.as_raw();
    assert_eq!(raw.typ, 3);
    assert_eq!(raw.name, 0);
    assert_eq!(raw.name_len, 3);
    assert_eq!(raw.data, 0);
    assert_eq!(raw.data_len, 5);

    let bytes = raw.as_bytes();
    assert_eq!(bytes.len(), 40);
    assert_eq!(u64_at(&bytes, 0), 3);
    assert_eq!(u64_at(&bytes, 8), 0);
    assert_eq!(u64_at(&bytes, 16), 3);
    assert_eq!(u64_at(&bytes, 24), 0);
    assert_eq!(u64_at(&bytes, 32), 5);
}

#[test]
fn kind_codes_are_fixed() {
    assert_eq!(EntryType::Any.code(), 0);
    assert_eq!(EntryType::EarlyInit.code(), 1);
    assert_eq!(EntryType::PartList.code(), 2);
    assert_eq!(EntryType::FsServer.code(), 3);
    assert_eq!(EntryType::AhciServer.code(), 4);
}
