use rawccopy::attribute::{read_attribute, AttributeContent, DATA};
use rawccopy::attribute_list::{read_list, ListEntry};
use rawccopy::bytes::ByteBuffer;
use rawccopy::cursor::RunCursor;
use rawccopy::disk::DiskAccessor;
use rawccopy::error::NtfsError;
use rawccopy::extract::ExtractionProcessor;
use rawccopy::index::{collate_names, read_entry, IndexEntry, NameOrder};
use rawccopy::launch::{is_quiet, VERSION};
use rawccopy::path::split;
use rawccopy::record::{apply_fixups, FileReference};
use rawccopy::runs::{decode_run_list, resolve_run_list, DataRun, Extent};
use rawccopy::stream::{read_range, StreamFault};
use rawccopy::writer::DataWriter;

fn u(s: &str) -> Vec<u16> {
    s.encode_utf16().collect()
}

fn run(cluster_count: u64, lcn_delta: i64) -> DataRun {
    DataRun { cluster_count, lcn_delta, sparse: false }
}

fn hole(cluster_count: u64) -> DataRun {
    DataRun { cluster_count, lcn_delta: 0, sparse: true }
}

#[test]
fn runs_are_decoded_with_signed_distances() {
    let b = ByteBuffer::from_vec(vec![0xAA, 0x11, 0x0A, 0x32, 0x11, 0x05, 0xFD, 0x00, 0x11]);
    assert_eq!(decode_run_list(&b, 1), Ok(vec![run(10, 50), run(5, -3)]));
    assert_eq!(decode_run_list(&b, 7), Ok(Vec::new()));
}

#[test]
fn runs_of_every_width_are_decoded() {
    let b = ByteBuffer::from_vec(vec![
        0x32, 0x34, 0x12, 0x56, 0x34, 0x12, 0x01, 0x03, 0x88, 1, 0, 0, 0, 0, 0, 0, 0x80, 0, 0, 0,
        0, 0, 0, 0, 0x80, 0x21, 0x10, 0x00, 0x80, 0x00,
    ]);
    assert_eq!(
        decode_run_list(&b, 0),
        Ok(vec![
            run(0x1234, 0x12_3456),
            hole(3),
            run(0x8000_0000_0000_0001, i64::MIN),
            run(0x10, -32768),
        ])
    );
}

#[test]
fn runs_that_leave_the_attribute_are_malformed() {
    for bytes in [
        vec![],
        vec![0x11, 0x0A],
        vec![0x11, 0x0A, 0x32],
        vec![0x10, 0x32, 0x00],
        vec![0x19, 1, 2, 3, 4, 5, 6, 7, 8, 9, 1, 0],
        vec![0x91, 1, 1, 2, 3, 4, 5, 6, 7, 8, 9, 0],
    ] {
        assert_eq!(decode_run_list(&ByteBuffer::from_vec(bytes), 0), Err(NtfsError::MalformedRecord));
    }
    let b = ByteBuffer::from_vec(vec![0x00]);
    assert_eq!(decode_run_list(&b, 1), Err(NtfsError::MalformedRecord));
    assert_eq!(decode_run_list(&b, usize::MAX), Err(NtfsError::MalformedRecord));
}

#[test]
fn distances_add_up_from_the_last_physical_run() {
    assert_eq!(
        resolve_run_list(&vec![run(10, 50), run(5, -3)]),
        Ok(vec![
            Extent { lcn: 50, clusters: 10, sparse: false },
            Extent { lcn: 47, clusters: 5, sparse: false },
        ])
    );
    assert_eq!(
        resolve_run_list(&vec![hole(4), run(1, 7), hole(2), run(3, -7), run(1, i64::MAX)]),
        Ok(vec![
            Extent { lcn: 0, clusters: 4, sparse: true },
            Extent { lcn: 7, clusters: 1, sparse: false },
            Extent { lcn: 0, clusters: 2, sparse: true },
            Extent { lcn: 0, clusters: 3, sparse: false },
            Extent { lcn: i64::MAX as u64, clusters: 1, sparse: false },
        ])
    );
    assert_eq!(resolve_run_list(&Vec::new()), Ok(Vec::new()));
}

#[test]
fn runs_below_cluster_zero_are_malformed() {
    assert_eq!(resolve_run_list(&vec![run(1, -1)]), Err(NtfsError::MalformedRecord));
    assert_eq!(resolve_run_list(&vec![run(1, 5), run(1, -6)]), Err(NtfsError::MalformedRecord));
    assert_eq!(resolve_run_list(&vec![run(1, 5), run(1, i64::MIN)]), Err(NtfsError::MalformedRecord));
    assert_eq!(
        resolve_run_list(&vec![run(1, i64::MAX), run(1, i64::MAX), run(1, 2)]),
        Err(NtfsError::MalformedRecord)
    );
    assert_eq!(
        resolve_run_list(&vec![run(1, i64::MAX), run(1, i64::MAX), run(1, 1)]),
        Ok(vec![
            Extent { lcn: i64::MAX as u64, clusters: 1, sparse: false },
            Extent { lcn: u64::MAX - 1, clusters: 1, sparse: false },
            Extent { lcn: u64::MAX, clusters: 1, sparse: false },
        ])
    );
}

fn guarded(len: usize, usn: [u8; 2]) -> Vec<u8> {
    let mut b: Vec<u8> = (0..len).map(|i| (i % 200) as u8 + 1).collect();
    let chunks = len / 512;
    b[4] = 0x30;
    b[5] = 0;
    b[6] = (chunks + 1) as u8;
    b[7] = 0;
    b[0x30] = usn[0];
    b[0x31] = usn[1];
    for c in 0..chunks {
        b[0x32 + 2 * c] = 0xA0 + c as u8;
        b[0x33 + 2 * c] = 0xB0 + c as u8;
        b[c * 512 + 510] = usn[0];
        b[c * 512 + 511] = usn[1];
    }
    b
}

#[test]
fn update_sequence_is_undone() {
    let raw = guarded(1024, [0x07, 0x09]);
    let fixed = apply_fixups(&ByteBuffer::from_vec(raw.clone())).unwrap().into_vec();
    assert_eq!(fixed.len(), 1024);
    assert_eq!(&fixed[510..512], &[0xA0, 0xB0]);
    assert_eq!(&fixed[1022..1024], &[0xA1, 0xB1]);
    let mut expected = raw;
    expected[510] = 0xA0;
    expected[511] = 0xB0;
    expected[1022] = 0xA1;
    expected[1023] = 0xB1;
    assert_eq!(fixed, expected);
}

#[test]
fn torn_chunk_is_damage() {
    let mut raw = guarded(1024, [0x07, 0x09]);
    raw[1023] = 0x08;
    assert_eq!(apply_fixups(&ByteBuffer::from_vec(raw)), Err(NtfsError::RecordDamaged));
}

#[test]
fn update_sequence_that_does_not_fit_is_malformed() {
    let mut raw = guarded(1024, [1, 0]);
    raw[6] = 2;
    assert_eq!(apply_fixups(&ByteBuffer::from_vec(raw)), Err(NtfsError::MalformedRecord));
    let mut raw = guarded(1024, [1, 0]);
    raw[4] = 0xFE;
    raw[5] = 0x03;
    assert_eq!(apply_fixups(&ByteBuffer::from_vec(raw)), Err(NtfsError::MalformedRecord));
    assert_eq!(apply_fixups(&ByteBuffer::from_vec(vec![0; 7])), Err(NtfsError::MalformedRecord));
    let small = guarded(100, [1, 0]);
    assert_eq!(apply_fixups(&ByteBuffer::from_vec(small.clone())).unwrap().into_vec(), small);
}

#[test]
fn references_pack_segment_and_sequence() {
    let r = FileReference::from_raw(0x0005_0000_0000_0015);
    assert_eq!(r, FileReference { segment: 0x15, sequence: 5 });
    assert_eq!(r.to_raw(), 0x0005_0000_0000_0015);
    let r = FileReference::from_raw(u64::MAX);
    assert_eq!(r, FileReference { segment: 0xFFFF_FFFF_FFFF, sequence: 0xFFFF });
    assert_eq!(r.to_raw(), u64::MAX);
    assert_eq!(FileReference { segment: 1 << 48, sequence: 2 }.to_raw(), 2 << 48);
}

#[test]
fn names_are_ordered_without_regard_to_case() {
    let none: Vec<u16> = Vec::new();
    assert_eq!(collate_names(&none, &u("abc"), &u("ABC")), NameOrder::Equal);
    assert_eq!(collate_names(&none, &u("abc"), &u("ABD")), NameOrder::Less);
    assert_eq!(collate_names(&none, &u("b"), &u("ABD")), NameOrder::Greater);
    assert_eq!(collate_names(&none, &u("ab"), &u("abc")), NameOrder::Less);
    assert_eq!(collate_names(&none, &u("abc"), &u("ab")), NameOrder::Greater);
    assert_eq!(collate_names(&none, &u(""), &u("")), NameOrder::Equal);
    assert_eq!(collate_names(&none, &u("_"), &u("a")), NameOrder::Greater);
    assert_eq!(collate_names(&none, &u("{"), &u("Z")), NameOrder::Greater);
    assert_eq!(collate_names(&none, &u("\u{e9}"), &u("\u{c9}")), NameOrder::Greater);
}

#[test]
fn table_decides_which_units_differ_in_case_only() {
    let mut table: Vec<u16> = (0..0x100u16).collect();
    for c in b'a'..=b'z' {
        table[c as usize] = (c - 32) as u16;
    }
    table[0xE9] = 0xC9;
    assert_eq!(collate_names(&table, &u("\u{e9}t\u{e9}"), &u("\u{c9}T\u{c9}")), NameOrder::Equal);
    assert_eq!(collate_names(&table, &u("\u{151}"), &u("\u{150}")), NameOrder::Greater);
}

#[test]
fn paths_are_split_at_either_separator() {
    assert_eq!(split(&u("/dir1/file.txt")), vec![u("dir1"), u("file.txt")]);
    assert_eq!(split(&u("\\a\\\\b/c/")), vec![u("a"), u("b"), u("c")]);
    assert_eq!(split(&u("name")), vec![u("name")]);
    assert_eq!(split(&u("")), Vec::<Vec<u16>>::new());
    assert_eq!(split(&u("///")), Vec::<Vec<u16>>::new());
}

#[test]
fn quiet_flag_is_found_among_the_arguments() {
    assert!(is_quiet(&vec!["/FileNamePath:C:\\x", "/Quiet"]));
    assert!(is_quiet(&vec!["/Quiet", "/Quiet"]));
    assert!(!is_quiet(&vec!["/quiet", "/Quiet ", "Quiet", "/Quie", ""]));
    assert!(!is_quiet(&Vec::new()));
    assert_eq!(VERSION, "0.1.7");
}

#[test]
fn errors_have_names() {
    assert_eq!(NtfsError::NotNtfs.name(), "not an NTFS volume");
    assert_eq!(NtfsError::StaleReference.name(), "stale file reference");
    let all = [
        NtfsError::NotNtfs,
        NtfsError::IoFault,
        NtfsError::RecordOutOfRange,
        NtfsError::RecordNotInUse,
        NtfsError::MalformedRecord,
        NtfsError::RecordDamaged,
        NtfsError::IndexCorrupt,
        NtfsError::PathNotFound,
        NtfsError::NotADirectory,
        NtfsError::AttributeNotFound,
        NtfsError::StaleReference,
    ];
    for (i, a) in all.iter().enumerate() {
        for b in &all[i + 1..] {
            assert_ne!(a.name(), b.name());
        }
    }
}

fn device() -> (Vec<u8>, DiskAccessor) {
    let image: Vec<u8> = (0..16 * 512usize).map(|i| (i % 253) as u8).collect();
    (image.clone(), DiskAccessor::new(image, 512).unwrap())
}

#[test]
fn ranges_are_read_through_extents() {
    let (image, mut disk) = device();
    let extents = vec![
        Extent { lcn: 6, clusters: 2, sparse: false },
        Extent { lcn: 0, clusters: 1, sparse: true },
        Extent { lcn: 0, clusters: 0, sparse: false },
        Extent { lcn: 1, clusters: 1, sparse: false },
    ];
    let got = read_range(&mut disk, &extents, 512, 1000, 1000).unwrap().into_vec();
    let mut expected = image[6 * 512 + 1000..8 * 512].to_vec();
    expected.extend(vec![0u8; 512]);
    expected.extend_from_slice(&image[512..512 + 1000 - 24 - 512]);
    assert_eq!(got, expected);
    assert_eq!(read_range(&mut disk, &extents, 512, 2048, 0), Ok(ByteBuffer::new()));
    assert_eq!(read_range(&mut disk, &extents, 512, 2048, 1), Err(StreamFault::OutsideRuns));
    assert_eq!(read_range(&mut disk, &extents, 512, u64::MAX, 2), Err(StreamFault::OutsideRuns));
    let outside = vec![Extent { lcn: 15, clusters: 2, sparse: false }];
    assert_eq!(read_range(&mut disk, &outside, 512, 0, 512).unwrap().as_slice(), &image[15 * 512..]);
    assert_eq!(read_range(&mut disk, &outside, 512, 0, 513), Err(StreamFault::Device));
    let far = vec![Extent { lcn: u64::MAX, clusters: u64::MAX, sparse: false }];
    assert_eq!(read_range(&mut disk, &far, u32::MAX, 5, 1), Err(StreamFault::Device));
}

#[test]
fn cursor_cuts_the_last_chunk_to_size() {
    let (image, mut disk) = device();
    let extents = vec![
        Extent { lcn: 0, clusters: 0, sparse: true },
        Extent { lcn: 3, clusters: 1, sparse: false },
        Extent { lcn: 0, clusters: 2, sparse: true },
        Extent { lcn: 9, clusters: 4, sparse: false },
    ];
    let mut cursor = RunCursor::start(extents.clone(), 512, 512 + 1024 + 700).unwrap();
    let mut writer = DataWriter::new();
    assert_eq!(cursor.advance(&mut disk, &mut writer), Ok(512));
    assert_eq!(disk.read_count(), 1);
    assert_eq!(cursor.advance(&mut disk, &mut writer), Ok(1024));
    assert_eq!(disk.read_count(), 1);
    assert!(!cursor.is_done());
    assert_eq!(cursor.advance(&mut disk, &mut writer), Ok(700));
    assert_eq!(disk.read_count(), 2);
    assert!(cursor.is_done());
    assert_eq!(cursor.delivered(), 2236);
    assert_eq!(cursor.advance(&mut disk, &mut writer), Ok(0));
    assert_eq!(disk.read_count(), 2);
    let mut expected = image[3 * 512..4 * 512].to_vec();
    expected.extend(vec![0u8; 1024]);
    expected.extend_from_slice(&image[9 * 512..9 * 512 + 700]);
    assert_eq!(writer.as_slice(), expected.as_slice());
    assert_eq!(writer.chunk_lengths(), &[512, 1024, 700]);
    assert_eq!(
        RunCursor::start(extents, 512, 7 * 512 + 1).err(),
        Some(NtfsError::MalformedRecord)
    );
}

#[test]
fn cursor_leaves_the_writer_alone_on_a_fault() {
    let (_, mut disk) = device();
    let extents = vec![Extent { lcn: 15, clusters: 2, sparse: false }];
    let mut cursor = RunCursor::start(extents, 512, 1024).unwrap();
    let mut writer = DataWriter::new();
    writer.write(&[1, 2, 3]);
    assert_eq!(cursor.advance(&mut disk, &mut writer), Err(NtfsError::IoFault));
    assert_eq!(writer.as_slice(), &[1, 2, 3]);
    assert_eq!(cursor.delivered(), 0);
    assert_eq!(disk.read_count(), 0);
}

fn attribute_bytes(non_resident: bool) -> Vec<u8> {
    let mut a = vec![0u8; if non_resident { 0x50 } else { 0x30 }];
    a[0] = 0x80;
    let total = a.len() as u8;
    a[4] = total;
    a[8] = non_resident as u8;
    a[9] = 2;
    a[0x0C] = 0x01;
    a[0x0D] = 0x40;
    if non_resident {
        a[0x0A] = 0x40;
        a[0x40..0x44].copy_from_slice(&[b'a', 0, b'b', 0]);
        a[0x10] = 0;
        a[0x20] = 0x48;
        a[0x28..0x30].copy_from_slice(&8192u64.to_le_bytes());
        a[0x30..0x38].copy_from_slice(&5000u64.to_le_bytes());
        a[0x48..0x4D].copy_from_slice(&[0x21, 0x02, 0x10, 0x01, 0x00]);
    } else {
        a[0x0A] = 0x18;
        a[0x18..0x1C].copy_from_slice(&[b'a', 0, b'b', 0]);
        a[0x10] = 5;
        a[0x14] = 0x20;
        a[0x20..0x25].copy_from_slice(b"hello");
    }
    a
}

#[test]
fn resident_attribute_is_parsed() {
    let a = read_attribute(&ByteBuffer::from_vec(attribute_bytes(false))).unwrap();
    assert_eq!(a.type_code, DATA);
    assert_eq!(a.name, u("ab"));
    assert_eq!(a.flags, 0x4001);
    assert!(a.is_encrypted());
    assert!(a.is_compressed());
    assert!(a.has_name(DATA, &u("ab")));
    assert!(!a.has_name(DATA, &u("aB")));
    assert!(!a.has_name(0x90, &u("ab")));
    assert_eq!(a.content, AttributeContent::Resident { data: ByteBuffer::from_slice(b"hello") });
    assert_eq!(a.duplicate(), a);
}

#[test]
fn non_resident_attribute_is_parsed() {
    let a = read_attribute(&ByteBuffer::from_vec(attribute_bytes(true))).unwrap();
    assert_eq!(a.name, u("ab"));
    assert_eq!(
        a.content,
        AttributeContent::NonResident {
            start_vcn: 0,
            allocated_size: 8192,
            real_size: 5000,
            extents: vec![Extent { lcn: 0x110, clusters: 2, sparse: false }],
        }
    );
    assert_eq!(a.duplicate(), a);
}

#[test]
fn attribute_whose_parts_leave_it_is_malformed() {
    let cases: Vec<(bool, usize, u8)> = vec![
        (false, 0x10, 0x11),
        (false, 0x14, 0x2C),
        (false, 0x0A, 0x2D),
        (false, 0x09, 0x20),
        (true, 0x20, 0x50),
        (true, 0x48, 0x81),
        (true, 0x4C, 0x13),
        (true, 0x4B, 0x80),
    ];
    for (non_resident, at, value) in cases {
        let mut bytes = attribute_bytes(non_resident);
        bytes[at] = value;
        let r = read_attribute(&ByteBuffer::from_vec(bytes));
        assert_eq!(r.err(), Some(NtfsError::MalformedRecord));
    }
    let mut short = attribute_bytes(true);
    short.truncate(0x3F);
    assert_eq!(read_attribute(&ByteBuffer::from_vec(short)).err(), Some(NtfsError::MalformedRecord));
    let r = read_attribute(&ByteBuffer::from_vec(vec![0u8; 15]));
    assert_eq!(r.err(), Some(NtfsError::MalformedRecord));
}

#[test]
fn attribute_list_is_parsed() {
    let mut s = vec![0u8; 0x20];
    s[0] = 0x80;
    s[4] = 0x20;
    s[8] = 9;
    s[0x10..0x18].copy_from_slice(&0x0003_0000_0000_001Cu64.to_le_bytes());
    let mut named = vec![0u8; 0x28];
    named[0] = 0xA0;
    named[4] = 0x28;
    named[6] = 4;
    named[7] = 0x1A;
    named[0x1A..0x22].copy_from_slice(&[b'$', 0, b'I', 0, b'3', 0, b'0', 0]);
    s.extend(named);
    let list = read_list(&ByteBuffer::from_vec(s.clone())).unwrap();
    assert_eq!(
        list,
        vec![
            ListEntry {
                type_code: 0x80,
                name: Vec::new(),
                start_vcn: 9,
                holder: FileReference { segment: 0x1C, sequence: 3 },
            },
            ListEntry {
                type_code: 0xA0,
                name: u("$I30"),
                start_vcn: 0,
                holder: FileReference { segment: 0, sequence: 0 },
            },
        ]
    );
    assert_eq!(read_list(&ByteBuffer::new()), Ok(Vec::new()));
    s.push(0);
    assert_eq!(read_list(&ByteBuffer::from_vec(s.clone())), Err(NtfsError::MalformedRecord));
    s.truncate(0x48);
    s[0x20 + 6] = 8;
    assert_eq!(read_list(&ByteBuffer::from_vec(s.clone())), Err(NtfsError::MalformedRecord));
    s[0x20 + 6] = 4;
    s[0x20 + 4] = 0x19;
    assert_eq!(read_list(&ByteBuffer::from_vec(s)), Err(NtfsError::MalformedRecord));
}

#[test]
fn cursor_without_contents_is_done_at_once() {
    let (_, mut disk) = device();
    let mut writer = DataWriter::new();
    let cursor = RunCursor::start(Vec::new(), 512, 0).unwrap();
    assert!(cursor.is_done());
    let state = ExtractionProcessor::Extracting { cursor };
    let state = state.step(&mut disk, &mut writer);
    assert!(matches!(state, ExtractionProcessor::Done { bytes: 0 }));
    assert_eq!(writer.len(), 0);
    assert_eq!(writer.chunk_count(), 0);
    assert_eq!(disk.read_count(), 0);
}

fn entry_bytes(name: &str, flags: u8, child: Option<u64>) -> Vec<u8> {
    let units = u(name);
    let mut e = vec![0u8; if flags & 2 != 0 { 0x10 } else { 0x52 }];
    if flags & 2 == 0 {
        e[0x50] = units.len() as u8;
        for x in &units {
            e.extend_from_slice(&x.to_le_bytes());
        }
    }
    while e.len() % 8 != 0 {
        e.push(0);
    }
    if let Some(vcn) = child {
        e.extend_from_slice(&vcn.to_le_bytes());
    }
    let total = e.len() as u16;
    e[0..8].copy_from_slice(&0x0002_0000_0000_0021u64.to_le_bytes());
    e[8..10].copy_from_slice(&total.to_le_bytes());
    e[12] = flags;
    e
}

#[test]
fn index_entries_are_read() {
    let mut b = vec![0xEEu8; 3];
    let first = entry_bytes("a.txt", 1, Some(7));
    let last = entry_bytes("", 2, None);
    b.extend_from_slice(&first);
    b.extend_from_slice(&last);
    let end = b.len();
    let buffer = ByteBuffer::from_vec(b);
    assert_eq!(
        read_entry(&buffer, 3, end),
        Some(IndexEntry {
            name: u("a.txt"),
            reference: FileReference { segment: 0x21, sequence: 2 },
            is_subnode: true,
            child_vcn: 7,
            is_last: false,
            length: first.len() as u16,
        })
    );
    assert_eq!(
        read_entry(&buffer, 3 + first.len(), end),
        Some(IndexEntry {
            name: Vec::new(),
            reference: FileReference { segment: 0x21, sequence: 2 },
            is_subnode: false,
            child_vcn: 0,
            is_last: true,
            length: 0x10,
        })
    );
    assert_eq!(read_entry(&buffer, 3, 3 + first.len() - 1), None);
    assert_eq!(read_entry(&buffer, 3 + first.len(), end + 1), None);
    assert_eq!(read_entry(&buffer, end, end), None);
    assert_eq!(read_entry(&buffer, end + 1, end), None);
}

#[test]
fn index_entries_that_cannot_hold_their_parts_are_refused() {
    let mut short_child = entry_bytes("", 3, None);
    short_child[12] = 3;
    let n = short_child.len();
    assert_eq!(read_entry(&ByteBuffer::from_vec(short_child), 0, n), None);
    let mut long_name = entry_bytes("abc", 0, None);
    long_name[0x50] = 4;
    let n = long_name.len();
    assert_eq!(read_entry(&ByteBuffer::from_vec(long_name), 0, n), None);
    let mut tiny = entry_bytes("abc", 0, None);
    tiny[8] = 0x0F;
    let n = tiny.len();
    assert_eq!(read_entry(&ByteBuffer::from_vec(tiny), 0, n), None);
    let mut headless = entry_bytes("abc", 0, None);
    headless[8] = 0x50;
    let n = headless.len();
    assert_eq!(read_entry(&ByteBuffer::from_vec(headless), 0, n), None);
}
