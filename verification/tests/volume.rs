use rawccopy::attribute::{AttributeContent, DATA, INDEX_ALLOCATION, INDEX_ROOT};
use rawccopy::boot::parse_boot_sector;
use rawccopy::bytes::ByteBuffer;
use rawccopy::context::ExecutionContext;
use rawccopy::disk::DiskAccessor;
use rawccopy::error::{Failure, NtfsError, Site};
use rawccopy::extract::{ExtractionJob, ExtractionProcessor, Target};
use rawccopy::index::IndexWalker;
use rawccopy::launch::{exe, exit_code, Outcome};
use rawccopy::mft::{MftReader, ROOT_SEGMENT};
use rawccopy::path::PathResolver;
use rawccopy::reader::{RawFileReader, StreamError};
use rawccopy::record::{read_record, FileReference};
use rawccopy::runs::Extent;
use rawccopy::attribute_list::{load_complete, open_complete};
use rawccopy::attribute::ATTRIBUTE_LIST;
use rawccopy::writer::DataWriter;

const CLUSTER: usize = 4096;
const RECORD: usize = 1024;
const MFT_LCN: usize = 4;
const MFT_RECORDS: usize = 32;
const IMAGE_CLUSTERS: usize = 64;

const HELLO: &[u8; 37] = b"thirty-seven bytes of resident data!\n";

fn u(s: &str) -> Vec<u16> {
    s.encode_utf16().collect()
}

fn pattern(offset: usize) -> u8 {
    (((offset / CLUSTER) * 31 + (offset % CLUSTER)) % 251) as u8
}

fn pad8(v: &mut Vec<u8>) {
    while v.len() % 8 != 0 {
        v.push(0);
    }
}

fn put16(v: &mut [u8], at: usize, x: u16) {
    v[at..at + 2].copy_from_slice(&x.to_le_bytes());
}

fn put32(v: &mut [u8], at: usize, x: u32) {
    v[at..at + 4].copy_from_slice(&x.to_le_bytes());
}

fn put64(v: &mut [u8], at: usize, x: u64) {
    v[at..at + 8].copy_from_slice(&x.to_le_bytes());
}

fn name_bytes(name: &str) -> Vec<u8> {
    u(name).iter().flat_map(|x| x.to_le_bytes()).collect()
}

fn reference(segment: u64, sequence: u16) -> u64 {
    segment | ((sequence as u64) << 48)
}

fn resident(type_code: u32, name: &str, content: &[u8]) -> Vec<u8> {
    let units = u(name).len();
    let mut a = vec![0u8; 0x18];
    a.extend(name_bytes(name));
    pad8(&mut a);
    let content_at = a.len();
    a.extend_from_slice(content);
    pad8(&mut a);
    let total = a.len();
    put32(&mut a, 0, type_code);
    put32(&mut a, 4, total as u32);
    a[8] = 0;
    a[9] = units as u8;
    put16(&mut a, 0x0A, 0x18);
    put32(&mut a, 0x10, content.len() as u32);
    put16(&mut a, 0x14, content_at as u16);
    a
}

fn non_resident(type_code: u32, name: &str, runs: &[u8], real_size: u64, clusters: u64) -> Vec<u8> {
    piece(type_code, name, runs, real_size, 0, clusters)
}

fn piece(type_code: u32, name: &str, runs: &[u8], real_size: u64, start: u64, clusters: u64) -> Vec<u8> {
    let units = u(name).len();
    let mut a = vec![0u8; 0x40];
    a.extend(name_bytes(name));
    pad8(&mut a);
    let runs_at = a.len();
    a.extend_from_slice(runs);
    pad8(&mut a);
    let total = a.len();
    put32(&mut a, 0, type_code);
    put32(&mut a, 4, total as u32);
    a[8] = 1;
    a[9] = units as u8;
    put16(&mut a, 0x0A, 0x40);
    put64(&mut a, 0x10, start);
    put64(&mut a, 0x18, (start + clusters).saturating_sub(1));
    put16(&mut a, 0x20, runs_at as u16);
    put64(&mut a, 0x28, clusters * CLUSTER as u64);
    put64(&mut a, 0x30, real_size);
    put64(&mut a, 0x38, real_size);
    a
}

fn protect(block: &mut [u8], usa_at: usize, usn: u16) {
    let chunks = block.len() / 512;
    put16(block, 4, usa_at as u16);
    put16(block, 6, (chunks + 1) as u16);
    put16(block, usa_at, usn);
    for c in 0..chunks {
        let tail = c * 512 + 510;
        let saved = [block[tail], block[tail + 1]];
        block[usa_at + 2 + 2 * c..usa_at + 4 + 2 * c].copy_from_slice(&saved);
        put16(block, tail, usn);
    }
}

fn record(segment: u64, sequence: u16, flags: u16, attributes: &[Vec<u8>]) -> Vec<u8> {
    extension(segment, sequence, flags, 0, attributes)
}

fn list_entry(type_code: u32, name: &str, start: u64, holder: u64) -> Vec<u8> {
    let mut e = vec![0u8; 0x1A];
    e.extend(name_bytes(name));
    pad8(&mut e);
    let total = e.len();
    put32(&mut e, 0, type_code);
    put16(&mut e, 4, total as u16);
    e[6] = u(name).len() as u8;
    e[7] = 0x1A;
    put64(&mut e, 8, start);
    put64(&mut e, 0x10, holder);
    e
}

fn extension(segment: u64, sequence: u16, flags: u16, base: u64, attributes: &[Vec<u8>]) -> Vec<u8> {
    let mut r = vec![0u8; RECORD];
    r[0..4].copy_from_slice(b"FILE");
    put16(&mut r, 0x10, sequence);
    put16(&mut r, 0x12, 1);
    put16(&mut r, 0x14, 0x38);
    put16(&mut r, 0x16, flags);
    put32(&mut r, 0x1C, RECORD as u32);
    put64(&mut r, 0x20, base);
    put32(&mut r, 0x2C, segment as u32);
    let mut at = 0x38;
    for a in attributes {
        r[at..at + a.len()].copy_from_slice(a);
        at += a.len();
    }
    put32(&mut r, at, 0xFFFF_FFFF);
    put32(&mut r, 0x18, (at + 8) as u32);
    protect(&mut r, 0x30, 0x0101);
    r
}

fn entry(target: u64, name: &str, child: Option<u64>) -> Vec<u8> {
    let units = u(name);
    let mut e = vec![0u8; 0x52];
    e[0x50] = units.len() as u8;
    e[0x51] = 1;
    e.extend(name_bytes(name));
    pad8(&mut e);
    let key = 0x42 + 2 * units.len();
    if let Some(vcn) = child {
        e.extend_from_slice(&vcn.to_le_bytes());
    }
    let total = e.len();
    put64(&mut e, 0, target);
    put16(&mut e, 8, total as u16);
    put16(&mut e, 10, key as u16);
    put16(&mut e, 12, if child.is_some() { 1 } else { 0 });
    e
}

fn last_entry(child: Option<u64>) -> Vec<u8> {
    let mut e = vec![0u8; 0x10];
    if let Some(vcn) = child {
        e.extend_from_slice(&vcn.to_le_bytes());
    }
    let total = e.len();
    put16(&mut e, 8, total as u16);
    put16(&mut e, 12, if child.is_some() { 3 } else { 2 });
    e
}

fn index_root(entries: &[Vec<u8>], large: bool) -> Vec<u8> {
    index_root_sized(entries, large, CLUSTER)
}

fn index_root_sized(entries: &[Vec<u8>], large: bool, block: usize) -> Vec<u8> {
    let mut c = vec![0u8; 0x20];
    put32(&mut c, 0, 0x30);
    put32(&mut c, 4, 1);
    put32(&mut c, 8, block as u32);
    c[12] = 1;
    for e in entries {
        c.extend_from_slice(e);
    }
    let total = (c.len() - 0x10) as u32;
    put32(&mut c, 0x10, 0x10);
    put32(&mut c, 0x14, total);
    put32(&mut c, 0x18, total);
    c[0x1C] = if large { 1 } else { 0 };
    c
}

fn index_block(vcn: u64, entries: &[Vec<u8>]) -> Vec<u8> {
    index_block_sized(vcn, entries, CLUSTER)
}

fn index_block_sized(vcn: u64, entries: &[Vec<u8>], size: usize) -> Vec<u8> {
    let mut b = vec![0u8; size];
    b[0..4].copy_from_slice(b"INDX");
    put64(&mut b, 0x10, vcn);
    let mut at = 0x40;
    for e in entries {
        b[at..at + e.len()].copy_from_slice(e);
        at += e.len();
    }
    put32(&mut b, 0x18, 0x28);
    put32(&mut b, 0x1C, (at - 0x18) as u32);
    put32(&mut b, 0x20, (size - 0x18) as u32);
    protect(&mut b, 0x28, 0x0202);
    b
}

fn boot_sector() -> Vec<u8> {
    let mut s = vec![0u8; 512];
    s[0] = 0xEB;
    s[1] = 0x52;
    s[2] = 0x90;
    s[3..11].copy_from_slice(b"NTFS    ");
    put16(&mut s, 0x0B, 512);
    s[0x0D] = 8;
    put64(&mut s, 0x28, (IMAGE_CLUSTERS * 8) as u64);
    put64(&mut s, 0x30, MFT_LCN as u64);
    s[0x40] = 0xF6;
    s[0x44] = 1;
    s[0x1FE] = 0x55;
    s[0x1FF] = 0xAA;
    s
}

fn place_record(image: &mut [u8], segment: usize, bytes: &[u8]) {
    let at = MFT_LCN * CLUSTER + segment * RECORD;
    image[at..at + RECORD].copy_from_slice(bytes);
}

fn volume() -> Vec<u8> {
    let mut image: Vec<u8> = (0..IMAGE_CLUSTERS * CLUSTER).map(pattern).collect();
    image[0..512].copy_from_slice(&boot_sector());
    for segment in 0..MFT_RECORDS {
        place_record(&mut image, segment, &vec![0u8; RECORD]);
    }
    let mft_data = non_resident(
        DATA,
        "",
        &[0x11, 0x08, MFT_LCN as u8, 0x00],
        (MFT_RECORDS * RECORD) as u64,
        8,
    );
    place_record(&mut image, 0, &record(0, 1, 1, &[mft_data]));
    let root = index_root(
        &[
            entry(reference(23, 1), "big", None),
            entry(reference(20, 1), "dir1", None),
            entry(reference(24, 1), "gone.txt", None),
            entry(reference(22, 1), "runs.bin", None),
            entry(reference(25, 1), "sparse.bin", None),
            entry(reference(27, 1), "split.bin", None),
            entry(reference(21, 9), "stale.txt", None),
            entry(reference(26, 1), "zero.bin", None),
            last_entry(None),
        ],
        false,
    );
    place_record(&mut image, 5, &record(5, 5, 3, &[resident(INDEX_ROOT, "$I30", &root)]));
    let dir1 = index_root(
        &[
            entry(reference(21, 1), "file.txt", None),
            entry(reference(30, 1), "small", None),
            entry(reference(29, 1), "tree", None),
            last_entry(None),
        ],
        false,
    );
    let small_root = index_root_sized(&[last_entry(Some(2))], true, 1024);
    place_record(
        &mut image,
        30,
        &record(
            30,
            1,
            3,
            &[
                resident(INDEX_ROOT, "$I30", &small_root),
                non_resident(INDEX_ALLOCATION, "$I30", &[0x11, 0x01, 37, 0x00], CLUSTER as u64, 1),
            ],
        ),
    );
    let small = index_block_sized(
        2,
        &[entry(reference(22, 1), "inside", None), last_entry(None)],
        1024,
    );
    image[37 * CLUSTER + 1024..37 * CLUSTER + 2048].copy_from_slice(&small);
    let tree_root = index_root(&[last_entry(Some(0))], true);
    place_record(
        &mut image,
        29,
        &record(
            29,
            1,
            3,
            &[
                resident(INDEX_ROOT, "$I30", &tree_root),
                non_resident(INDEX_ALLOCATION, "$I30", &[0x11, 0x03, 33, 0x00], 3 * CLUSTER as u64, 3),
            ],
        ),
    );
    let top = index_block(
        0,
        &[entry(reference(21, 1), "mike", Some(1)), last_entry(Some(2))],
    );
    let low = index_block(
        1,
        &[
            entry(reference(22, 1), "alpha", None),
            entry(reference(25, 1), "Bravo", None),
            last_entry(None),
        ],
    );
    let high = index_block(2, &[entry(reference(20, 1), "zulu", None), last_entry(None)]);
    image[33 * CLUSTER..34 * CLUSTER].copy_from_slice(&top);
    image[34 * CLUSTER..35 * CLUSTER].copy_from_slice(&low);
    image[35 * CLUSTER..36 * CLUSTER].copy_from_slice(&high);
    place_record(&mut image, 20, &record(20, 1, 3, &[resident(INDEX_ROOT, "$I30", &dir1)]));
    place_record(
        &mut image,
        21,
        &record(
            21,
            1,
            1,
            &[resident(0x10, "", &[0u8; 48]), resident(DATA, "", HELLO), resident(DATA, "ads", b"alternate")],
        ),
    );
    place_record(
        &mut image,
        22,
        &record(
            22,
            1,
            1,
            &[non_resident(DATA, "", &[0x11, 0x0A, 0x32, 0x11, 0x05, 0xFD, 0x00], 61_000, 15)],
        ),
    );
    let big_root = index_root(&[last_entry(Some(0))], true);
    place_record(
        &mut image,
        23,
        &record(
            23,
            1,
            3,
            &[
                resident(INDEX_ROOT, "$I30", &big_root),
                non_resident(INDEX_ALLOCATION, "$I30", &[0x11, 0x01, 30, 0x00], CLUSTER as u64, 1),
            ],
        ),
    );
    let block = index_block(
        0,
        &[
            entry(reference(21, 1), "alpha.txt", None),
            entry(reference(22, 1), "Beta.txt", None),
            entry(reference(20, 1), "gamma", None),
            last_entry(None),
        ],
    );
    image[30 * CLUSTER..31 * CLUSTER].copy_from_slice(&block);
    place_record(&mut image, 24, &record(24, 1, 0, &[resident(DATA, "", b"deleted")]));
    place_record(
        &mut image,
        25,
        &record(
            25,
            1,
            1,
            &[non_resident(DATA, "", &[0x01, 0x02, 0x11, 0x01, 40, 0x00], 3 * 4096 - 100, 3)],
        ),
    );
    place_record(
        &mut image,
        26,
        &record(26, 1, 1, &[non_resident(DATA, "", &[0x01, 0x03, 0x00], 10_000, 3)]),
    );
    place_split_file(&mut image, reference(27, 1), reference(28, 3));
    image
}

fn place_split_file(image: &mut [u8], base: u64, holder: u64) {
    let mut list = Vec::new();
    list.extend(list_entry(0x10, "", 0, reference(27, 1)));
    list.extend(list_entry(DATA, "", 0, reference(27, 1)));
    list.extend(list_entry(DATA, "", 2, holder));
    list.extend(list_entry(DATA, "tail", 0, holder));
    place_record(
        image,
        27,
        &record(
            27,
            1,
            1,
            &[
                resident(0x10, "", &[0u8; 48]),
                resident(ATTRIBUTE_LIST, "", &list),
                piece(DATA, "", &[0x11, 0x02, 44, 0x00], SPLIT_SIZE, 0, 2),
            ],
        ),
    );
    place_record(
        image,
        28,
        &extension(
            28,
            3,
            1,
            base,
            &[
                piece(DATA, "", &[0x11, 0x02, 54, 0x00], 0, 2, 2),
                resident(DATA, "tail", b"in the second segment"),
            ],
        ),
    );
}

const SPLIT_SIZE: u64 = 3 * 4096 + 5;

fn expected_split_content(image: &[u8]) -> Vec<u8> {
    let mut expected = Vec::new();
    expected.extend_from_slice(&image[44 * CLUSTER..46 * CLUSTER]);
    expected.extend_from_slice(&image[54 * CLUSTER..56 * CLUSTER]);
    expected.truncate(SPLIT_SIZE as usize);
    expected
}

fn job(path: &str) -> ExtractionJob {
    ExtractionJob { target: Target::Path(u(path)), stream: Vec::new(), bytes_extracted: 0 }
}

fn extract(image: Vec<u8>, job: ExtractionJob) -> Result<Vec<u8>, NtfsError> {
    let mut context = ExecutionContext::setup(image, 512, Vec::new(), job)?;
    let n = context.perform_operation()?;
    assert_eq!(context.job().bytes_extracted, n);
    assert!(context.is_done());
    let out = context.cleanup().into_vec();
    assert_eq!(out.len() as u64, n);
    Ok(out)
}

fn open_volume(image: Vec<u8>) -> (DiskAccessor, PathResolver) {
    let mut disk = DiskAccessor::new(image, 512).unwrap();
    let boot = parse_boot_sector(&disk.read_bytes(0, 512).unwrap()).unwrap();
    let mft = MftReader::bootstrap(&mut disk, &boot).unwrap();
    let walker = IndexWalker::new(boot.cluster_size(), boot.bytes_per_sector, Vec::new());
    (disk, PathResolver::new(mft, walker))
}

fn expected_runs_content(image: &[u8]) -> Vec<u8> {
    let mut expected = Vec::new();
    expected.extend_from_slice(&image[50 * CLUSTER..60 * CLUSTER]);
    expected.extend_from_slice(&image[47 * CLUSTER..52 * CLUSTER]);
    expected.truncate(61_000);
    expected
}

#[test]
fn resident_file_is_extracted_by_path() {
    let out = extract(volume(), job("/dir1/file.txt")).unwrap();
    assert_eq!(out.len(), 37);
    assert_eq!(out, HELLO.to_vec());
}

#[test]
fn fragmented_file_is_rebuilt_from_its_runs() {
    let image = volume();
    let out = extract(image.clone(), job("/runs.bin")).unwrap();
    assert_eq!(out.len(), 61_000);
    assert_eq!(out, expected_runs_content(&image));
    assert_eq!(out[0], image[50 * CLUSTER]);
    assert_eq!(out[10 * CLUSTER], image[47 * CLUSTER]);
    assert_eq!(out[60_999], image[47 * CLUSTER + 61_000 - 10 * CLUSTER - 1]);
}

#[test]
fn each_physical_run_costs_one_read_and_one_chunk() {
    let mut context = ExecutionContext::setup(volume(), 512, Vec::new(), job("runs.bin")).unwrap();
    context.begin();
    let before = context.device_reads();
    assert_eq!(context.perform_operation(), Ok(61_000));
    assert_eq!(context.device_reads(), before + 2);
    let writer = context.cleanup();
    assert_eq!(writer.chunk_lengths(), &[10 * CLUSTER, 61_000 - 10 * CLUSTER]);
    assert_eq!(writer.chunk_count(), 2);
    assert_eq!(writer.len(), 61_000);
}

#[test]
fn sparse_runs_give_zeroes_without_reading() {
    let mut context = ExecutionContext::setup(volume(), 512, Vec::new(), job("/zero.bin")).unwrap();
    context.begin();
    let before = context.device_reads();
    while !context.is_done() {
        assert_eq!(context.failure(), None);
        context.pump();
    }
    assert_eq!(context.device_reads(), before);
    assert_eq!(context.written(), vec![0u8; 10_000].as_slice());
}

#[test]
fn sparse_and_physical_runs_mix() {
    let image = volume();
    let mut context =
        ExecutionContext::setup(image.clone(), 512, Vec::new(), job("/sparse.bin")).unwrap();
    context.begin();
    let before = context.device_reads();
    assert_eq!(context.perform_operation(), Ok(3 * 4096 - 100));
    assert_eq!(context.device_reads(), before + 1);
    let out = context.cleanup().into_vec();
    assert_eq!(&out[..2 * CLUSTER], vec![0u8; 2 * CLUSTER].as_slice());
    assert_eq!(&out[2 * CLUSTER..], &image[40 * CLUSTER..41 * CLUSTER - 100]);
}

#[test]
fn named_stream_is_selected() {
    let mut j = job("/dir1/file.txt");
    j.stream = u("ads");
    assert_eq!(extract(volume(), j).unwrap(), b"alternate".to_vec());
    let mut j = job("/dir1/file.txt");
    j.stream = u("none");
    assert_eq!(extract(volume(), j), Err(NtfsError::AttributeNotFound));
}

#[test]
fn record_number_is_a_target() {
    let j = ExtractionJob { target: Target::Record(21), stream: Vec::new(), bytes_extracted: 7 };
    assert_eq!(extract(volume(), j).unwrap(), HELLO.to_vec());
    let j = ExtractionJob { target: Target::Record(24), stream: Vec::new(), bytes_extracted: 0 };
    assert_eq!(extract(volume(), j), Err(NtfsError::RecordNotInUse));
    let j = ExtractionJob { target: Target::Record(32), stream: Vec::new(), bytes_extracted: 0 };
    assert_eq!(extract(volume(), j), Err(NtfsError::RecordOutOfRange));
    let j = ExtractionJob { target: Target::Record(7), stream: Vec::new(), bytes_extracted: 0 };
    assert_eq!(extract(volume(), j), Err(NtfsError::RecordNotInUse));
}

#[test]
fn names_are_found_without_regard_to_case() {
    assert_eq!(extract(volume(), job("\\DIR1\\File.TXT")).unwrap(), HELLO.to_vec());
    assert_eq!(extract(volume(), job("//dir1///file.txt/")).unwrap(), HELLO.to_vec());
}

#[test]
fn names_are_found_in_index_blocks() {
    let image = volume();
    assert_eq!(extract(image.clone(), job("/big/alpha.txt")).unwrap(), HELLO.to_vec());
    assert_eq!(extract(image.clone(), job("/big/BETA.TXT")).unwrap().len(), 61_000);
    assert_eq!(extract(image.clone(), job("/big/gamma/file.txt")).unwrap(), HELLO.to_vec());
    assert_eq!(extract(image.clone(), job("/big/delta")), Err(NtfsError::PathNotFound));
    assert_eq!(extract(image, job("/big/aaa")), Err(NtfsError::PathNotFound));
}

#[test]
fn missing_component_is_path_not_found() {
    assert_eq!(extract(volume(), job("/dir1/nothing")), Err(NtfsError::PathNotFound));
    assert_eq!(extract(volume(), job("/nothing/file.txt")), Err(NtfsError::PathNotFound));
}

#[test]
fn file_in_the_middle_is_not_a_directory() {
    assert_eq!(extract(volume(), job("/runs.bin/x")), Err(NtfsError::NotADirectory));
}

#[test]
fn directory_has_no_data_stream() {
    assert_eq!(extract(volume(), job("/dir1")), Err(NtfsError::AttributeNotFound));
}

#[test]
fn stale_reference_is_refused() {
    assert_eq!(extract(volume(), job("/stale.txt")), Err(NtfsError::StaleReference));
    let (mut disk, resolver) = open_volume(volume());
    let live = FileReference { segment: 21, sequence: 1 };
    let stale = FileReference { segment: 21, sequence: 2 };
    assert!(resolver.mft().open(&mut disk, live).is_ok());
    assert_eq!(resolver.mft().open(&mut disk, stale), Err(NtfsError::StaleReference));
}

#[test]
fn record_not_in_use_is_never_a_target() {
    assert_eq!(extract(volume(), job("/gone.txt")), Err(NtfsError::RecordNotInUse));
    let (mut disk, resolver) = open_volume(volume());
    assert_eq!(resolver.mft().load(&mut disk, 24), Err(NtfsError::RecordNotInUse));
    assert_eq!(resolver.mft().read_record(&mut disk, 24), Err(NtfsError::RecordNotInUse));
    assert_eq!(resolver.resolve(&mut disk, &u("/gone.txt")), Err(NtfsError::RecordNotInUse));
}

#[test]
fn lookup_twice_gives_the_same_reference() {
    let (mut disk, resolver) = open_volume(volume());
    let root = resolver.root(&mut disk).unwrap();
    assert_eq!(root, FileReference { segment: ROOT_SEGMENT, sequence: 5 });
    let first = resolver.step(&mut disk, root, &u("dir1"));
    let second = resolver.step(&mut disk, root, &u("dir1"));
    assert_eq!(first, Ok(FileReference { segment: 20, sequence: 1 }));
    assert_eq!(first, second);
}

#[test]
fn resolving_a_path_is_resolving_its_parts_in_turn() {
    let (mut disk, resolver) = open_volume(volume());
    let whole = resolver.resolve(&mut disk, &u("/big/gamma/file.txt")).unwrap();
    let root = resolver.root(&mut disk).unwrap();
    let a = resolver.resolve_from(&mut disk, root, &u("/big")).unwrap();
    let b = resolver.resolve_from(&mut disk, a, &u("/gamma")).unwrap();
    let c = resolver.resolve_from(&mut disk, b, &u("/file.txt")).unwrap();
    assert_eq!(whole, c);
    assert_eq!(c, FileReference { segment: 21, sequence: 1 });
    assert_eq!(resolver.resolve(&mut disk, &u("")), Ok(root));
}

#[test]
fn torn_record_is_damaged() {
    let mut image = volume();
    let tail = MFT_LCN * CLUSTER + 21 * RECORD + 510;
    image[tail] ^= 0xFF;
    assert_eq!(extract(image, job("/dir1/file.txt")), Err(NtfsError::RecordDamaged));
}

#[test]
fn torn_index_block_is_damaged() {
    let mut image = volume();
    image[30 * CLUSTER + 3 * 512 + 511] ^= 0x01;
    assert_eq!(extract(image, job("/big/alpha.txt")), Err(NtfsError::RecordDamaged));
}

#[test]
fn attribute_longer_than_the_record_is_malformed() {
    let mut image = volume();
    let at = MFT_LCN * CLUSTER + 21 * RECORD + 0x38 + 4;
    put32(&mut image, at, 2000);
    assert_eq!(extract(image, job("/dir1/file.txt")), Err(NtfsError::MalformedRecord));
}

#[test]
fn runs_shorter_than_the_contents_are_malformed() {
    let mut image = volume();
    let data = non_resident(DATA, "", &[0x11, 0x0A, 0x32, 0x00], 61_000, 15);
    place_record(&mut image, 22, &record(22, 1, 1, &[data]));
    assert_eq!(extract(image, job("/runs.bin")), Err(NtfsError::MalformedRecord));
}

#[test]
fn runs_outside_the_device_are_io_faults() {
    let mut image = volume();
    let data = non_resident(DATA, "", &[0x11, 0x0A, 0x32, 0x11, 0x05, 0x0A, 0x00], 61_000, 15);
    place_record(&mut image, 22, &record(22, 1, 1, &[data]));
    let mut context = ExecutionContext::setup(image, 512, Vec::new(), job("/runs.bin")).unwrap();
    assert_eq!(context.perform_operation(), Err(NtfsError::IoFault));
    let fault = Failure { error: NtfsError::IoFault, site: Site::Contents(10 * 4096) };
    assert_eq!(context.failure(), Some(fault));
    assert_eq!(context.written().len(), 10 * CLUSTER);
    assert!(!context.is_done());
    assert_eq!(context.perform_operation(), Err(NtfsError::IoFault));
}

#[test]
fn index_block_outside_the_allocation_is_corrupt() {
    let mut image = volume();
    let big_root = index_root(&[last_entry(Some(3))], true);
    place_record(
        &mut image,
        23,
        &record(
            23,
            1,
            3,
            &[
                resident(INDEX_ROOT, "$I30", &big_root),
                non_resident(INDEX_ALLOCATION, "$I30", &[0x11, 0x01, 30, 0x00], CLUSTER as u64, 1),
            ],
        ),
    );
    assert_eq!(extract(image, job("/big/alpha.txt")), Err(NtfsError::IndexCorrupt));
}

#[test]
fn index_that_points_to_itself_is_corrupt() {
    let mut image = volume();
    let block = index_block(0, &[last_entry(Some(0))]);
    image[30 * CLUSTER..31 * CLUSTER].copy_from_slice(&block);
    assert_eq!(extract(image, job("/big/alpha.txt")), Err(NtfsError::IndexCorrupt));
}

#[test]
fn volume_without_signature_is_not_ntfs() {
    let mut image = volume();
    image[3] = b'X';
    let e = ExecutionContext::setup(image, 512, Vec::new(), job("/dir1/file.txt")).err();
    assert_eq!(e, Some(NtfsError::NotNtfs));
}

#[test]
fn device_shorter_than_a_boot_sector_is_an_io_fault() {
    let e = ExecutionContext::setup(Vec::new(), 512, Vec::new(), job("/x")).err();
    assert_eq!(e, Some(NtfsError::IoFault));
    let e = ExecutionContext::setup(volume(), 0, Vec::new(), job("/x")).err();
    assert_eq!(e, Some(NtfsError::IoFault));
}

#[test]
fn table_outside_the_device_is_an_io_fault() {
    let mut image = volume();
    put64(&mut image, 0x30, 1_000_000);
    let e = ExecutionContext::setup(image, 512, Vec::new(), job("/x")).err();
    assert_eq!(e, Some(NtfsError::IoFault));
}

#[test]
fn physical_sector_size_does_not_change_what_is_read() {
    let image = volume();
    for sector in [512u32, 1024, 4096] {
        let mut context =
            ExecutionContext::setup(image.clone(), sector, Vec::new(), job("/runs.bin")).unwrap();
        assert_eq!(context.perform_operation(), Ok(61_000));
        assert_eq!(context.written(), expected_runs_content(&image).as_slice());
    }
}

#[test]
fn run_reports_success_and_exit_code() {
    let report = exe(&vec!["/FileNamePath:x", "/Quiet"], volume(), 512, Vec::new(), job("/dir1/file.txt"));
    assert!(report.quiet);
    assert_eq!(report.outcome, Outcome::Success);
    assert_eq!(report.error, None);
    assert_eq!(report.output, HELLO.to_vec());
    assert_eq!(exit_code(report.outcome), 0);
}

#[test]
fn run_reports_setup_failure() {
    let report = exe(&vec!["/quiet", "Quiet"], vec![0u8; 4096], 512, Vec::new(), job("/dir1/file.txt"));
    assert!(!report.quiet);
    assert_eq!(report.outcome, Outcome::SetupFailed);
    assert_eq!(report.error, Some(Failure { error: NtfsError::NotNtfs, site: Site::Volume }));
    assert!(report.output.is_empty());
    assert_eq!(exit_code(report.outcome), -1);
}

#[test]
fn run_reports_operation_failure_without_output() {
    let mut image = volume();
    let data = non_resident(DATA, "", &[0x11, 0x0A, 0x32, 0x11, 0x05, 0x0A, 0x00], 61_000, 15);
    place_record(&mut image, 22, &record(22, 1, 1, &[data]));
    let report = exe(&Vec::new(), image, 512, Vec::new(), job("/runs.bin"));
    assert_eq!(report.outcome, Outcome::OperationFailed);
    let fault = Failure { error: NtfsError::IoFault, site: Site::Contents(10 * 4096) };
    assert_eq!(report.error, Some(fault));
    assert!(report.output.is_empty());
    assert_eq!(exit_code(report.outcome), -2);
}

#[test]
fn stream_hands_out_the_contents_piece_by_piece() {
    let image = volume();
    let mut reader = RawFileReader::new(image.clone(), 512, Vec::new(), job("/runs.bin")).unwrap();
    assert!(reader.is_open());
    let mut out = Vec::new();
    let mut calls = 0;
    loop {
        let n = reader.read(&mut out, 7000).unwrap();
        calls += 1;
        if n == 0 {
            break;
        }
        assert!(n <= 7000);
    }
    assert_eq!(out, expected_runs_content(&image));
    assert!(calls >= 61_000 / 7000);
    assert_eq!(reader.read(&mut out, 10), Ok(0));
    assert_eq!(reader.read(&mut out, 0), Ok(0));
    assert_eq!(out.len(), 61_000);
}

#[test]
fn closed_stream_is_a_broken_pipe() {
    let mut reader = RawFileReader::new(volume(), 512, Vec::new(), job("/dir1/file.txt")).unwrap();
    let mut out = Vec::new();
    assert_eq!(reader.read(&mut out, 10), Ok(10));
    reader.close();
    assert!(!reader.is_open());
    assert_eq!(reader.read(&mut out, 10), Err(StreamError::BrokenPipe));
    reader.close();
    assert_eq!(reader.read(&mut out, 10), Err(StreamError::BrokenPipe));
    assert_eq!(out, HELLO[..10].to_vec());
}

#[test]
fn stream_that_cannot_be_opened_is_not_found() {
    let r = RawFileReader::new(volume(), 512, Vec::new(), job("/dir1/missing"));
    assert_eq!(r.err(), Some(StreamError::NotFound));
    let r = RawFileReader::new(vec![0u8; 1024], 512, Vec::new(), job("/dir1/file.txt"));
    assert_eq!(r.err(), Some(StreamError::NotFound));
}

#[test]
fn stream_fails_where_the_extraction_fails() {
    let mut image = volume();
    let data = non_resident(DATA, "", &[0x11, 0x0A, 0x32, 0x11, 0x05, 0x0A, 0x00], 61_000, 15);
    place_record(&mut image, 22, &record(22, 1, 1, &[data]));
    let mut reader = RawFileReader::new(image.clone(), 512, Vec::new(), job("/runs.bin")).unwrap();
    let mut out = Vec::new();
    assert_eq!(reader.read(&mut out, 10 * CLUSTER), Ok(10 * CLUSTER));
    assert_eq!(out, image[50 * CLUSTER..60 * CLUSTER].to_vec());
    assert_eq!(reader.read(&mut out, 10), Err(StreamError::Other));
    assert_eq!(reader.read(&mut out, 10), Err(StreamError::Other));
    assert_eq!(out.len(), 10 * CLUSTER);
}

#[test]
fn states_follow_one_another() {
    let (mut disk, resolver) = open_volume(volume());
    let mut writer = DataWriter::new();
    let state = ExtractionProcessor::new();
    assert!(!state.is_extracting());
    let state = state.step(&mut disk, &mut writer);
    assert!(matches!(state, ExtractionProcessor::Resolving));
    let state = state.locate(&mut disk, &resolver, &Target::Path(u("/runs.bin")));
    assert!(matches!(state, ExtractionProcessor::Located { .. }));
    let state = state.locate(&mut disk, &resolver, &Target::Path(u("/nothing")));
    assert!(matches!(state, ExtractionProcessor::Located { .. }));
    let state = state.select(&mut writer, 4096, &[]);
    assert!(state.is_extracting());
    let state = state.step(&mut disk, &mut writer);
    assert!(state.is_extracting());
    assert_eq!(writer.len(), 10 * CLUSTER);
    let state = state.step(&mut disk, &mut writer);
    assert!(matches!(state, ExtractionProcessor::Done { bytes: 61_000 }));
    let state = state.run(&mut disk, &mut writer);
    assert!(matches!(state, ExtractionProcessor::Done { bytes: 61_000 }));
    assert_eq!(writer.len(), 61_000);
}

#[test]
fn failed_state_is_left_by_no_transition() {
    let (mut disk, resolver) = open_volume(volume());
    let mut writer = DataWriter::new();
    let state = ExtractionProcessor::new().locate(&mut disk, &resolver, &Target::Path(u("/nothing")));
    let lost = Failure { error: NtfsError::PathNotFound, site: Site::Component(0) };
    assert!(matches!(state, ExtractionProcessor::Failed { failure } if failure == lost));
    let state = state.locate(&mut disk, &resolver, &Target::Path(u("/runs.bin")));
    let state = state.select(&mut writer, 4096, &[]);
    let state = state.step(&mut disk, &mut writer);
    let state = state.run(&mut disk, &mut writer);
    assert!(matches!(state, ExtractionProcessor::Failed { failure } if failure == lost));
    assert_eq!(writer.len(), 0);
}

#[test]
fn record_of_the_table_is_parsed_before_any_lookup() {
    let image = volume();
    let raw = ByteBuffer::from_slice(&image[MFT_LCN * CLUSTER..MFT_LCN * CLUSTER + RECORD]);
    let record = read_record(&raw, 0).unwrap();
    assert!(record.is_in_use());
    assert!(!record.is_directory());
    assert_eq!(record.reference, FileReference { segment: 0, sequence: 1 });
    assert_eq!(record.attributes.len(), 1);
    assert_eq!(record.find_attribute(DATA, &[]), Some(0));
    assert_eq!(record.find_attribute(INDEX_ROOT, &[]), None);
    match &record.attributes[0].content {
        AttributeContent::NonResident { real_size, extents, .. } => {
            assert_eq!(*real_size, (MFT_RECORDS * RECORD) as u64);
            assert_eq!(extents, &vec![Extent { lcn: 4, clusters: 8, sparse: false }]);
        }
        _ => panic!("the table's data must not be resident"),
    }
    let (_, resolver) = open_volume(image);
    assert_eq!(resolver.mft().record_count(), 32);
    assert_eq!(resolver.mft().record_size(), 1024);
    assert_eq!(resolver.mft().cluster_size(), 4096);
}

#[test]
fn attribute_split_over_two_records_is_joined() {
    let image = volume();
    let out = extract(image.clone(), job("/split.bin")).unwrap();
    assert_eq!(out.len() as u64, SPLIT_SIZE);
    assert_eq!(out, expected_split_content(&image));
    let mut j = job("/split.bin");
    j.stream = u("tail");
    assert_eq!(extract(image, j).unwrap(), b"in the second segment".to_vec());
}

#[test]
fn whole_record_holds_what_the_list_names() {
    let (mut disk, resolver) = open_volume(volume());
    let whole = load_complete(resolver.mft(), &mut disk, 27).unwrap();
    assert_eq!(whole.reference, FileReference { segment: 27, sequence: 1 });
    assert_eq!(whole.attributes.len(), 3);
    assert_eq!(whole.attributes[0].type_code, 0x10);
    assert_eq!(whole.attributes[1].type_code, DATA);
    assert_eq!(whole.attributes[2].name, u("tail"));
    match &whole.attributes[1].content {
        AttributeContent::NonResident { real_size, extents, start_vcn, .. } => {
            assert_eq!(*real_size, SPLIT_SIZE);
            assert_eq!(*start_vcn, 0);
            assert_eq!(
                extents,
                &vec![
                    Extent { lcn: 44, clusters: 2, sparse: false },
                    Extent { lcn: 54, clusters: 2, sparse: false },
                ]
            );
        }
        _ => panic!("the joined data must not be resident"),
    }
    let plain = resolver.mft().load(&mut disk, 27).unwrap();
    assert_eq!(plain.attributes.len(), 3);
    assert_eq!(plain.find_attribute(ATTRIBUTE_LIST, &[]), Some(1));
    let same = open_complete(resolver.mft(), &mut disk, FileReference { segment: 21, sequence: 1 });
    assert_eq!(same.unwrap(), resolver.mft().load(&mut disk, 21).unwrap());
}

#[test]
fn list_that_names_an_outlived_record_is_stale() {
    let mut image = volume();
    place_split_file(&mut image, reference(27, 1), reference(28, 4));
    assert_eq!(extract(image, job("/split.bin")), Err(NtfsError::StaleReference));
}

#[test]
fn piece_in_a_record_of_another_file_is_malformed() {
    let mut image = volume();
    place_split_file(&mut image, reference(26, 1), reference(28, 3));
    assert_eq!(extract(image, job("/split.bin")), Err(NtfsError::MalformedRecord));
}

#[test]
fn piece_that_does_not_go_on_is_malformed() {
    let mut image = volume();
    place_record(
        &mut image,
        28,
        &extension(28, 3, 1, reference(27, 1), &[piece(DATA, "", &[0x11, 0x02, 54, 0x00], 0, 3, 2)]),
    );
    assert_eq!(extract(image, job("/split.bin")), Err(NtfsError::MalformedRecord));
}

fn failure_of(image: Vec<u8>, job: ExtractionJob) -> Option<Failure> {
    let mut context = ExecutionContext::setup(image, 512, Vec::new(), job).unwrap();
    assert!(context.perform_operation().is_err());
    context.failure()
}

#[test]
fn failure_names_the_place_at_which_it_came_up() {
    let at = |error, site| Some(Failure { error, site });
    assert_eq!(
        failure_of(volume(), job("/dir1/nothing")),
        at(NtfsError::PathNotFound, Site::Component(1))
    );
    assert_eq!(
        failure_of(volume(), job("/big/gamma/x/y")),
        at(NtfsError::PathNotFound, Site::Component(2))
    );
    assert_eq!(
        failure_of(volume(), job("/runs.bin/x")),
        at(NtfsError::NotADirectory, Site::Component(1))
    );
    assert_eq!(
        failure_of(volume(), job("/stale.txt")),
        at(NtfsError::StaleReference, Site::Component(1))
    );
    assert_eq!(
        failure_of(volume(), job("/dir1")),
        at(NtfsError::AttributeNotFound, Site::Attribute(DATA))
    );
    let by_number = ExtractionJob { target: Target::Record(24), stream: Vec::new(), bytes_extracted: 0 };
    assert_eq!(failure_of(volume(), by_number), at(NtfsError::RecordNotInUse, Site::Record(24)));
    let mut image = volume();
    place_record(&mut image, 5, &vec![0u8; RECORD]);
    assert_eq!(
        failure_of(image, job("/dir1/file.txt")),
        at(NtfsError::RecordNotInUse, Site::Record(5))
    );
    let mut image = volume();
    place_split_file(&mut image, reference(27, 1), reference(28, 4));
    assert_eq!(
        failure_of(image, job("/split.bin")),
        at(NtfsError::StaleReference, Site::Record(27))
    );
}

#[test]
fn path_says_at_which_name_it_breaks_off() {
    let (mut disk, resolver) = open_volume(volume());
    let root = resolver.root(&mut disk).unwrap();
    assert_eq!(
        resolver.resolve_traced(&mut disk, root, &u("big/gamma/none/file.txt")),
        Err((NtfsError::PathNotFound, 2))
    );
    assert_eq!(
        resolver.resolve_traced(&mut disk, root, &u("gone.txt")),
        Err((NtfsError::RecordNotInUse, 1))
    );
    assert_eq!(
        resolver.resolve_traced(&mut disk, root, &u("big/gamma")),
        Ok(FileReference { segment: 20, sequence: 1 })
    );
}

#[test]
fn search_goes_down_through_the_blocks_of_a_tree() {
    let (mut disk, resolver) = open_volume(volume());
    let mut find = |path: &str| resolver.resolve(&mut disk, &u(path));
    assert_eq!(find("/dir1/tree/mike"), Ok(FileReference { segment: 21, sequence: 1 }));
    assert_eq!(find("/dir1/tree/ALPHA"), Ok(FileReference { segment: 22, sequence: 1 }));
    assert_eq!(find("/dir1/tree/bravo"), Ok(FileReference { segment: 25, sequence: 1 }));
    assert_eq!(find("/dir1/tree/Zulu"), Ok(FileReference { segment: 20, sequence: 1 }));
    assert_eq!(find("/dir1/tree/zulu/file.txt"), Ok(FileReference { segment: 21, sequence: 1 }));
    for missing in ["/dir1/tree/aaa", "/dir1/tree/charlie", "/dir1/tree/november", "/dir1/tree/zz"] {
        assert_eq!(find(missing), Err(NtfsError::PathNotFound));
    }
}

#[test]
fn blocks_smaller_than_a_cluster_are_counted_in_sectors() {
    let (mut disk, resolver) = open_volume(volume());
    assert_eq!(
        resolver.resolve(&mut disk, &u("/dir1/small/inside")),
        Ok(FileReference { segment: 22, sequence: 1 })
    );
    assert_eq!(
        resolver.resolve(&mut disk, &u("/dir1/small/outside")),
        Err(NtfsError::PathNotFound)
    );
}
