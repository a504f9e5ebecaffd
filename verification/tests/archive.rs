use cripak::cpk::{same_text, Cpk, CpkData, FileEntry};
use cripak::endian::EndianReader;
use cripak::error::ErrorKind;
use cripak::utf::CellValue;

const ABSENT: u64 = 0xFFFF_FFFF_FFFF_FFFF;

// Values of the cells of per-row columns, as a test writes them.
enum Val {
    U16(u16),
    U32(u32),
    U64(u64),
    Str(&'static str),
    Data(Vec<u8>),
}

fn push_u16(out: &mut Vec<u8>, v: u16) {
    out.extend_from_slice(&v.to_be_bytes());
}

fn push_u32(out: &mut Vec<u8>, v: u32) {
    out.extend_from_slice(&v.to_be_bytes());
}

// Builds the bytes of a table: header, column descriptors, rows, strings
// heap, data heap. `rows` holds the values of the per-row columns only.
fn build_table(columns: &[(u8, &str)], rows: &[Vec<Val>]) -> Vec<u8> {
    let mut strings: Vec<u8> = b"<NULL>\0".to_vec();
    let mut data_heap: Vec<u8> = Vec::new();
    let mut descriptors: Vec<u8> = Vec::new();
    for (flags, name) in columns {
        descriptors.push(*flags);
        push_u32(&mut descriptors, strings.len() as u32);
        strings.extend_from_slice(name.as_bytes());
        strings.push(0);
    }
    let mut row_bytes: Vec<u8> = Vec::new();
    let mut row_length = 0usize;
    for (index, row) in rows.iter().enumerate() {
        let start = row_bytes.len();
        for value in row {
            match value {
                Val::U16(v) => push_u16(&mut row_bytes, *v),
                Val::U32(v) => push_u32(&mut row_bytes, *v),
                Val::U64(v) => row_bytes.extend_from_slice(&v.to_be_bytes()),
                Val::Str(s) => {
                    push_u32(&mut row_bytes, strings.len() as u32);
                    strings.extend_from_slice(s.as_bytes());
                    strings.push(0);
                }
                Val::Data(d) => {
                    push_u32(&mut row_bytes, data_heap.len() as u32);
                    push_u32(&mut row_bytes, d.len() as u32);
                    data_heap.extend_from_slice(d);
                }
            }
        }
        if index == 0 {
            row_length = row_bytes.len() - start;
        }
    }
    let rows_rel = 24 + descriptors.len();
    let strings_rel = rows_rel + row_bytes.len();
    let data_rel = strings_rel + strings.len();
    let total = 8 + data_rel + data_heap.len();
    let mut out: Vec<u8> = b"@UTF".to_vec();
    push_u32(&mut out, (total - 8) as u32);
    push_u32(&mut out, rows_rel as u32);
    push_u32(&mut out, strings_rel as u32);
    push_u32(&mut out, data_rel as u32);
    push_u32(&mut out, 0);
    push_u16(&mut out, columns.len() as u16);
    push_u16(&mut out, row_length as u16);
    push_u32(&mut out, rows.len() as u32);
    out.extend_from_slice(&descriptors);
    out.extend_from_slice(&row_bytes);
    out.extend_from_slice(&strings);
    out.extend_from_slice(&data_heap);
    out
}

// Applies the keystream without the library.
fn obfuscate(bytes: &[u8]) -> Vec<u8> {
    let mut m: u32 = 0x655F;
    let mut out = Vec::new();
    for byte in bytes {
        out.push(byte ^ (m & 0xFF) as u8);
        m = m.wrapping_mul(0x4115);
    }
    out
}

// Puts a section at `offset`: signature, four filler bytes, the size of
// the table in little-endian order, the table.
fn put_section(image: &mut Vec<u8>, offset: usize, signature: &[u8; 4], table: &[u8]) {
    if image.len() < offset {
        image.resize(offset, 0);
    }
    image.truncate(offset);
    image.extend_from_slice(signature);
    image.extend_from_slice(&[0xFF; 4]);
    image.extend_from_slice(&(table.len() as u64).to_le_bytes());
    image.extend_from_slice(table);
}

fn put_bytes(image: &mut Vec<u8>, offset: usize, bytes: &[u8]) {
    if image.len() < offset + bytes.len() {
        image.resize(offset + bytes.len(), 0);
    }
    image[offset..offset + bytes.len()].copy_from_slice(bytes);
}

struct Header {
    toc: Option<u64>,
    etoc: Option<u64>,
    itoc: Option<u64>,
    gtoc: Option<u64>,
    content: Option<u64>,
    align: Option<u16>,
}

fn no_sections() -> Header {
    Header { toc: None, etoc: None, itoc: None, gtoc: None, content: Some(0), align: None }
}

fn header_table(header: &Header) -> Vec<u8> {
    let mut columns: Vec<(u8, &str)> = Vec::new();
    let mut row: Vec<Val> = Vec::new();
    let offsets = [
        ("TocOffset", header.toc),
        ("EtocOffset", header.etoc),
        ("ItocOffset", header.itoc),
        ("GtocOffset", header.gtoc),
        ("ContentOffset", header.content),
    ];
    for (name, value) in offsets {
        match value {
            Some(v) => {
                columns.push((0x56, name));
                row.push(Val::U64(v));
            }
            None => columns.push((0x16, name)),
        }
    }
    columns.push((0x54, "Files"));
    row.push(Val::U32(0));
    if let Some(align) = header.align {
        columns.push((0x52, "Align"));
        row.push(Val::U16(align));
    }
    build_table(&columns, &[row])
}

fn archive_with(header: &Header) -> Vec<u8> {
    let mut image = Vec::new();
    put_section(&mut image, 0, b"CPK ", &header_table(header));
    image
}

struct TocFile {
    dir: Option<&'static str>,
    name: &'static str,
    size: u64,
    offset: u64,
}

// The directory column is stored per row where a file has a directory.
fn toc_table(files: &[TocFile]) -> Vec<u8> {
    let with_dirs = files.iter().any(|f| f.dir.is_some());
    let columns = [
        (if with_dirs { 0x5A } else { 0x1A }, "DirName"),
        (0x5A, "FileName"),
        (0x56, "FileSize"),
        (0x56, "ExtractSize"),
        (0x56, "FileOffset"),
        (0x54, "ID"),
        (0x5A, "UserString"),
    ];
    let rows: Vec<Vec<Val>> = files
        .iter()
        .enumerate()
        .map(|(i, f)| {
            let mut row = Vec::new();
            if with_dirs {
                row.push(Val::Str(f.dir.unwrap_or("")));
            }
            row.push(Val::Str(f.name));
            row.push(Val::U64(f.size));
            row.push(Val::U64(f.size + 1));
            row.push(Val::U64(f.offset));
            row.push(Val::U32(i as u32 + 100));
            row.push(Val::Str("user"));
            row
        })
        .collect();
    build_table(&columns, &rows)
}

fn one_file_archive(stored_offset: u64) -> Vec<u8> {
    let header = Header { toc: Some(0x800), content: Some(0x1000), ..no_sections() };
    let mut image = archive_with(&header);
    let files = [TocFile { dir: None, name: "a.bin", size: 4, offset: stored_offset }];
    put_section(&mut image, 0x800, b"TOC ", &toc_table(&files));
    put_bytes(&mut image, 0x1000, &[0xDE, 0xAD, 0xBE, 0xEF]);
    image
}

fn names(cpk: &Cpk) -> Vec<String> {
    cpk.file_table.iter().map(|e| e.file_name.clone()).collect()
}

#[test]
fn new_entry_is_blank() {
    let entry = FileEntry::new();
    assert_eq!(entry.dir_name, None);
    assert_eq!(entry.file_name, "");
    assert_eq!(entry.file_size, 0);
    assert_eq!(entry.file_size_pos, 0);
    assert_eq!(entry.extract_size, None);
    assert_eq!(entry.extract_size_pos, None);
    assert_eq!(entry.file_offset, 0);
    assert_eq!(entry.file_offset_pos, 0);
    assert_eq!(entry.id, None);
    assert_eq!(entry.user_string, None);
    assert_eq!(entry.local_dir, None);
    assert_eq!(entry.toc_name, "");
    assert_eq!(entry.file_type, "");
    assert!(!entry.encrypted);
    assert_eq!(entry.offset, 0);
}

#[test]
fn new_archive_is_empty() {
    let cpk = Cpk::new();
    assert!(cpk.file_table.is_empty());
    assert!(cpk.cpk_data.get("TocOffset").is_none());
    assert!(cpk.cpk_packet.is_empty());
    assert!(cpk.toc_packet.is_none());
    assert!(cpk.etoc_packet.is_none());
    assert!(cpk.itoc_packet.is_none());
    assert!(cpk.gtoc_packet.is_none());
    assert_eq!(cpk.toc_offset, ABSENT);
    assert_eq!(cpk.etoc_offset, ABSENT);
    assert_eq!(cpk.itoc_offset, ABSENT);
    assert_eq!(cpk.gtoc_offset, ABSENT);
    assert_eq!(cpk.content_offset, 0);
}

#[test]
fn minimal_cpk() {
    let image = archive_with(&no_sections());
    let mut cpk = Cpk::new();
    cpk.read_cpk(&image).unwrap();
    assert_eq!(cpk.file_table.len(), 1);
    let entry = &cpk.file_table[0];
    assert_eq!(entry.file_name, "CPK_HDR");
    assert_eq!(entry.file_type, "CPK");
    assert_eq!(entry.toc_name, "CPK");
    assert_eq!(entry.file_offset, 20);
    assert_eq!(entry.file_size, header_table(&no_sections()).len() as u64);
    assert!(!entry.encrypted);
    assert_eq!(cpk.toc_offset, ABSENT);
    assert_eq!(cpk.etoc_offset, ABSENT);
    assert_eq!(cpk.itoc_offset, ABSENT);
    assert_eq!(cpk.gtoc_offset, ABSENT);
    assert_eq!(cpk.content_offset, 0);
    assert_eq!(cpk.cpk_packet, header_table(&no_sections()));
}

#[test]
fn header_values_are_kept_by_column_name() {
    let header = Header { content: Some(0x1234), align: Some(16), ..no_sections() };
    let mut cpk = Cpk::new();
    cpk.read_cpk(&archive_with(&header)).unwrap();
    assert_eq!(cpk.cpk_data.get("ContentOffset").unwrap().as_u64(), Some(0x1234));
    assert_eq!(cpk.cpk_data.get("Align").unwrap().as_u16(), Some(16));
    assert_eq!(cpk.cpk_data.get("Files").unwrap().as_u32(), Some(0));
    assert!(matches!(cpk.cpk_data.get("TocOffset"), Some(CellValue::Absent)));
    assert!(cpk.cpk_data.get("Missing").is_none());
}

#[test]
fn content_offset_gets_a_marker() {
    let header = Header { content: Some(0x1000), ..no_sections() };
    let mut cpk = Cpk::new();
    cpk.read_cpk(&archive_with(&header)).unwrap();
    assert_eq!(names(&cpk), vec!["CPK_HDR", "CONTENT_OFFSET"]);
    let entry = &cpk.file_table[1];
    assert_eq!(entry.file_offset, 0x1000);
    assert_eq!(entry.file_type, "CONTENT");
    assert_eq!(entry.toc_name, "CPK");
    assert_eq!(entry.file_size, 0);
    assert_eq!(cpk.content_offset, 0x1000);
}

#[test]
fn absent_content_offset_reads_as_zero() {
    let header = Header { content: None, ..no_sections() };
    let mut cpk = Cpk::new();
    cpk.read_cpk(&archive_with(&header)).unwrap();
    assert_eq!(cpk.content_offset, 0);
    assert_eq!(names(&cpk), vec!["CPK_HDR"]);
}

#[test]
fn offsets_of_another_width_read_as_absent() {
    let table = build_table(
        &[(0x54, "TocOffset"), (0x54, "ContentOffset"), (0x54, "Align")],
        &[vec![Val::U32(0x800), Val::U32(0x1000), Val::U32(4)]],
    );
    let mut image = Vec::new();
    put_section(&mut image, 0, b"CPK ", &table);
    let mut cpk = Cpk::new();
    cpk.read_cpk(&image).unwrap();
    assert_eq!(cpk.toc_offset, ABSENT);
    assert_eq!(cpk.content_offset, 0);
    assert_eq!(names(&cpk), vec!["CPK_HDR"]);
}

#[test]
fn toc_with_one_file_uncompressed() {
    let image = one_file_archive(0x800);
    let mut cpk = Cpk::new();
    cpk.read_cpk(&image).unwrap();
    assert_eq!(names(&cpk), vec!["CPK_HDR", "CONTENT_OFFSET", "TOC_HDR", "a.bin"]);
    let entry = &cpk.file_table[3];
    assert_eq!(entry.file_size, 4);
    assert_eq!(entry.file_offset, 0x1000);
    let files = cpk.extract_file(&image, "a.bin").unwrap();
    assert_eq!(files.len(), 1);
    assert_eq!(files[0].path, "a.bin");
    assert_eq!(files[0].dir_name, None);
    assert_eq!(files[0].data, Some(vec![0xDE, 0xAD, 0xBE, 0xEF]));
}

#[test]
fn toc_offsets_count_from_the_smaller_base() {
    // The stored offset 0 counts from min(ContentOffset, min(TocOffset, 0x800)).
    let image = one_file_archive(0);
    let mut cpk = Cpk::new();
    cpk.read_cpk(&image).unwrap();
    let entry = &cpk.file_table[3];
    assert_eq!(entry.offset, 0x800);
    assert_eq!(entry.file_offset, 0x800);
    let files = cpk.extract_file(&image, "a.bin").unwrap();
    assert_eq!(files[0].data, Some(b"TOC ".to_vec()));
}

#[test]
fn toc_entry_fields() {
    let header = Header { toc: Some(0x100), content: Some(0x40), ..no_sections() };
    let mut image = archive_with(&header);
    let files = [
        TocFile { dir: Some("data/sub"), name: "one.bin", size: 10, offset: 0x500 },
        TocFile { dir: Some("data"), name: "two.bin", size: 20, offset: 0x600 },
    ];
    let table = toc_table(&files);
    put_section(&mut image, 0x100, b"TOC ", &table);
    let mut cpk = Cpk::new();
    cpk.read_cpk(&image).unwrap();
    assert_eq!(
        names(&cpk),
        vec!["CPK_HDR", "CONTENT_OFFSET", "TOC_HDR", "one.bin", "two.bin"]
    );
    let marker = &cpk.file_table[2];
    assert_eq!(marker.file_offset, 0x100);
    assert_eq!(marker.file_type, "HDR");
    assert_eq!(marker.toc_name, "CPK");
    assert_eq!(marker.file_size, table.len() as u64);
    assert!(!marker.encrypted);
    assert_eq!(cpk.toc_packet, Some(table.clone()));

    let one = &cpk.file_table[3];
    assert_eq!(one.dir_name.as_deref(), Some("data/sub"));
    assert_eq!(one.file_name, "one.bin");
    assert_eq!(one.file_size, 10);
    assert_eq!(one.extract_size, Some(11));
    assert_eq!(one.file_offset, 0x500 + 0x40);
    assert_eq!(one.offset, 0x40);
    assert_eq!(one.id, Some(100));
    assert_eq!(one.user_string.as_deref(), Some("user"));
    assert_eq!(one.local_dir, None);
    assert_eq!(one.toc_name, "TOC");
    assert_eq!(one.file_type, "FILE");
    assert!(!one.encrypted);
    // Rows start behind the header and the seven column descriptors.
    let rows = 32 + 7 * 5;
    assert_eq!(one.file_size_pos, rows + 8);
    assert_eq!(one.extract_size_pos, Some(rows + 16));
    assert_eq!(one.file_offset_pos, rows + 24);
    let two = &cpk.file_table[4];
    let stride = 4 + 4 + 8 + 8 + 8 + 4 + 4;
    assert_eq!(two.file_size_pos, rows + stride + 8);
    assert_eq!(two.file_offset, 0x600 + 0x40);
    assert_eq!(two.id, Some(101));
}

#[test]
fn toc_base_offset() {
    let cases = [
        (0x800u64, 0x1000u64, 0x800u64),
        (0x2000, 0x1000, 0x800),
        (0x400, 0x1000, 0x400),
        (0x800, 0x100, 0x100),
        (0x800, ABSENT, 0x800),
        (0x3000, ABSENT, 0x800),
    ];
    for (toc, content, base) in cases {
        let header = Header { toc: Some(toc), content: Some(content), ..no_sections() };
        let mut image = archive_with(&header);
        let files = [TocFile { dir: None, name: "f", size: 1, offset: 7 }];
        put_section(&mut image, toc as usize, b"TOC ", &toc_table(&files));
        let mut cpk = Cpk::new();
        cpk.read_cpk(&image).unwrap();
        let entry = cpk.file_table.last().unwrap();
        assert_eq!(entry.offset, base, "toc {:#x} content {:#x}", toc, content);
        assert_eq!(entry.file_offset, base + 7);
    }
}

#[test]
fn toc_cells_of_another_type_count_as_missing() {
    let header = Header { toc: Some(0x100), ..no_sections() };
    let mut image = archive_with(&header);
    let table = build_table(
        &[(0x54, "FileName"), (0x54, "FileSize"), (0x5A, "ID"), (0x14, "FileOffset")],
        &[vec![Val::U32(1), Val::U32(2), Val::Str("x")]],
    );
    put_section(&mut image, 0x100, b"TOC ", &table);
    let mut cpk = Cpk::new();
    cpk.read_cpk(&image).unwrap();
    let entry = cpk.file_table.last().unwrap();
    assert_eq!(entry.file_name, "");
    assert_eq!(entry.dir_name, None);
    assert_eq!(entry.file_size, 0);
    assert_eq!(entry.file_size_pos, 32 + 20 + 4);
    assert_eq!(entry.extract_size, None);
    assert_eq!(entry.extract_size_pos, None);
    assert_eq!(entry.id, None);
    // The offset column is there, but holds nothing: the base alone counts.
    assert_eq!(entry.file_offset, 0);
    assert_eq!(entry.offset, 0);
    assert_eq!(entry.file_offset_pos, 32 + 20 + 12);
    assert_eq!(entry.user_string, None);
}

#[test]
fn toc_offset_that_leaves_64_bits_is_refused() {
    let header = Header { toc: Some(0x100), content: Some(0x40), ..no_sections() };
    let mut image = archive_with(&header);
    let files = [TocFile { dir: None, name: "f", size: 1, offset: u64::MAX - 0x3F }];
    put_section(&mut image, 0x100, b"TOC ", &toc_table(&files));
    let mut cpk = Cpk::new();
    assert_eq!(cpk.read_cpk(&image).unwrap_err().kind(), ErrorKind::InvalidFormat);
    let files = [TocFile { dir: None, name: "f", size: 1, offset: u64::MAX - 0x40 }];
    put_section(&mut image, 0x100, b"TOC ", &toc_table(&files));
    cpk.read_cpk(&image).unwrap();
    assert_eq!(cpk.file_table.last().unwrap().file_offset, u64::MAX);
}

#[test]
fn obfuscated_header() {
    let plain = one_file_archive(0x800);
    let table_len = header_table(&Header {
        toc: Some(0x800),
        content: Some(0x1000),
        ..no_sections()
    })
    .len();
    let mut image = plain.clone();
    let hidden = obfuscate(&plain[16..16 + table_len]);
    assert_ne!(&hidden[..4], b"@UTF");
    image[16..16 + table_len].copy_from_slice(&hidden);
    let mut cpk = Cpk::new();
    cpk.read_cpk(&image).unwrap();
    assert_eq!(names(&cpk), vec!["CPK_HDR", "CONTENT_OFFSET", "TOC_HDR", "a.bin"]);
    assert!(cpk.file_table[0].encrypted);
    assert!(!cpk.file_table[2].encrypted);
    assert_eq!(cpk.cpk_packet, &plain[16..16 + table_len]);
    let files = cpk.extract_file(&image, "a.bin").unwrap();
    assert_eq!(files[0].data, Some(vec![0xDE, 0xAD, 0xBE, 0xEF]));
}

#[test]
fn obfuscated_toc() {
    let header = Header { toc: Some(0x800), content: Some(0x1000), ..no_sections() };
    let mut image = archive_with(&header);
    let files = [TocFile { dir: None, name: "a.bin", size: 4, offset: 0x800 }];
    let table = toc_table(&files);
    put_section(&mut image, 0x800, b"TOC ", &obfuscate(&table));
    let mut cpk = Cpk::new();
    cpk.read_cpk(&image).unwrap();
    assert!(!cpk.file_table[0].encrypted);
    assert!(cpk.file_table[2].encrypted);
    assert_eq!(cpk.file_table[2].file_size, table.len() as u64);
    assert_eq!(cpk.toc_packet, Some(table));
    assert_eq!(cpk.file_table[3].file_name, "a.bin");
}

#[test]
fn keystream_starts_with_known_bytes() {
    let cpk = Cpk::new();
    assert_eq!(
        cpk.decrypt_utf(&[0, 0, 0, 0, 0, 0]),
        vec![0x5F, 0xCB, 0xA7, 0xB3, 0xAF, 0x5B]
    );
    assert_eq!(cpk.decrypt_utf(&[]), Vec::<u8>::new());
    assert_eq!(cpk.decrypt_utf(&[0xFF, 0x0F]), vec![0xA0, 0xC4]);
}

#[test]
fn obfuscation_is_its_own_inverse() {
    let cpk = Cpk::new();
    let plain = header_table(&no_sections());
    let hidden = cpk.decrypt_utf(&plain);
    assert_ne!(hidden, plain);
    assert_eq!(hidden, obfuscate(&plain));
    assert_eq!(cpk.decrypt_utf(&hidden), plain);
    let bytes: Vec<u8> = (0..1000u32).map(|i| (i * 7) as u8).collect();
    assert_eq!(cpk.decrypt_utf(&cpk.decrypt_utf(&bytes)), bytes);
}

#[test]
fn etoc_attaches_local_directories() {
    let header = Header {
        toc: Some(0x100),
        etoc: Some(0x400),
        content: Some(0x40),
        ..no_sections()
    };
    let mut image = archive_with(&header);
    let files = [
        TocFile { dir: None, name: "one", size: 1, offset: 0 },
        TocFile { dir: None, name: "two", size: 1, offset: 1 },
        TocFile { dir: None, name: "three", size: 1, offset: 2 },
    ];
    put_section(&mut image, 0x100, b"TOC ", &toc_table(&files));
    let etoc = build_table(
        &[(0x5A, "LocalDir")],
        &[vec![Val::Str("first/dir")], vec![Val::Str("second/dir")]],
    );
    put_section(&mut image, 0x400, b"ETOC", &etoc);
    let mut cpk = Cpk::new();
    cpk.read_cpk(&image).unwrap();
    assert_eq!(
        names(&cpk),
        vec!["CPK_HDR", "CONTENT_OFFSET", "TOC_HDR", "one", "two", "three", "ETOC_HDR"]
    );
    assert_eq!(cpk.file_table[3].local_dir.as_deref(), Some("first/dir"));
    assert_eq!(cpk.file_table[4].local_dir.as_deref(), Some("second/dir"));
    assert_eq!(cpk.file_table[5].local_dir, None);
    assert_eq!(cpk.file_table[2].local_dir, None);
    let marker = &cpk.file_table[6];
    assert_eq!(marker.file_offset, 0x400);
    assert_eq!(marker.file_size, etoc.len() as u64);
    assert_eq!(marker.file_type, "HDR");
    assert_eq!(cpk.etoc_packet, Some(etoc));
}

#[test]
fn etoc_rows_belong_to_files_of_the_file_list() {
    // Files by id that are in the table already are passed over.
    let mut cpk = Cpk::new();
    cpk.read_cpk(&itoc_archive(0, Some(4), &[(0, 3, 3), (1, 5, 5)], &[])).unwrap();
    let header = Header { toc: Some(0x100), etoc: Some(0x400), ..no_sections() };
    let mut image = archive_with(&header);
    let files = [TocFile { dir: None, name: "one", size: 1, offset: 0 }];
    put_section(&mut image, 0x100, b"TOC ", &toc_table(&files));
    let etoc = build_table(&[(0x5A, "LocalDir")], &[vec![Val::Str("here")]]);
    put_section(&mut image, 0x400, b"ETOC", &etoc);
    cpk.read_cpk(&image).unwrap();
    assert_eq!(
        names(&cpk),
        vec!["CPK_HDR", "ITOC_HDR", "0000", "0001", "CPK_HDR", "TOC_HDR", "one", "ETOC_HDR"]
    );
    assert_eq!(cpk.file_table[2].local_dir, None);
    assert_eq!(cpk.file_table[3].local_dir, None);
    assert_eq!(cpk.file_table[6].local_dir.as_deref(), Some("here"));
}

#[test]
fn etoc_cell_that_is_no_string_clears_the_directory() {
    let header = Header { toc: Some(0x100), etoc: Some(0x400), ..no_sections() };
    let mut image = archive_with(&header);
    let files = [TocFile { dir: None, name: "one", size: 1, offset: 0 }];
    put_section(&mut image, 0x100, b"TOC ", &toc_table(&files));
    let etoc = build_table(&[(0x5A, "LocalDir")], &[vec![Val::Str("here")]]);
    put_section(&mut image, 0x400, b"ETOC", &etoc);
    let mut cpk = Cpk::new();
    cpk.read_cpk(&image).unwrap();
    assert_eq!(cpk.file_table[2].local_dir.as_deref(), Some("here"));
    // A second list whose column holds numbers: the first file of the
    // table loses its directory.
    let header = Header { etoc: Some(0x400), ..no_sections() };
    let mut image = archive_with(&header);
    let etoc = build_table(&[(0x54, "LocalDir")], &[vec![Val::U32(5)]]);
    put_section(&mut image, 0x400, b"ETOC", &etoc);
    cpk.read_cpk(&image).unwrap();
    assert_eq!(cpk.file_table[2].local_dir, None);
}

#[test]
fn etoc_without_local_dir_column_changes_no_entry() {
    let header = Header { toc: Some(0x100), etoc: Some(0x400), ..no_sections() };
    let mut image = archive_with(&header);
    let files = [TocFile { dir: None, name: "one", size: 1, offset: 0 }];
    put_section(&mut image, 0x100, b"TOC ", &toc_table(&files));
    let etoc = build_table(&[(0x54, "Other")], &[vec![Val::U32(1)]]);
    put_section(&mut image, 0x400, b"ETOC", &etoc);
    let mut cpk = Cpk::new();
    cpk.read_cpk(&image).unwrap();
    assert_eq!(cpk.file_table[2].local_dir, None);
}

fn id_table(large: bool, rows: &[(u16, u32, u32)]) -> Vec<u8> {
    let size_flags = if large { 0x54 } else { 0x52 };
    let columns = [(0x52, "ID"), (size_flags, "FileSize"), (size_flags, "ExtractSize")];
    let rows: Vec<Vec<Val>> = rows
        .iter()
        .map(|(id, size, extract)| {
            if large {
                vec![Val::U16(*id), Val::U32(*size), Val::U32(*extract)]
            } else {
                vec![Val::U16(*id), Val::U16(*size as u16), Val::U16(*extract as u16)]
            }
        })
        .collect();
    build_table(&columns, &rows)
}

fn itoc_archive(
    content: u64,
    align: Option<u16>,
    small: &[(u16, u32, u32)],
    large: &[(u16, u32, u32)],
) -> Vec<u8> {
    let header = Header { itoc: Some(0x200), content: Some(content), align, ..no_sections() };
    let mut image = archive_with(&header);
    let list = build_table(
        &[(0x5B, "DataL"), (0x5B, "DataH")],
        &[vec![Val::Data(id_table(false, small)), Val::Data(id_table(true, large))]],
    );
    put_section(&mut image, 0x200, b"ITOC", &list);
    image
}

#[test]
fn itoc_alignment() {
    let image = itoc_archive(0, Some(4), &[(0, 3, 3), (1, 5, 5), (2, 1, 1)], &[]);
    let mut cpk = Cpk::new();
    cpk.read_cpk(&image).unwrap();
    assert_eq!(names(&cpk), vec!["CPK_HDR", "ITOC_HDR", "0000", "0001", "0002"]);
    assert_eq!(cpk.file_table[2].file_offset, 0);
    assert_eq!(cpk.file_table[3].file_offset, 4);
    assert_eq!(cpk.file_table[4].file_offset, 12);
    assert_eq!(cpk.file_table[2].file_size, 3);
    assert_eq!(cpk.file_table[3].file_size, 5);
}

#[test]
fn itoc_entries_are_sorted_by_id() {
    let image = itoc_archive(
        0x1000,
        Some(0x10),
        &[(30, 0x10, 0x20), (7, 0x11, 0x21)],
        &[(1000, 0x12345, 0x54321), (2, 0, 0)],
    );
    let mut cpk = Cpk::new();
    cpk.read_cpk(&image).unwrap();
    assert_eq!(
        names(&cpk),
        vec!["CPK_HDR", "CONTENT_OFFSET", "ITOC_HDR", "0002", "0007", "0030", "1000"]
    );
    let entries = &cpk.file_table[3..];
    let ids: Vec<Option<u32>> = entries.iter().map(|e| e.id).collect();
    assert_eq!(ids, vec![Some(2), Some(7), Some(30), Some(1000)]);
    let offsets: Vec<u64> = entries.iter().map(|e| e.file_offset).collect();
    assert_eq!(offsets, vec![0x1000, 0x1000, 0x1020, 0x1030]);
    let sizes: Vec<u64> = entries.iter().map(|e| e.file_size).collect();
    assert_eq!(sizes, vec![0, 0x11, 0x10, 0x12345]);
    let extracts: Vec<Option<u64>> = entries.iter().map(|e| e.extract_size).collect();
    assert_eq!(extracts, vec![Some(0), Some(0x21), Some(0x20), Some(0x54321)]);
    for entry in entries {
        assert_eq!(entry.toc_name, "ITOC");
        assert_eq!(entry.file_type, "FILE");
        assert_eq!(entry.dir_name, None);
    }
    let marker = &cpk.file_table[2];
    assert_eq!(marker.file_offset, 0x200);
    assert!(cpk.itoc_packet.is_some());
    assert_eq!(marker.file_size, cpk.itoc_packet.as_ref().unwrap().len() as u64);
}

#[test]
fn itoc_consecutive_offsets_differ_by_whole_blocks() {
    let align = 0x20u64;
    let image = itoc_archive(
        0x100,
        Some(align as u16),
        &[(5, 0, 0), (1, 1, 0), (4, 0x20, 0), (3, 0x21, 0), (2, 0x3F, 0)],
        &[(9, 0x12345, 0)],
    );
    let mut cpk = Cpk::new();
    cpk.read_cpk(&image).unwrap();
    let entries = &cpk.file_table[3..];
    assert_eq!(entries.len(), 6);
    assert_eq!(entries[0].file_offset, 0x100);
    for pair in entries.windows(2) {
        let blocks = (pair[0].file_size + align - 1) / align;
        assert_eq!(pair[1].file_offset - pair[0].file_offset, blocks * align);
        assert!(pair[0].id < pair[1].id);
    }
}

#[test]
fn itoc_later_rows_replace_sizes_and_ids_are_listed_once() {
    let image = itoc_archive(
        0,
        Some(1),
        &[(1, 10, 11), (2, 20, 21), (1, 12, 13)],
        &[(2, 200, 201), (3, 300, 301), (3, 310, 311)],
    );
    let mut cpk = Cpk::new();
    cpk.read_cpk(&image).unwrap();
    assert_eq!(names(&cpk), vec!["CPK_HDR", "ITOC_HDR", "0001", "0002", "0003"]);
    let entries = &cpk.file_table[2..];
    let sizes: Vec<u64> = entries.iter().map(|e| e.file_size).collect();
    assert_eq!(sizes, vec![12, 200, 310]);
    let extracts: Vec<Option<u64>> = entries.iter().map(|e| e.extract_size).collect();
    assert_eq!(extracts, vec![Some(13), Some(201), Some(311)]);
    let offsets: Vec<u64> = entries.iter().map(|e| e.file_offset).collect();
    assert_eq!(offsets, vec![0, 12, 212]);
}

#[test]
fn itoc_default_alignment_is_0x800() {
    let image = itoc_archive(0, None, &[(0, 1, 1), (1, 0x800, 1), (2, 0x801, 1), (3, 0, 0)], &[]);
    let mut cpk = Cpk::new();
    cpk.read_cpk(&image).unwrap();
    let offsets: Vec<u64> = cpk.file_table[2..].iter().map(|e| e.file_offset).collect();
    assert_eq!(offsets, vec![0, 0x800, 0x1000, 0x2000]);
}

#[test]
fn itoc_without_tables_has_no_files() {
    let header = Header { itoc: Some(0x200), ..no_sections() };
    let mut image = archive_with(&header);
    let list = build_table(&[(0x54, "Other")], &[vec![Val::U32(0)]]);
    put_section(&mut image, 0x200, b"ITOC", &list);
    let mut cpk = Cpk::new();
    cpk.read_cpk(&image).unwrap();
    assert_eq!(names(&cpk), vec!["CPK_HDR", "ITOC_HDR"]);
}

#[test]
fn itoc_alignment_of_zero_is_refused() {
    let image = itoc_archive(0, Some(0), &[(0, 3, 3)], &[]);
    let mut cpk = Cpk::new();
    assert_eq!(cpk.read_cpk(&image).unwrap_err().kind(), ErrorKind::InvalidFormat);
    // Without files the alignment is never used.
    let image = itoc_archive(0, Some(0), &[], &[]);
    cpk.read_cpk(&image).unwrap();
    assert_eq!(names(&cpk), vec!["CPK_HDR", "ITOC_HDR"]);
}

#[test]
fn itoc_offsets_that_leave_64_bits_are_refused() {
    let image = itoc_archive(u64::MAX - 7, Some(8), &[(0, 1, 1)], &[]);
    let mut cpk = Cpk::new();
    assert_eq!(cpk.read_cpk(&image).unwrap_err().kind(), ErrorKind::InvalidFormat);
    let image = itoc_archive(u64::MAX - 8, Some(8), &[(0, 1, 1)], &[]);
    cpk.read_cpk(&image).unwrap();
    assert_eq!(cpk.file_table.last().unwrap().file_offset, u64::MAX - 8);
}

#[test]
fn itoc_with_a_broken_table_is_refused() {
    let header = Header { itoc: Some(0x200), ..no_sections() };
    let mut image = archive_with(&header);
    let list = build_table(&[(0x5B, "DataL")], &[vec![Val::Data(b"@UTFxx".to_vec())]]);
    put_section(&mut image, 0x200, b"ITOC", &list);
    let mut cpk = Cpk::new();
    assert_eq!(cpk.read_cpk(&image).unwrap_err().kind(), ErrorKind::Io);
    let list = build_table(&[(0x5B, "DataH")], &[vec![Val::Data(b"nope".to_vec())]]);
    put_section(&mut image, 0x200, b"ITOC", &list);
    assert_eq!(
        cpk.read_cpk(&image).unwrap_err().kind(),
        ErrorKind::InvalidUtfSignature
    );
}

#[test]
fn gtoc_signature_is_checked() {
    let header = Header { gtoc: Some(0x300), ..no_sections() };
    let mut image = archive_with(&header);
    put_bytes(&mut image, 0x300, b"GTOC");
    let mut cpk = Cpk::new();
    cpk.read_cpk(&image).unwrap();
    assert_eq!(names(&cpk), vec!["CPK_HDR", "GTOC_HDR"]);
    assert_eq!(cpk.file_table[1].file_offset, 0x300);
    assert_eq!(cpk.file_table[1].file_size, 0);
    assert!(cpk.gtoc_packet.is_none());

    put_bytes(&mut image, 0x300, b"GTOX");
    let mut cpk = Cpk::new();
    assert_eq!(cpk.read_cpk(&image).unwrap_err().kind(), ErrorKind::InvalidFormat);

    image.truncate(0x302);
    let mut cpk = Cpk::new();
    assert_eq!(cpk.read_cpk(&image).unwrap_err().kind(), ErrorKind::Io);
}

#[test]
fn sections_are_read_in_their_order() {
    let header = Header {
        toc: Some(0x800),
        etoc: Some(0x400),
        itoc: Some(0x200),
        gtoc: Some(0x100),
        content: Some(0x1000),
        align: Some(8),
    };
    let mut image = archive_with(&header);
    put_bytes(&mut image, 0x100, b"GTOC");
    let list = build_table(
        &[(0x5B, "DataL")],
        &[vec![Val::Data(id_table(false, &[(4, 9, 9)]))]],
    );
    put_section(&mut image, 0x200, b"ITOC", &list);
    let etoc = build_table(&[(0x5A, "LocalDir")], &[vec![Val::Str("local")]]);
    put_section(&mut image, 0x400, b"ETOC", &etoc);
    let files = [TocFile { dir: None, name: "a", size: 1, offset: 0 }];
    put_section(&mut image, 0x800, b"TOC ", &toc_table(&files));
    let mut cpk = Cpk::new();
    cpk.read_cpk(&image).unwrap();
    assert_eq!(
        names(&cpk),
        vec![
            "CPK_HDR",
            "CONTENT_OFFSET",
            "TOC_HDR",
            "a",
            "ETOC_HDR",
            "ITOC_HDR",
            "0004",
            "GTOC_HDR"
        ]
    );
    assert_eq!(cpk.file_table[3].local_dir.as_deref(), Some("local"));
    assert_eq!(cpk.file_table[6].local_dir, None);
    assert_eq!(cpk.file_table[6].file_offset, 0x1000);
}

#[test]
fn rejects_wrong_archive_signature() {
    let mut image = archive_with(&no_sections());
    image[3] = b'X';
    let mut cpk = Cpk::new();
    assert_eq!(cpk.read_cpk(&image).unwrap_err().kind(), ErrorKind::InvalidSignature);
    assert_eq!(cpk.read_cpk(b"CPK").unwrap_err().kind(), ErrorKind::Io);
    assert_eq!(cpk.read_cpk(b"").unwrap_err().kind(), ErrorKind::Io);
    assert_eq!(cpk.read_cpk(b"CPK ").unwrap_err().kind(), ErrorKind::Io);
    assert_eq!(cpk.read_cpk(b"CPK \xFF\xFF\xFF\xFF\0\0\0").unwrap_err().kind(), ErrorKind::Io);
}

#[test]
fn rejects_wrong_section_signatures() {
    for (index, signature) in [b"TOC ", b"ETOC", b"ITOC"].iter().enumerate() {
        let mut header = no_sections();
        match index {
            0 => header.toc = Some(0x100),
            1 => header.etoc = Some(0x100),
            _ => header.itoc = Some(0x100),
        }
        let mut image = archive_with(&header);
        let table = build_table(&[], &[]);
        put_section(&mut image, 0x100, signature, &table);
        let mut cpk = Cpk::new();
        cpk.read_cpk(&image).unwrap();
        image[0x100] = b'?';
        let mut cpk = Cpk::new();
        assert_eq!(cpk.read_cpk(&image).unwrap_err().kind(), ErrorKind::InvalidFormat);
        image.truncate(0x102);
        let mut cpk = Cpk::new();
        assert_eq!(cpk.read_cpk(&image).unwrap_err().kind(), ErrorKind::Io);
    }
}

#[test]
fn rejects_bad_table_sizes() {
    let good = archive_with(&no_sections());
    let mut image = good.clone();
    image[8..16].copy_from_slice(&(-1i64).to_le_bytes());
    let mut cpk = Cpk::new();
    assert_eq!(cpk.read_cpk(&image).unwrap_err().kind(), ErrorKind::InvalidFormat);

    let mut image = good.clone();
    let size = (good.len() - 16) as i64;
    image[8..16].copy_from_slice(&(size + 1).to_le_bytes());
    assert_eq!(cpk.read_cpk(&image).unwrap_err().kind(), ErrorKind::InvalidFormat);

    let mut image = good.clone();
    image[8..16].copy_from_slice(&i64::MAX.to_le_bytes());
    assert_eq!(cpk.read_cpk(&image).unwrap_err().kind(), ErrorKind::InvalidFormat);
    assert!(cpk.file_table.is_empty());
}

#[test]
fn rejects_table_that_is_no_table_even_deobfuscated() {
    let mut image = Vec::new();
    put_section(&mut image, 0, b"CPK ", b"this is no table at all");
    let mut cpk = Cpk::new();
    assert_eq!(
        cpk.read_cpk(&image).unwrap_err().kind(),
        ErrorKind::InvalidUtfSignature
    );
    let mut image = Vec::new();
    put_section(&mut image, 0, b"CPK ", b"");
    assert_eq!(
        cpk.read_cpk(&image).unwrap_err().kind(),
        ErrorKind::InvalidUtfSignature
    );
}

#[test]
fn read_utf_data_reads_a_frame() {
    let table = build_table(&[], &[]);
    let mut image = vec![9u8, 9];
    image.extend_from_slice(&[0xFF; 4]);
    image.extend_from_slice(&(table.len() as u64).to_le_bytes());
    image.extend_from_slice(&obfuscate(&table));
    image.extend_from_slice(&[1, 2, 3]);
    let cpk = Cpk::new();
    let mut reader = EndianReader::new(&image, false);
    reader.read_bytes(2).unwrap();
    let (packet, encrypted) = cpk.read_utf_data(&mut reader, image.len() as u64).unwrap();
    assert_eq!(packet, table);
    assert!(encrypted);
    assert_eq!(reader.position().unwrap(), 2 + 12 + table.len() as u64);
    // The reader is back in big-endian order.
    assert_eq!(reader.read_u16().unwrap(), 0x0102);

    let mut reader = EndianReader::new(&image, false);
    reader.read_bytes(2).unwrap();
    let err = cpk.read_utf_data(&mut reader, 2 + 12 + table.len() as u64 - 1).unwrap_err();
    assert_eq!(err.kind(), ErrorKind::InvalidFormat);

    // A file size beyond the data: the size passes, the read does not.
    let mut reader = EndianReader::new(&image[..20], false);
    reader.read_bytes(2).unwrap();
    let err = cpk.read_utf_data(&mut reader, 1000).unwrap_err();
    assert_eq!(err.kind(), ErrorKind::Io);
}

#[test]
fn failed_read_changes_nothing() {
    let mut cpk = Cpk::new();
    cpk.read_cpk(&one_file_archive(0x800)).unwrap();
    let before = names(&cpk);
    let header = Header { toc: Some(0x100), content: Some(0x99), ..no_sections() };
    let broken = archive_with(&header);
    assert_eq!(cpk.read_cpk(&broken).unwrap_err().kind(), ErrorKind::Io);
    assert_eq!(names(&cpk), before);
    assert_eq!(cpk.content_offset, 0x1000);
    assert_eq!(cpk.toc_offset, 0x800);
    assert_eq!(cpk.cpk_data.get("ContentOffset").unwrap().as_u64(), Some(0x1000));
}

#[test]
fn second_read_appends_to_the_file_table() {
    let mut cpk = Cpk::new();
    cpk.read_cpk(&one_file_archive(0x800)).unwrap();
    let header = Header { toc: Some(0x100), content: Some(0), ..no_sections() };
    let mut image = archive_with(&header);
    let table = toc_table(&[TocFile { dir: None, name: "b.bin", size: 1, offset: 0 }]);
    put_section(&mut image, 0x100, b"TOC ", &obfuscate(&table));
    cpk.read_cpk(&image).unwrap();
    assert_eq!(
        names(&cpk),
        vec!["CPK_HDR", "CONTENT_OFFSET", "TOC_HDR", "a.bin", "CPK_HDR", "TOC_HDR", "b.bin"]
    );
    // The table of the second list is recorded in the first marker of that name.
    assert!(cpk.file_table[2].encrypted);
    assert_eq!(cpk.file_table[2].file_size, table.len() as u64);
    assert_eq!(cpk.file_table[5].file_size, 0);
    assert_eq!(cpk.content_offset, 0);
    assert_eq!(cpk.cpk_data.get("ContentOffset").unwrap().as_u64(), Some(0));
}

fn archive_for_extraction() -> Vec<u8> {
    let header = Header { toc: Some(0x100), content: Some(0), ..no_sections() };
    let mut image = archive_with(&header);
    let files = [
        TocFile { dir: Some("Data/Sub"), name: "One.BIN", size: 3, offset: 0x800 },
        TocFile { dir: Some(""), name: "empty", size: 0, offset: 0x900 },
        TocFile { dir: Some("data"), name: "two.bin", size: 2, offset: 0x810 },
        TocFile { dir: Some("DATA/sub"), name: "one.bin", size: 1, offset: 0x820 },
    ];
    put_section(&mut image, 0x100, b"TOC ", &toc_table(&files));
    put_bytes(&mut image, 0x800, &[1, 2, 3]);
    put_bytes(&mut image, 0x810, &[4, 5]);
    put_bytes(&mut image, 0x820, &[6]);
    image
}

#[test]
fn extracts_by_path_without_regard_to_case() {
    let image = archive_for_extraction();
    let mut cpk = Cpk::new();
    cpk.read_cpk(&image).unwrap();
    let files = cpk.extract_file(&image, "data/sub/one.bin").unwrap();
    assert_eq!(files.len(), 2);
    assert_eq!(files[0].path, "Data/Sub/One.BIN");
    assert_eq!(files[0].dir_name.as_deref(), Some("Data/Sub"));
    assert_eq!(files[0].data, Some(vec![1, 2, 3]));
    assert_eq!(files[1].path, "DATA/sub/one.bin");
    assert_eq!(files[1].data, Some(vec![6]));
    let files = cpk.extract_file(&image, "DATA/TWO.BIN").unwrap();
    assert_eq!(files.len(), 1);
    assert_eq!(files[0].data, Some(vec![4, 5]));
}

#[test]
fn extract_of_unknown_path_fails() {
    let image = archive_for_extraction();
    let mut cpk = Cpk::new();
    cpk.read_cpk(&image).unwrap();
    assert_eq!(
        cpk.extract_file(&image, "one.bin").unwrap_err().kind(),
        ErrorKind::FileNotFound
    );
    assert_eq!(
        cpk.extract_file(&image, "TOC_HDR").unwrap_err().kind(),
        ErrorKind::FileNotFound
    );
    assert_eq!(
        cpk.extract_file(&image, "").unwrap_err().kind(),
        ErrorKind::FileNotFound
    );
    let err = cpk.extract_file(&image, "missing.bin").unwrap_err();
    assert_eq!(err.message(), "File not found: missing.bin");
}

#[test]
fn file_of_size_zero_is_skipped() {
    let image = archive_for_extraction();
    let mut cpk = Cpk::new();
    cpk.read_cpk(&image).unwrap();
    // An empty directory name is a directory all the same.
    let files = cpk.extract_file(&image, "/EMPTY").unwrap();
    assert_eq!(files.len(), 1);
    assert_eq!(files[0].path, "/empty");
    assert_eq!(files[0].dir_name.as_deref(), Some(""));
    assert_eq!(files[0].data, None);
}

#[test]
fn extracts_all_files_in_table_order() {
    let image = archive_for_extraction();
    let mut cpk = Cpk::new();
    cpk.read_cpk(&image).unwrap();
    let files = cpk.extract_all(&image).unwrap();
    let paths: Vec<&str> = files.iter().map(|f| f.path.as_str()).collect();
    assert_eq!(
        paths,
        vec!["Data/Sub/One.BIN", "/empty", "data/two.bin", "DATA/sub/one.bin"]
    );
    let data: Vec<Option<Vec<u8>>> = files.into_iter().map(|f| f.data).collect();
    assert_eq!(
        data,
        vec![Some(vec![1, 2, 3]), None, Some(vec![4, 5]), Some(vec![6])]
    );
}

#[test]
fn extract_all_of_archive_without_files() {
    let image = archive_with(&no_sections());
    let mut cpk = Cpk::new();
    cpk.read_cpk(&image).unwrap();
    assert!(cpk.extract_all(&image).unwrap().is_empty());
}

#[test]
fn file_outside_the_archive_fails() {
    let image = archive_for_extraction();
    let mut cpk = Cpk::new();
    cpk.read_cpk(&image).unwrap();
    let short = &image[..0x811];
    assert_eq!(
        cpk.extract_file(short, "data/two.bin").unwrap_err().kind(),
        ErrorKind::Io
    );
    assert_eq!(cpk.extract_all(short).unwrap_err().kind(), ErrorKind::Io);
    let files = cpk.extract_file(short, "data/sub/one.bin");
    assert_eq!(files.unwrap_err().kind(), ErrorKind::Io);
}

fn compressed_payload() -> Vec<u8> {
    // Three literals 3, 2, 1: nine bits each, read from the end backward.
    let bits: u32 = (3 << 18) | (2 << 9) | 1;
    let stream = (bits << 5).to_le_bytes();
    let mut blob = b"CRILAYLA".to_vec();
    blob.extend_from_slice(&3i32.to_le_bytes());
    blob.extend_from_slice(&4i32.to_le_bytes());
    blob.extend_from_slice(&stream);
    blob.extend_from_slice(&[0x77; 256]);
    blob
}

#[test]
fn compressed_file_is_decompressed() {
    let payload = compressed_payload();
    let mut entry = FileEntry::new();
    entry.file_name = "packed".to_string();
    entry.file_type = "FILE".to_string();
    entry.file_offset = 5;
    entry.file_size = payload.len() as u64;
    let mut image = vec![0u8; 5];
    image.extend_from_slice(&payload);
    image.extend_from_slice(&[0; 9]);
    let cpk = Cpk::new();
    let file = cpk.extract_single_file(&image, &entry).unwrap();
    let mut expected = vec![0x77u8; 256];
    expected.extend_from_slice(&[1, 2, 3]);
    assert_eq!(file.data, Some(expected));
    assert_eq!(file.path, "packed");
}

#[test]
fn broken_compressed_file_fails() {
    let mut payload = compressed_payload();
    payload[12..16].copy_from_slice(&5i32.to_le_bytes());
    let mut entry = FileEntry::new();
    entry.file_type = "FILE".to_string();
    entry.file_size = payload.len() as u64;
    let cpk = Cpk::new();
    assert_eq!(
        cpk.extract_single_file(&payload, &entry).unwrap_err().kind(),
        ErrorKind::Compression
    );
    entry.file_size = 12;
    assert_eq!(
        cpk.extract_single_file(&payload, &entry).unwrap_err().kind(),
        ErrorKind::Compression
    );
    let mut payload = compressed_payload();
    payload[8..12].copy_from_slice(&50i32.to_le_bytes());
    entry.file_size = payload.len() as u64;
    assert_eq!(
        cpk.extract_single_file(&payload, &entry).unwrap_err().kind(),
        ErrorKind::Compression
    );
}

#[test]
fn single_file_is_taken_whatever_its_type() {
    let mut entry = FileEntry::new();
    entry.dir_name = Some("d".to_string());
    entry.file_name = "f".to_string();
    entry.file_offset = 1;
    entry.file_size = 2;
    let cpk = Cpk::new();
    let file = cpk.extract_single_file(&[9, 8, 7, 6], &entry).unwrap();
    assert_eq!(file.path, "d/f");
    assert_eq!(file.dir_name.as_deref(), Some("d"));
    assert_eq!(file.data, Some(vec![8, 7]));
    entry.file_offset = u64::MAX;
    assert_eq!(
        cpk.extract_single_file(&[9, 8, 7, 6], &entry).unwrap_err().kind(),
        ErrorKind::Io
    );
    entry.file_offset = 3;
    assert_eq!(
        cpk.extract_single_file(&[9, 8, 7, 6], &entry).unwrap_err().kind(),
        ErrorKind::Io
    );
    entry.file_size = 0;
    entry.file_offset = u64::MAX;
    assert_eq!(cpk.extract_single_file(&[], &entry).unwrap().data, None);
}

#[test]
fn full_path_joins_directory_and_name() {
    let mut entry = FileEntry::new();
    entry.file_name = "name.bin".to_string();
    assert_eq!(entry.full_path(), "name.bin");
    entry.dir_name = Some("a/b".to_string());
    assert_eq!(entry.full_path(), "a/b/name.bin");
    entry.dir_name = Some(String::new());
    assert_eq!(entry.full_path(), "/name.bin");
    assert!(!entry.is_file());
    entry.file_type = "FILE".to_string();
    assert!(entry.is_file());
    entry.file_type = "file".to_string();
    assert!(!entry.is_file());
}

#[test]
fn same_text_compares_texts() {
    assert!(same_text("", ""));
    assert!(same_text("abc", "abc"));
    assert!(!same_text("abc", "abd"));
    assert!(!same_text("abc", "ab"));
    assert!(!same_text("abc", "ABC"));
}

#[test]
fn duplicate_of_an_archive_is_equal() {
    let image = archive_for_extraction();
    let mut cpk = Cpk::new();
    cpk.read_cpk(&image).unwrap();
    let copy = cpk.duplicate();
    assert_eq!(names(&copy), names(&cpk));
    assert_eq!(copy.cpk_packet, cpk.cpk_packet);
    assert_eq!(copy.toc_packet, cpk.toc_packet);
    assert_eq!(copy.toc_offset, cpk.toc_offset);
    assert_eq!(copy.content_offset, cpk.content_offset);
    assert_eq!(copy.cpk_data.get("TocOffset").unwrap().as_u64(), Some(0x100));
    let entry = copy.file_table[2].duplicate();
    assert_eq!(entry.dir_name.as_deref(), Some("Data/Sub"));
    assert_eq!(entry.file_offset, 0x800);
}

#[test]
fn header_values_later_replace_earlier() {
    let mut data = CpkData::new();
    assert!(data.get("a").is_none());
    data.insert("a".to_string(), CellValue::UInt8(1));
    data.insert("b".to_string(), CellValue::UInt8(2));
    assert_eq!(data.get("a").unwrap().as_u8(), Some(1));
    data.insert("a".to_string(), CellValue::UInt16(3));
    assert_eq!(data.get("a").unwrap().as_u16(), Some(3));
    assert_eq!(data.get("b").unwrap().as_u8(), Some(2));
    let copy = data.duplicate();
    assert_eq!(copy.get("a").unwrap().as_u16(), Some(3));
    assert!(copy.get("c").is_none());
}

#[test]
fn replace_is_unsupported() {
    let image = archive_for_extraction();
    let mut cpk = Cpk::new();
    cpk.read_cpk(&image).unwrap();
    let err = cpk.replace_file("data/two.bin").unwrap_err();
    assert_eq!(err.kind(), ErrorKind::Unsupported);
    assert_eq!(err.message(), "Unsupported feature: File replacement not yet implemented");
    assert_eq!(cpk.file_table.len(), 6);
}

#[test]
fn chosen_entries_are_the_places_of_the_files() {
    let image = archive_for_extraction();
    let mut cpk = Cpk::new();
    cpk.read_cpk(&image).unwrap();
    assert_eq!(cpk.chosen_entries(None), vec![2, 3, 4, 5]);
    assert_eq!(cpk.chosen_entries(Some("DATA/SUB/ONE.BIN")), vec![2, 5]);
    assert_eq!(cpk.chosen_entries(Some("data/two.bin")), vec![4]);
    assert_eq!(cpk.chosen_entries(Some("TOC_HDR")), Vec::<usize>::new());
    assert_eq!(cpk.chosen_entries(Some("missing")), Vec::<usize>::new());
    assert_eq!(Cpk::new().chosen_entries(None), Vec::<usize>::new());
}

#[test]
fn file_not_found_carries_the_target() {
    let image = archive_for_extraction();
    let mut cpk = Cpk::new();
    cpk.read_cpk(&image).unwrap();
    match cpk.extract_file(&image, "No/Such.File") {
        Err(cripak::error::CpkError::FileNotFound(target)) => assert_eq!(target, "No/Such.File"),
        _ => panic!("a file that is not there was found"),
    }
}

#[test]
fn failed_section_leaves_the_archive_as_it_was() {
    // The file list has a wrong signature: nothing of the archive is kept,
    // not even the marker of the header.
    let header = Header { toc: Some(0x100), content: Some(0x40), ..no_sections() };
    let mut image = archive_with(&header);
    put_section(&mut image, 0x100, b"TOC\0", &toc_table(&[]));
    let mut cpk = Cpk::new();
    assert_eq!(cpk.read_cpk(&image).unwrap_err().kind(), ErrorKind::InvalidFormat);
    assert!(cpk.file_table.is_empty());
    put_section(&mut image, 0x100, b"ETOC", &toc_table(&[]));
    assert_eq!(cpk.read_cpk(&image).unwrap_err().kind(), ErrorKind::InvalidFormat);
    assert!(cpk.file_table.is_empty());
    assert!(cpk.toc_packet.is_none());
}

#[test]
fn obfuscated_header_reads_like_the_plain_one() {
    let header = Header {
        toc: Some(0x800),
        etoc: Some(0xC00),
        itoc: Some(0xE00),
        gtoc: Some(0xF80),
        content: Some(0x1000),
        align: Some(16),
    };
    let table_len = header_table(&header).len();
    let mut plain = archive_with(&header);
    let files = [
        TocFile { dir: Some("d"), name: "a.bin", size: 4, offset: 0x800 },
        TocFile { dir: None, name: "b.bin", size: 2, offset: 0x810 },
    ];
    put_section(&mut plain, 0x800, b"TOC ", &toc_table(&files));
    let etoc = build_table(&[(0x5A, "LocalDir")], &[vec![Val::Str("x")], vec![Val::Str("y")]]);
    put_section(&mut plain, 0xC00, b"ETOC", &etoc);
    let list = build_table(
        &[(0x5B, "DataL")],
        &[vec![Val::Data(id_table(false, &[(3, 9, 9), (1, 20, 21)]))]],
    );
    put_section(&mut plain, 0xE00, b"ITOC", &list);
    put_bytes(&mut plain, 0xF80, b"GTOC");
    put_bytes(&mut plain, 0x1000, &[0xDE, 0xAD, 0xBE, 0xEF]);
    let mut hidden = plain.clone();
    let obfuscated = obfuscate(&plain[16..16 + table_len]);
    hidden[16..16 + table_len].copy_from_slice(&obfuscated);

    let mut a = Cpk::new();
    a.read_cpk(&plain).unwrap();
    let mut b = Cpk::new();
    b.read_cpk(&hidden).unwrap();
    assert_eq!(a.file_table.len(), 10);
    assert_eq!(b.file_table.len(), a.file_table.len());
    assert_eq!(b.file_table[0].file_name, "CPK_HDR");
    assert!(b.file_table[0].encrypted);
    assert!(!a.file_table[0].encrypted);
    for (x, y) in a.file_table.iter().zip(b.file_table.iter()) {
        assert_eq!(x.dir_name, y.dir_name);
        assert_eq!(x.file_name, y.file_name);
        assert_eq!(x.file_size, y.file_size);
        assert_eq!(x.file_size_pos, y.file_size_pos);
        assert_eq!(x.extract_size, y.extract_size);
        assert_eq!(x.extract_size_pos, y.extract_size_pos);
        assert_eq!(x.file_offset, y.file_offset);
        assert_eq!(x.file_offset_pos, y.file_offset_pos);
        assert_eq!(x.id, y.id);
        assert_eq!(x.user_string, y.user_string);
        assert_eq!(x.local_dir, y.local_dir);
        assert_eq!(x.toc_name, y.toc_name);
        assert_eq!(x.file_type, y.file_type);
        assert_eq!(x.offset, y.offset);
        if x.file_name != "CPK_HDR" {
            assert_eq!(x.encrypted, y.encrypted);
        }
    }
    for name in ["TocOffset", "EtocOffset", "ItocOffset", "GtocOffset", "ContentOffset"] {
        assert_eq!(
            a.cpk_data.get(name).unwrap().as_u64(),
            b.cpk_data.get(name).unwrap().as_u64()
        );
    }
    assert_eq!(a.cpk_data.get("Align").unwrap().as_u16(), Some(16));
    assert_eq!(b.cpk_data.get("Align").unwrap().as_u16(), Some(16));
    assert_eq!(a.cpk_packet, b.cpk_packet);
    assert_eq!(a.toc_packet, b.toc_packet);
    assert_eq!(a.etoc_packet, b.etoc_packet);
    assert_eq!(a.itoc_packet, b.itoc_packet);
    assert_eq!(a.content_offset, b.content_offset);
}
