//! The layout of a CPK archive, stated as functions from its bytes to the
//! archive that they hold.
use crate::byte_order::{as_signed, bytes_at, le_value};
use crate::compression::decompressed;
use crate::error::ErrorKind;
use crate::text::{lowercase, zero_padded};
use crate::utf::CellData;
use crate::utf_format::{parse_utf, utf_signature, UtfModel};
use vstd::arithmetic::div_mod::lemma_fundamental_div_mod_converse;
use vstd::prelude::*;

verus! {

/// The value of an offset whose section the archive does not have.
pub open spec fn absent_offset() -> u64 {
    0xFFFF_FFFF_FFFF_FFFF
}

/// The largest size that a table of the archive may declare.
pub open spec fn max_packet_size() -> int {
    100_000_000
}

/// The state of the keystream at the byte `index`: it starts at `0x655F`
/// and is multiplied by `0x4115` for every byte, in 32 bits.
pub open spec fn keystream(index: nat) -> u32
    decreases index,
{
    if index == 0 {
        0x0000_655F
    } else {
        keystream((index - 1) as nat).wrapping_mul(0x0000_4115)
    }
}

/// The byte that the keystream gives for the byte `index`: the low byte of
/// its state.
pub open spec fn key_byte(index: nat) -> u8 {
    (keystream(index) & 0xFF) as u8
}

/// The table `packet` with the keystream applied: each byte combined with
/// the key byte of its place by exclusive or.
pub open spec fn deobfuscated(packet: Seq<u8>) -> Seq<u8> {
    Seq::new(packet.len(), |i: int| packet[i] ^ key_byte(i as nat))
}

/// Whether a table is stored obfuscated: it does not start with `@UTF`.
pub open spec fn is_obfuscated(packet: Seq<u8>) -> bool {
    !(packet.len() >= 4 && packet.subrange(0, 4) == utf_signature())
}

/// Applying the keystream twice gives the table back.
pub proof fn lemma_deobfuscation_is_involution(packet: Seq<u8>)
    ensures
        deobfuscated(deobfuscated(packet)) == packet,
{
    assert forall|i: int| 0 <= i < packet.len() implies deobfuscated(deobfuscated(packet))[i]
        == packet[i] by {
        let byte = packet[i];
        let key = key_byte(i as nat);
        assert((byte ^ key) ^ key == byte) by (bit_vector);
    }
}

/// The size that the frame at `at` declares for its table: a signed
/// little-endian number of eight bytes behind four bytes that are skipped.
pub open spec fn framed_size(data: Seq<u8>, at: int) -> int {
    as_signed(le_value(data.subrange(at + 4, at + 12)), 8)
}

/// The table in the frame at `at`, deobfuscated where it was stored
/// obfuscated, and whether it was. The frame is refused where it is cut
/// short, where its size is negative, runs over `file_size` or is over the
/// cap, and where the table does not start with `@UTF` even when
/// deobfuscated.
pub open spec fn read_packet(data: Seq<u8>, at: int, file_size: int) -> std::result::Result<
    (Seq<u8>, bool),
    ErrorKind,
> {
    if at + 12 > data.len() {
        Err(ErrorKind::Io)
    } else {
        let size = framed_size(data, at);
        if size < 0 {
            Err(ErrorKind::InvalidFormat)
        } else if at + 12 + size > file_size {
            Err(ErrorKind::InvalidFormat)
        } else if size > max_packet_size() {
            Err(ErrorKind::InvalidFormat)
        } else if size > 0 && at + 12 + size > data.len() {
            Err(ErrorKind::Io)
        } else {
            let stored = bytes_at(data, at + 12, size as nat);
            let packet = if is_obfuscated(stored) {
                deobfuscated(stored)
            } else {
                stored
            };
            if is_obfuscated(packet) {
                Err(ErrorKind::InvalidUtfSignature)
            } else {
                Ok((packet, is_obfuscated(stored)))
            }
        }
    }
}

/// An entry of the file table as contracts see it.
pub struct FileEntryModel {
    pub dir_name: Option<Seq<char>>,
    pub file_name: Seq<char>,
    pub file_size: u64,
    pub file_size_pos: u64,
    pub extract_size: Option<u64>,
    pub extract_size_pos: Option<u64>,
    pub file_offset: u64,
    pub file_offset_pos: u64,
    pub id: Option<u32>,
    pub user_string: Option<Seq<char>>,
    pub local_dir: Option<Seq<char>>,
    pub toc_name: Seq<char>,
    pub file_type: Seq<char>,
    pub encrypted: bool,
    pub offset: u64,
}

/// The entry that holds nothing.
pub open spec fn blank_entry() -> FileEntryModel {
    FileEntryModel {
        dir_name: None,
        file_name: Seq::empty(),
        file_size: 0,
        file_size_pos: 0,
        extract_size: None,
        extract_size_pos: None,
        file_offset: 0,
        file_offset_pos: 0,
        id: None,
        user_string: None,
        local_dir: None,
        toc_name: Seq::empty(),
        file_type: Seq::empty(),
        encrypted: false,
        offset: 0,
    }
}

/// An archive as contracts see it.
pub struct CpkModel {
    pub file_table: Seq<FileEntryModel>,
    pub cpk_data: Map<Seq<char>, CellData>,
    pub cpk_packet: Seq<u8>,
    pub toc_packet: Option<Seq<u8>>,
    pub itoc_packet: Option<Seq<u8>>,
    pub etoc_packet: Option<Seq<u8>>,
    pub gtoc_packet: Option<Seq<u8>>,
    pub toc_offset: u64,
    pub etoc_offset: u64,
    pub itoc_offset: u64,
    pub gtoc_offset: u64,
    pub content_offset: u64,
}

/// The archive that holds nothing.
pub open spec fn empty_archive() -> CpkModel {
    CpkModel {
        file_table: Seq::empty(),
        cpk_data: Map::empty(),
        cpk_packet: Seq::empty(),
        toc_packet: None,
        itoc_packet: None,
        etoc_packet: None,
        gtoc_packet: None,
        toc_offset: absent_offset(),
        etoc_offset: absent_offset(),
        itoc_offset: absent_offset(),
        gtoc_offset: absent_offset(),
        content_offset: 0,
    }
}

/// The map that a list of named values stands for: each name has the
/// value of the first entry of that name.
pub open spec fn named_values(pairs: Seq<(Seq<char>, CellData)>) -> Map<Seq<char>, CellData>
    decreases pairs.len(),
{
    if pairs.len() == 0 {
        Map::empty()
    } else {
        named_values(pairs.drop_first()).insert(pairs.first().0, pairs.first().1)
    }
}

/// The four bytes `CPK ` that start an archive.
pub open spec fn cpk_signature() -> Seq<u8> {
    seq![0x43u8, 0x50u8, 0x4Bu8, 0x20u8]
}

/// The four bytes `TOC ` that start the file list.
pub open spec fn toc_signature() -> Seq<u8> {
    seq![0x54u8, 0x4Fu8, 0x43u8, 0x20u8]
}

/// The four bytes `ETOC` that start the extended file list.
pub open spec fn etoc_signature() -> Seq<u8> {
    seq![0x45u8, 0x54u8, 0x4Fu8, 0x43u8]
}

/// The four bytes `ITOC` that start the list of files by id.
pub open spec fn itoc_signature() -> Seq<u8> {
    seq![0x49u8, 0x54u8, 0x4Fu8, 0x43u8]
}

/// The four bytes `GTOC` that start the list of groups.
pub open spec fn gtoc_signature() -> Seq<u8> {
    seq![0x47u8, 0x54u8, 0x4Fu8, 0x43u8]
}

/// The number in a cell of 64 bits, or `default` for any other value.
pub open spec fn u64_or(value: Option<CellData>, default: u64) -> u64 {
    match value {
        Some(CellData::UInt64(v)) => v,
        _ => default,
    }
}

/// The number in a cell of 32 bits, or `default` for any other value.
pub open spec fn u32_or(value: Option<CellData>, default: u32) -> u32 {
    match value {
        Some(CellData::UInt32(v)) => v,
        _ => default,
    }
}

/// The number in a cell of 16 bits, or `default` for any other value.
pub open spec fn u16_or(value: Option<CellData>, default: u16) -> u16 {
    match value {
        Some(CellData::UInt16(v)) => v,
        _ => default,
    }
}

/// The text in a string cell; any other value has none.
pub open spec fn text_of(value: Option<CellData>) -> Option<Seq<char>> {
    match value {
        Some(CellData::Text(s)) => Some(s),
        _ => None,
    }
}

/// The marker entry for the header table, which starts 16 bytes behind
/// the signature of the archive.
pub open spec fn header_entry(size: u64, encrypted: bool) -> FileEntryModel {
    FileEntryModel {
        file_name: "CPK_HDR"@,
        file_offset: 20,
        file_size: size,
        encrypted,
        file_type: "CPK"@,
        toc_name: "CPK"@,
        ..blank_entry()
    }
}

/// The marker entry for the start of the file contents.
pub open spec fn content_entry(offset: u64) -> FileEntryModel {
    FileEntryModel {
        file_name: "CONTENT_OFFSET"@,
        file_offset: offset,
        file_type: "CONTENT"@,
        toc_name: "CPK"@,
        ..blank_entry()
    }
}

/// The marker entry for the section called `name` that starts at `offset`.
pub open spec fn section_entry(name: Seq<char>, offset: u64) -> FileEntryModel {
    FileEntryModel {
        file_name: name,
        file_offset: offset,
        file_type: "HDR"@,
        toc_name: "CPK"@,
        ..blank_entry()
    }
}

/// The first entry at or behind `from` whose file name is `name`.
pub open spec fn first_named(table: Seq<FileEntryModel>, name: Seq<char>, from: int) -> Option<int>
    decreases table.len() - from,
{
    if from < 0 || from >= table.len() {
        None
    } else if table[from].file_name == name {
        Some(from)
    } else {
        first_named(table, name, from + 1)
    }
}

/// The file table with the size of a section's table and whether it was
/// obfuscated recorded in the first entry called `name`.
pub open spec fn mark_section(
    table: Seq<FileEntryModel>,
    name: Seq<char>,
    encrypted: bool,
    size: u64,
) -> Seq<FileEntryModel> {
    match first_named(table, name, 0) {
        Some(index) => table.update(
            index,
            FileEntryModel { encrypted, file_size: size, ..table[index] },
        ),
        None => table,
    }
}

/// The table of the section that starts at `offset` with `signature`, and
/// whether it was stored obfuscated.
pub open spec fn read_section(data: Seq<u8>, offset: u64, signature: Seq<u8>)
    -> std::result::Result<(Seq<u8>, bool), ErrorKind> {
    if offset + 4 > data.len() {
        Err(ErrorKind::Io)
    } else if data.subrange(offset as int, offset + 4) != signature {
        Err(ErrorKind::InvalidFormat)
    } else {
        read_packet(data, offset + 4, data.len() as int)
    }
}

/// The header values with those of the first `count` columns of the
/// header table added: the value of each column in the first row.
pub open spec fn with_header_values(
    values: Map<Seq<char>, CellData>,
    table: UtfModel,
    count: nat,
) -> Map<Seq<char>, CellData>
    decreases count,
{
    if count == 0 {
        values
    } else {
        let before = with_header_values(values, table, (count - 1) as nat);
        if table.rows.len() > 0 && count - 1 < table.rows[0].len() {
            before.insert(table.columns[count - 1].name, table.rows[0][count - 1].value)
        } else {
            before
        }
    }
}

/// The archive after its header was read, and the alignment that the
/// header declares. The header table gives the offsets of the sections,
/// each absent unless a cell of 64 bits holds it; the offset of the
/// contents, 0 unless such a cell holds it; and the alignment, `0x800`
/// unless a cell of 16 bits holds it. The file table gains the marker of
/// the header and, where the contents do not start at 0, their marker.
pub open spec fn header_stage(cpk: CpkModel, data: Seq<u8>) -> std::result::Result<
    (CpkModel, u16),
    ErrorKind,
> {
    if data.len() < 4 {
        Err(ErrorKind::Io)
    } else if data.subrange(0, 4) != cpk_signature() {
        Err(ErrorKind::InvalidSignature)
    } else {
        match read_packet(data, 4, data.len() as int) {
            Err(e) => Err(e),
            Ok((packet, encrypted)) => match parse_utf(packet) {
                Err(e) => Err(e),
                Ok(table) => {
                    let content_offset = u64_or(table.value(0, "ContentOffset"@), 0);
                    let with_header = cpk.file_table.push(
                        header_entry(packet.len() as u64, encrypted),
                    );
                    Ok(
                        (
                            CpkModel {
                                file_table: if content_offset != 0 {
                                    with_header.push(content_entry(content_offset))
                                } else {
                                    with_header
                                },
                                cpk_data: with_header_values(
                                    cpk.cpk_data,
                                    table,
                                    table.columns.len(),
                                ),
                                cpk_packet: packet,
                                toc_offset: u64_or(table.value(0, "TocOffset"@), absent_offset()),
                                etoc_offset: u64_or(
                                    table.value(0, "EtocOffset"@),
                                    absent_offset(),
                                ),
                                itoc_offset: u64_or(
                                    table.value(0, "ItocOffset"@),
                                    absent_offset(),
                                ),
                                gtoc_offset: u64_or(
                                    table.value(0, "GtocOffset"@),
                                    absent_offset(),
                                ),
                                content_offset,
                                ..cpk
                            },
                            u16_or(table.value(0, "Align"@), 0x800),
                        ),
                    )
                },
            },
        }
    }
}

/// The archive after its header could not be read. Where the header
/// table was taken from its frame but holds no table, the marker of the
/// header stands in the file table; else nothing is changed.
pub open spec fn header_failed(cpk: CpkModel, data: Seq<u8>) -> CpkModel {
    if data.len() >= 4 && data.subrange(0, 4) == cpk_signature() {
        match read_packet(data, 4, data.len() as int) {
            Ok((packet, encrypted)) => CpkModel {
                file_table: cpk.file_table.push(header_entry(packet.len() as u64, encrypted)),
                ..cpk
            },
            Err(_) => cpk,
        }
    } else {
        cpk
    }
}

/// The archive after the section called `name` that starts at `offset`
/// could not be read: the file table has gained the marker of the section
/// and nothing else. The marker records the table of the section where
/// that was taken from its frame; else it has the size 0 and is not marked
/// as obfuscated.
pub open spec fn section_failed(
    cpk: CpkModel,
    data: Seq<u8>,
    name: Seq<char>,
    offset: u64,
    signature: Seq<u8>,
) -> CpkModel {
    let with_marker = cpk.file_table.push(section_entry(name, offset));
    CpkModel {
        file_table: match read_section(data, offset, signature) {
            Ok((packet, encrypted)) => mark_section(
                with_marker,
                name,
                encrypted,
                packet.len() as u64,
            ),
            Err(_) => with_marker,
        },
        ..cpk
    }
}

/// The offset that is added to the offsets of the files of the file list:
/// the smaller of the contents' offset and of the list's offset capped at
/// `0x800`, or the one of the two that is present.
pub open spec fn toc_base(toc_offset: u64, content_offset: u64) -> u64 {
    let capped = if toc_offset > 0x800 {
        0x800
    } else {
        toc_offset
    };
    if content_offset == absent_offset() {
        capped
    } else if toc_offset == absent_offset() {
        content_offset
    } else if content_offset < capped {
        content_offset
    } else {
        capped
    }
}

/// Where the cell was read, or nothing where there is no such cell.
pub open spec fn position_of(table: UtfModel, row: int, name: Seq<char>) -> Option<u64> {
    match table.cell(row, name) {
        Some(cell) => Some(cell.position as u64),
        None => None,
    }
}

/// The entry for the row `row` of the file list. Sizes and offset count
/// only where a cell of 64 bits holds them, the id where one of 32 bits
/// does. The offset is the stored one with `base` added, and must fit in
/// 64 bits.
pub open spec fn toc_entry(table: UtfModel, row: int, base: u64) -> std::result::Result<
    FileEntryModel,
    ErrorKind,
> {
    let stored = u64_or(table.value(row, "FileOffset"@), 0);
    if table.value(row, "FileOffset"@) is Some && stored + base > u64::MAX {
        Err(ErrorKind::InvalidFormat)
    } else {
        Ok(
            FileEntryModel {
                dir_name: text_of(table.value(row, "DirName"@)),
                file_name: match text_of(table.value(row, "FileName"@)) {
                    Some(name) => name,
                    None => Seq::empty(),
                },
                file_size: u64_or(table.value(row, "FileSize"@), 0),
                file_size_pos: match position_of(table, row, "FileSize"@) {
                    Some(position) => position,
                    None => 0,
                },
                extract_size: match table.value(row, "ExtractSize"@) {
                    Some(CellData::UInt64(v)) => Some(v),
                    _ => None,
                },
                extract_size_pos: position_of(table, row, "ExtractSize"@),
                file_offset: if table.value(row, "FileOffset"@) is Some {
                    (stored + base) as u64
                } else {
                    0
                },
                file_offset_pos: match position_of(table, row, "FileOffset"@) {
                    Some(position) => position,
                    None => 0,
                },
                id: match table.value(row, "ID"@) {
                    Some(CellData::UInt32(v)) => Some(v),
                    _ => None,
                },
                user_string: text_of(table.value(row, "UserString"@)),
                local_dir: None,
                toc_name: "TOC"@,
                file_type: "FILE"@,
                encrypted: false,
                offset: base,
            },
        )
    }
}

/// The entries for the first `count` rows of the file list.
pub open spec fn toc_entries(table: UtfModel, base: u64, count: nat) -> std::result::Result<
    Seq<FileEntryModel>,
    ErrorKind,
>
    decreases count,
{
    if count == 0 {
        Ok(Seq::empty())
    } else {
        match toc_entries(table, base, (count - 1) as nat) {
            Err(e) => Err(e),
            Ok(entries) => match toc_entry(table, count - 1, base) {
                Err(e) => Err(e),
                Ok(entry) => Ok(entries.push(entry)),
            },
        }
    }
}

/// The archive after its file list was read, where it has one: the file
/// table gains the marker of the list and an entry for each of its rows.
pub open spec fn toc_stage(cpk: CpkModel, data: Seq<u8>) -> std::result::Result<
    CpkModel,
    ErrorKind,
> {
    if cpk.toc_offset == absent_offset() {
        Ok(cpk)
    } else {
        match read_section(data, cpk.toc_offset, toc_signature()) {
            Err(e) => Err(e),
            Ok((packet, encrypted)) => match parse_utf(packet) {
                Err(e) => Err(e),
                Ok(table) => match toc_entries(
                    table,
                    toc_base(cpk.toc_offset, cpk.content_offset),
                    table.num_rows as nat,
                ) {
                    Err(e) => Err(e),
                    Ok(entries) => Ok(
                        CpkModel {
                            file_table: mark_section(
                                cpk.file_table.push(section_entry("TOC_HDR"@, cpk.toc_offset)),
                                "TOC_HDR"@,
                                encrypted,
                                packet.len() as u64,
                            ) + entries,
                            toc_packet: Some(packet),
                            ..cpk
                        },
                    ),
                },
            },
        }
    }
}

/// Whether an entry stands for a file.
pub open spec fn is_file(entry: FileEntryModel) -> bool {
    entry.file_type == "FILE"@
}

/// Whether an entry stands for a file of the file list.
pub open spec fn is_listed_file(entry: FileEntryModel) -> bool {
    is_file(entry) && entry.toc_name == "TOC"@
}

/// The number of files of the file list among the first `count` entries.
pub open spec fn files_before(table: Seq<FileEntryModel>, count: nat) -> nat
    decreases count,
{
    if count == 0 {
        0
    } else {
        files_before(table, (count - 1) as nat) + if is_listed_file(table[count - 1]) {
            1nat
        } else {
            0nat
        }
    }
}

/// The entry of the file of rank `rank` with its local directory taken
/// from the row `rank` of the extended file list, where that row has one.
pub open spec fn with_local_dir(entry: FileEntryModel, etoc: UtfModel, rank: int)
    -> FileEntryModel {
    match etoc.value(rank, "LocalDir"@) {
        Some(value) => FileEntryModel { local_dir: text_of(Some(value)), ..entry },
        None => entry,
    }
}

/// The file table with the local directories of the extended file list
/// attached: its rows belong to the files of the file list in their order.
pub open spec fn attach_local_dirs(table: Seq<FileEntryModel>, etoc: UtfModel) -> Seq<
    FileEntryModel,
> {
    Seq::new(
        table.len(),
        |i: int|
            if is_listed_file(table[i]) {
                with_local_dir(table[i], etoc, files_before(table, i as nat) as int)
            } else {
                table[i]
            },
    )
}

/// The file table with the local directories attached to the first `upto`
/// entries only.
pub open spec fn partly_attached(table: Seq<FileEntryModel>, etoc: UtfModel, upto: int) -> Seq<
    FileEntryModel,
> {
    Seq::new(
        table.len(),
        |i: int|
            if i < upto {
                attach_local_dirs(table, etoc)[i]
            } else {
                table[i]
            },
    )
}

/// The archive after its extended file list was read, where it has one.
pub open spec fn etoc_stage(cpk: CpkModel, data: Seq<u8>) -> std::result::Result<
    CpkModel,
    ErrorKind,
> {
    if cpk.etoc_offset == absent_offset() {
        Ok(cpk)
    } else {
        match read_section(data, cpk.etoc_offset, etoc_signature()) {
            Err(e) => Err(e),
            Ok((packet, encrypted)) => match parse_utf(packet) {
                Err(e) => Err(e),
                Ok(table) => Ok(
                    CpkModel {
                        file_table: attach_local_dirs(
                            mark_section(
                                cpk.file_table.push(section_entry("ETOC_HDR"@, cpk.etoc_offset)),
                                "ETOC_HDR"@,
                                encrypted,
                                packet.len() as u64,
                            ),
                            table,
                        ),
                        etoc_packet: Some(packet),
                        ..cpk
                    },
                ),
            },
        }
    }
}

/// What the two tables of a list of files by id give: the size and the
/// extracted size of each id, and the ids in the order in which they first
/// occur.
pub struct IdTables {
    pub sizes: Map<u32, u64>,
    pub extract_sizes: Map<u32, u64>,
    pub ids: Seq<u32>,
}

/// The id in a cell of 16 bits; any other value stands for the id 0.
pub open spec fn id_of(value: CellData) -> u32 {
    u16_or(Some(value), 0) as u32
}

/// The size in a cell: of 32 bits in the table of large files, of 16 bits
/// in the table of small ones. Any other value stands for the size 0.
pub open spec fn size_of(value: CellData, large: bool) -> u64 {
    if large {
        u32_or(Some(value), 0) as u64
    } else {
        u16_or(Some(value), 0) as u64
    }
}

/// The tables with the row `row` of `table` added. A row counts where it
/// has an id; its id is listed, once, where it has a size.
pub open spec fn scan_row(table: UtfModel, row: int, found: IdTables, large: bool) -> IdTables {
    match table.value(row, "ID"@) {
        None => found,
        Some(id_value) => {
            let id = id_of(id_value);
            let sized = match table.value(row, "FileSize"@) {
                None => found,
                Some(size) => IdTables {
                    sizes: found.sizes.insert(id, size_of(size, large)),
                    ids: if found.ids.contains(id) {
                        found.ids
                    } else {
                        found.ids.push(id)
                    },
                    ..found
                },
            };
            match table.value(row, "ExtractSize"@) {
                None => sized,
                Some(size) => IdTables {
                    extract_sizes: sized.extract_sizes.insert(id, size_of(size, large)),
                    ..sized
                },
            }
        },
    }
}

/// The tables with the first `count` rows of `table` added.
pub open spec fn scan_rows(table: UtfModel, found: IdTables, large: bool, count: nat) -> IdTables
    decreases count,
{
    if count == 0 {
        found
    } else {
        scan_row(table, count - 1, scan_rows(table, found, large, (count - 1) as nat), large)
    }
}

/// The tables with the rows of the table that the blob `name` of the
/// list holds added, where the list has such a blob.
pub open spec fn scan_blob(list: UtfModel, name: Seq<char>, found: IdTables, large: bool)
    -> std::result::Result<IdTables, ErrorKind> {
    match list.value(0, name) {
        Some(CellData::Bytes(blob)) => match parse_utf(blob) {
            Err(e) => Err(e),
            Ok(table) => Ok(scan_rows(table, found, large, table.num_rows as nat)),
        },
        _ => Ok(found),
    }
}

/// What the list of files by id gives: the rows of its table of small
/// files `DataL`, then those of its table of large files `DataH`.
pub open spec fn id_tables(list: UtfModel) -> std::result::Result<IdTables, ErrorKind> {
    let nothing = IdTables { sizes: Map::empty(), extract_sizes: Map::empty(), ids: Seq::empty() };
    match scan_blob(list, "DataL"@, nothing, false) {
        Err(e) => Err(e),
        Ok(small) => scan_blob(list, "DataH"@, small, true),
    }
}

/// The order of ids.
pub open spec fn id_order() -> spec_fn(u32, u32) -> bool {
    |a: u32, b: u32| a <= b
}

/// The size of a file with the padding that follows it: the next
/// multiple of `align`, or the size itself where it is one.
pub open spec fn aligned_size(size: u64, align: u16) -> int {
    if size % (align as u64) > 0 {
        size + (align - size % (align as u64))
    } else {
        size as int
    }
}

/// The entry for the file `id`, which starts at `offset`.
pub open spec fn itoc_entry(found: IdTables, id: u32, offset: u64) -> FileEntryModel {
    FileEntryModel {
        toc_name: "ITOC"@,
        file_type: "FILE"@,
        file_name: zero_padded(id as nat, 4),
        id: Some(id),
        file_offset: offset,
        file_size: if found.sizes.contains_key(id) {
            found.sizes[id]
        } else {
            0
        },
        extract_size: if found.extract_sizes.contains_key(id) {
            Some(found.extract_sizes[id])
        } else {
            None
        },
        ..blank_entry()
    }
}

/// The entries for the first `count` of `ids`, and where the file behind
/// them starts. The first file starts at `base`, each other one behind the
/// file before it and its padding. The alignment may not be 0, and no
/// offset may leave 64 bits.
pub open spec fn itoc_entries(found: IdTables, ids: Seq<u32>, align: u16, base: u64, count: nat)
    -> std::result::Result<(Seq<FileEntryModel>, u64), ErrorKind>
    decreases count,
{
    if count == 0 {
        Ok((Seq::empty(), base))
    } else {
        match itoc_entries(found, ids, align, base, (count - 1) as nat) {
            Err(e) => Err(e),
            Ok((entries, offset)) => {
                let entry = itoc_entry(found, ids[count - 1], offset);
                if align == 0 || offset + aligned_size(entry.file_size, align) > u64::MAX {
                    Err(ErrorKind::InvalidFormat)
                } else {
                    Ok(
                        (
                            entries.push(entry),
                            (offset + aligned_size(entry.file_size, align)) as u64,
                        ),
                    )
                }
            },
        }
    }
}

/// The archive after its list of files by id was read, where it has one:
/// the file table gains the marker of the list and an entry for each id,
/// in the order of the ids, laid out from the start of the contents.
pub open spec fn itoc_stage(cpk: CpkModel, data: Seq<u8>, align: u16) -> std::result::Result<
    CpkModel,
    ErrorKind,
> {
    if cpk.itoc_offset == absent_offset() {
        Ok(cpk)
    } else {
        match read_section(data, cpk.itoc_offset, itoc_signature()) {
            Err(e) => Err(e),
            Ok((packet, encrypted)) => match parse_utf(packet) {
                Err(e) => Err(e),
                Ok(list) => match id_tables(list) {
                    Err(e) => Err(e),
                    Ok(found) => {
                        let ids = found.ids.sort_by(id_order());
                        match itoc_entries(found, ids, align, cpk.content_offset, ids.len()) {
                            Err(e) => Err(e),
                            Ok((entries, _)) => Ok(
                                CpkModel {
                                    file_table: mark_section(
                                        cpk.file_table.push(
                                            section_entry("ITOC_HDR"@, cpk.itoc_offset),
                                        ),
                                        "ITOC_HDR"@,
                                        encrypted,
                                        packet.len() as u64,
                                    ) + entries,
                                    itoc_packet: Some(packet),
                                    ..cpk
                                },
                            ),
                        }
                    },
                },
            },
        }
    }
}

/// The archive after the signature of its list of groups was checked,
/// where it has one: the file table gains the marker of the list.
pub open spec fn gtoc_stage(cpk: CpkModel, data: Seq<u8>) -> std::result::Result<
    CpkModel,
    ErrorKind,
> {
    if cpk.gtoc_offset == absent_offset() {
        Ok(cpk)
    } else if cpk.gtoc_offset + 4 > data.len() {
        Err(ErrorKind::Io)
    } else if data.subrange(cpk.gtoc_offset as int, cpk.gtoc_offset + 4) != gtoc_signature() {
        Err(ErrorKind::InvalidFormat)
    } else {
        Ok(
            CpkModel {
                file_table: cpk.file_table.push(section_entry("GTOC_HDR"@, cpk.gtoc_offset)),
                ..cpk
            },
        )
    }
}

/// The archive `cpk` after the archive that `data` holds was read into
/// it: the header first, then the sections that the header declares, in
/// the order file list, extended file list, list by id, list of groups.
/// The first failure decides.
pub open spec fn read_archive(cpk: CpkModel, data: Seq<u8>) -> std::result::Result<
    CpkModel,
    ErrorKind,
> {
    match header_stage(cpk, data) {
        Err(e) => Err(e),
        Ok((with_header, align)) => match toc_stage(with_header, data) {
            Err(e) => Err(e),
            Ok(with_toc) => match etoc_stage(with_toc, data) {
                Err(e) => Err(e),
                Ok(with_etoc) => match itoc_stage(with_etoc, data, align) {
                    Err(e) => Err(e),
                    Ok(with_itoc) => gtoc_stage(with_itoc, data),
                },
            },
        },
    }
}

/// The eight bytes `CRILAYLA` that start a compressed file.
pub open spec fn crilayla_signature() -> Seq<u8> {
    seq![0x43u8, 0x52u8, 0x49u8, 0x4Cu8, 0x41u8, 0x59u8, 0x4Cu8, 0x41u8]
}

/// Whether the bytes of a file are compressed.
pub open spec fn is_compressed(payload: Seq<u8>) -> bool {
    payload.len() >= 8 && payload.subrange(0, 8) == crilayla_signature()
}

/// The path of a file: its name, behind its directory and a slash where it
/// has a directory.
pub open spec fn full_path(entry: FileEntryModel) -> Seq<char> {
    match entry.dir_name {
        Some(dir) => dir + seq!['/'] + entry.file_name,
        None => entry.file_name,
    }
}

/// A file as it leaves the archive: the directory to create for it, the
/// path to write it to, and its bytes. A file of size 0 has no bytes and
/// is not written.
pub struct ExtractedModel {
    pub dir_name: Option<Seq<char>>,
    pub path: Seq<char>,
    pub data: Option<Seq<u8>>,
}

/// The file of `entry` as it leaves the archive `data`: the bytes at its
/// offset, decompressed where they start with `CRILAYLA`. The bytes must
/// lie inside the archive, and compressed bytes must decompress.
pub open spec fn extract_entry(data: Seq<u8>, entry: FileEntryModel) -> std::result::Result<
    ExtractedModel,
    ErrorKind,
> {
    if entry.file_size == 0 {
        Ok(ExtractedModel { dir_name: entry.dir_name, path: full_path(entry), data: None })
    } else if entry.file_offset + entry.file_size > data.len() {
        Err(ErrorKind::Io)
    } else {
        let payload = data.subrange(
            entry.file_offset as int,
            entry.file_offset + entry.file_size,
        );
        if is_compressed(payload) {
            match decompressed(payload) {
                None => Err(ErrorKind::Compression),
                Some(output) => Ok(
                    ExtractedModel {
                        dir_name: entry.dir_name,
                        path: full_path(entry),
                        data: Some(output),
                    },
                ),
            }
        } else {
            Ok(
                ExtractedModel {
                    dir_name: entry.dir_name,
                    path: full_path(entry),
                    data: Some(payload),
                },
            )
        }
    }
}

/// Whether an entry is a file whose path in lower case is `lowered`.
pub open spec fn matches_target(entry: FileEntryModel, lowered: Seq<char>) -> bool {
    is_file(entry) && lowercase(full_path(entry)) == lowered
}

/// Whether an entry is chosen: every file is where no path is given, else
/// the files whose path in lower case is the given one.
pub open spec fn is_chosen(entry: FileEntryModel, lowered: Option<Seq<char>>) -> bool {
    match lowered {
        Some(path) => matches_target(entry, path),
        None => is_file(entry),
    }
}

/// The chosen files among the first `count` entries as they leave the
/// archive, in the order of the table. The first file that cannot be
/// extracted decides.
pub open spec fn extract_chosen(
    data: Seq<u8>,
    table: Seq<FileEntryModel>,
    lowered: Option<Seq<char>>,
    count: nat,
) -> std::result::Result<Seq<ExtractedModel>, ErrorKind>
    decreases count,
{
    if count == 0 {
        Ok(Seq::empty())
    } else {
        match extract_chosen(data, table, lowered, (count - 1) as nat) {
            Err(e) => Err(e),
            Ok(files) => if is_chosen(table[count - 1], lowered) {
                match extract_entry(data, table[count - 1]) {
                    Err(e) => Err(e),
                    Ok(file) => Ok(files.push(file)),
                }
            } else {
                Ok(files)
            },
        }
    }
}

/// The places of the chosen files among the first `count` entries, in
/// the order of the table.
pub open spec fn chosen_places(
    table: Seq<FileEntryModel>,
    lowered: Option<Seq<char>>,
    count: nat,
) -> Seq<usize>
    decreases count,
{
    if count == 0 {
        Seq::empty()
    } else {
        let before = chosen_places(table, lowered, (count - 1) as nat);
        if is_chosen(table[count - 1], lowered) {
            before.push((count - 1) as usize)
        } else {
            before
        }
    }
}

/// A file that is chosen can only fail to leave the archive because its
/// bytes lie outside the archive or do not decompress.
pub proof fn lemma_extract_failures(
    data: Seq<u8>,
    table: Seq<FileEntryModel>,
    lowered: Option<Seq<char>>,
    count: nat,
)
    ensures
        extract_chosen(data, table, lowered, count) matches Err(kind) ==> kind == ErrorKind::Io
            || kind == ErrorKind::Compression,
    decreases count,
{
    if count > 0 {
        lemma_extract_failures(data, table, lowered, (count - 1) as nat);
    }
}

/// Whether one of the first `count` entries is a file whose path in
/// lower case is `lowered`.
pub open spec fn has_match(table: Seq<FileEntryModel>, lowered: Seq<char>, count: nat) -> bool
    decreases count,
{
    count > 0 && (has_match(table, lowered, (count - 1) as nat) || matches_target(
        table[count - 1],
        lowered,
    ))
}

/// The files whose path is `target`, letter case aside, as they leave the
/// archive; there must be one.
pub open spec fn extract_target(data: Seq<u8>, table: Seq<FileEntryModel>, target: Seq<char>)
    -> std::result::Result<Seq<ExtractedModel>, ErrorKind> {
    if !has_match(table, lowercase(target), table.len()) {
        Err(ErrorKind::FileNotFound)
    } else {
        extract_chosen(data, table, Some(lowercase(target)), table.len())
    }
}

/// The first entry of a name is an entry of the table that has that name.
pub proof fn lemma_first_named(table: Seq<FileEntryModel>, name: Seq<char>, from: int)
    requires
        0 <= from,
    ensures
        first_named(table, name, from) matches Some(index) ==> from <= index < table.len()
            && table[index].file_name == name,
    decreases table.len() - from,
{
    if from < table.len() && table[from].file_name != name {
        lemma_first_named(table, name, from + 1);
    }
}

/// Recording a section's table in its marker keeps the number of entries.
pub proof fn lemma_mark_section_len(
    table: Seq<FileEntryModel>,
    name: Seq<char>,
    encrypted: bool,
    size: u64,
)
    ensures
        mark_section(table, name, encrypted, size).len() == table.len(),
{
    lemma_first_named(table, name, 0);
}

/// The number of blocks of `align` bytes that `size` bytes take.
pub open spec fn blocks(size: int, align: int) -> int {
    (size + align - 1) / align
}

/// A file with its padding takes whole blocks: as many as its size needs.
pub proof fn lemma_aligned_size_is_blocks(size: u64, align: u16)
    requires
        align > 0,
    ensures
        aligned_size(size, align) == blocks(size as int, align as int) * align,
{
    let s = size as int;
    let a = align as int;
    let q = s / a;
    let r = s % a;
    if r > 0 {
        assert(s + a - 1 == (q + 1) * a + (r - 1)) by (nonlinear_arith)
            requires
                s == a * q + r,
        ;
        lemma_fundamental_div_mod_converse(s + a - 1, a, q + 1, r - 1);
        assert((q + 1) * a == s + (a - r)) by (nonlinear_arith)
            requires
                s == a * q + r,
        ;
    } else {
        assert(s + a - 1 == q * a + (a - 1)) by (nonlinear_arith)
            requires
                s == a * q + r,
                r == 0,
        ;
        lemma_fundamental_div_mod_converse(s + a - 1, a, q, a - 1);
        assert(q * a == s) by (nonlinear_arith)
            requires
                s == a * q + r,
                r == 0,
        ;
    }
}

/// The entries of a list of files by id stand for the ids in their order;
/// the first file starts at `base`, and each other file starts behind the
/// file before it by the whole blocks of `align` bytes that this file takes.
pub proof fn lemma_itoc_layout(found: IdTables, ids: Seq<u32>, align: u16, base: u64, count: nat)
    requires
        itoc_entries(found, ids, align, base, count) is Ok,
    ensures
        ({
            let (entries, next) = itoc_entries(found, ids, align, base, count)->Ok_0;
            &&& entries.len() == count
            &&& count > 0 ==> align > 0 && entries[0].file_offset == base
            &&& forall|k: int|
                0 <= k < count ==> #[trigger] entries[k] == itoc_entry(
                    found,
                    ids[k],
                    entries[k].file_offset,
                )
            &&& forall|k: int|
                0 <= k && k + 1 < count ==> (#[trigger] entries[k + 1]).file_offset
                    - entries[k].file_offset == blocks(entries[k].file_size as int, align as int)
                    * align
            &&& count > 0 ==> next - entries[count - 1].file_offset == blocks(
                entries[count - 1].file_size as int,
                align as int,
            ) * align
            &&& count == 0 ==> next == base
        }),
    decreases count,
{
    if count > 0 {
        lemma_itoc_layout(found, ids, align, base, (count - 1) as nat);
        let (before, offset) = itoc_entries(found, ids, align, base, (count - 1) as nat)->Ok_0;
        let (entries, next) = itoc_entries(found, ids, align, base, count)->Ok_0;
        let last = itoc_entry(found, ids[count - 1], offset);
        lemma_aligned_size_is_blocks(last.file_size, align);
    }
}

/// Scanning rows lists no id twice.
pub proof fn lemma_scan_rows_distinct(table: UtfModel, found: IdTables, large: bool, count: nat)
    requires
        found.ids.no_duplicates(),
    ensures
        scan_rows(table, found, large, count).ids.no_duplicates(),
    decreases count,
{
    if count > 0 {
        lemma_scan_rows_distinct(table, found, large, (count - 1) as nat);
    }
}

/// The ids that a list of files by id gives are distinct.
pub proof fn lemma_id_tables_distinct(list: UtfModel)
    requires
        id_tables(list) is Ok,
    ensures
        id_tables(list)->Ok_0.ids.no_duplicates(),
{
    let nothing = IdTables { sizes: Map::empty(), extract_sizes: Map::empty(), ids: Seq::empty() };
    let small = scan_blob(list, "DataL"@, nothing, false)->Ok_0;
    match list.value(0, "DataL"@) {
        Some(CellData::Bytes(blob)) => {
            let table = parse_utf(blob)->Ok_0;
            lemma_scan_rows_distinct(table, nothing, false, table.num_rows as nat);
        },
        _ => {},
    }
    match list.value(0, "DataH"@) {
        Some(CellData::Bytes(blob)) => {
            let table = parse_utf(blob)->Ok_0;
            lemma_scan_rows_distinct(table, small, true, table.num_rows as nat);
        },
        _ => {},
    }
}

/// In an archive whose list of files by id was read, the entries of that
/// list stand at the end of the file table in ascending order of their
/// ids, none of which occurs twice; the first starts where the contents
/// start, and each other starts behind the file before it by the whole
/// blocks of `align` bytes that this file takes.
pub proof fn lemma_itoc_stage_layout(cpk: CpkModel, data: Seq<u8>, align: u16)
    requires
        cpk.itoc_offset != absent_offset(),
        itoc_stage(cpk, data, align) is Ok,
    ensures
        ({
            let table = itoc_stage(cpk, data, align)->Ok_0.file_table;
            let first = cpk.file_table.len() as int + 1;
            &&& first <= table.len()
            &&& first < table.len() ==> table[first].file_offset == cpk.content_offset
            &&& forall|k: int|
                first <= k && k + 1 < table.len() ==> (#[trigger] table[k + 1]).file_offset
                    - table[k].file_offset == blocks(table[k].file_size as int, align as int)
                    * align
            &&& forall|k: int|
                first <= k && k + 1 < table.len() ==> table[k].id is Some && (
                #[trigger] table[k + 1]).id is Some && table[k].id->Some_0 < table[k
                    + 1].id->Some_0
        }),
{
    let (packet, encrypted) = read_section(data, cpk.itoc_offset, itoc_signature())->Ok_0;
    let list = parse_utf(packet)->Ok_0;
    let found = id_tables(list)->Ok_0;
    let ids = found.ids.sort_by(id_order());
    let (entries, next) = itoc_entries(found, ids, align, cpk.content_offset, ids.len())->Ok_0;
    let table = itoc_stage(cpk, data, align)->Ok_0.file_table;
    let first = cpk.file_table.len() as int + 1;
    lemma_mark_section_len(
        cpk.file_table.push(section_entry("ITOC_HDR"@, cpk.itoc_offset)),
        "ITOC_HDR"@,
        encrypted,
        packet.len() as u64,
    );
    lemma_itoc_layout(found, ids, align, cpk.content_offset, ids.len());
    found.ids.lemma_sort_by_ensures(id_order());
    lemma_id_tables_distinct(list);
    found.ids.lemma_multiset_has_no_duplicates();
    ids.lemma_multiset_has_no_duplicates_conv();
    assert forall|k: int| first <= k && k + 1 < table.len() implies (#[trigger] table[k
        + 1]).file_offset - table[k].file_offset == blocks(
        table[k].file_size as int,
        align as int,
    ) * align && table[k].id is Some && table[k + 1].id is Some && table[k].id->Some_0
        < table[k + 1].id->Some_0 by {
        assert(id_order()(ids[k - first], ids[k - first + 1]));
    }
}

/// The file table with the entry `place` marked as obfuscated.
pub open spec fn with_obfuscated(table: Seq<FileEntryModel>, place: int) -> Seq<FileEntryModel> {
    table.update(place, FileEntryModel { encrypted: true, ..table[place] })
}

/// The archive with the entry `place` of its file table marked as
/// obfuscated.
pub open spec fn marked_obfuscated(cpk: CpkModel, place: int) -> CpkModel {
    CpkModel { file_table: with_obfuscated(cpk.file_table, place), ..cpk }
}

/// What reading gives where the entry `place` is marked as obfuscated:
/// the same failure, or the same archive with that mark.
pub open spec fn obfuscated_outcome(
    outcome: std::result::Result<CpkModel, ErrorKind>,
    place: int,
) -> std::result::Result<CpkModel, ErrorKind> {
    match outcome {
        Ok(cpk) => Ok(marked_obfuscated(cpk, place)),
        Err(e) => Err(e),
    }
}

/// Whether `hidden` is the archive `plain` with its header table
/// obfuscated: the same bytes, but for the table in the frame behind the
/// signature, to which the keystream is applied.
pub open spec fn hides_header(plain: Seq<u8>, hidden: Seq<u8>) -> bool {
    let size = framed_size(plain, 4);
    &&& plain.len() == hidden.len()
    &&& 0 <= size
    &&& 16 + size <= plain.len()
    &&& forall|i: int|
        0 <= i < plain.len() && !(16 <= i < 16 + size) ==> #[trigger] hidden[i] == plain[i]
    &&& forall|i: int|
        16 <= i < 16 + size ==> #[trigger] hidden[i] == plain[i] ^ key_byte((i - 16) as nat)
}

/// Whether the section at `offset`, if there is one, starts behind the
/// header table of `plain`.
pub open spec fn behind_header(plain: Seq<u8>, offset: u64) -> bool {
    offset == absent_offset() || offset >= 16 + framed_size(plain, 4)
}

/// Whether the entry `place` of the table is the marker of a header.
pub open spec fn is_header_marker(table: Seq<FileEntryModel>, place: int) -> bool {
    0 <= place < table.len() && table[place].file_name == "CPK_HDR"@
}

/// A section that starts behind the header table reads alike in an archive
/// and in the archive with its header obfuscated.
pub proof fn lemma_section_behind_header(
    plain: Seq<u8>,
    hidden: Seq<u8>,
    offset: u64,
    signature: Seq<u8>,
)
    requires
        hides_header(plain, hidden),
        offset >= 16 + framed_size(plain, 4),
    ensures
        read_section(hidden, offset, signature) == read_section(plain, offset, signature),
        offset + 4 <= plain.len() ==> hidden.subrange(offset as int, offset + 4) == plain.subrange(
            offset as int,
            offset + 4,
        ),
{
    if offset + 4 <= plain.len() {
        assert(hidden.subrange(offset as int, offset + 4) =~= plain.subrange(
            offset as int,
            offset + 4,
        ));
        let at = offset + 4;
        if at + 12 <= plain.len() {
            assert(hidden.subrange(at + 4, at + 12) =~= plain.subrange(at + 4, at + 12));
            let size = framed_size(plain, at);
            if 0 <= size && at + 12 + size <= plain.len() {
                assert(bytes_at(hidden, at + 12, size as nat) =~= bytes_at(
                    plain,
                    at + 12,
                    size as nat,
                ));
            }
        }
    }
}

/// Marking an entry as obfuscated changes no name, so the first entry of
/// a name stays where it is.
pub proof fn lemma_first_named_keeps_place(
    table: Seq<FileEntryModel>,
    place: int,
    name: Seq<char>,
    from: int,
)
    requires
        0 <= place < table.len(),
        0 <= from,
    ensures
        first_named(with_obfuscated(table, place), name, from) == first_named(table, name, from),
    decreases table.len() - from,
{
    if from < table.len() {
        lemma_first_named_keeps_place(table, place, name, from + 1);
    }
}

/// Recording the table of a section in its marker and marking another
/// entry as obfuscated can be done in either order.
pub proof fn lemma_mark_section_commutes(
    table: Seq<FileEntryModel>,
    place: int,
    name: Seq<char>,
    encrypted: bool,
    size: u64,
)
    requires
        0 <= place < table.len(),
        table[place].file_name != name,
    ensures
        mark_section(with_obfuscated(table, place), name, encrypted, size) == with_obfuscated(
            mark_section(table, name, encrypted, size),
            place,
        ),
        mark_section(table, name, encrypted, size).len() == table.len(),
        mark_section(table, name, encrypted, size)[place].file_name == table[place].file_name,
{
    lemma_first_named_keeps_place(table, place, name, 0);
    lemma_first_named(table, name, 0);
    assert(mark_section(with_obfuscated(table, place), name, encrypted, size) =~= with_obfuscated(
        mark_section(table, name, encrypted, size),
        place,
    ));
}

/// Marking an entry as obfuscated changes no type, so the files of the
/// file list are counted alike.
pub proof fn lemma_files_before_keeps_count(table: Seq<FileEntryModel>, place: int, count: nat)
    requires
        0 <= place < table.len(),
        count <= table.len(),
    ensures
        files_before(with_obfuscated(table, place), count) == files_before(table, count),
    decreases count,
{
    if count > 0 {
        lemma_files_before_keeps_count(table, place, (count - 1) as nat);
    }
}

/// Attaching local directories and marking an entry as obfuscated can be
/// done in either order.
pub proof fn lemma_attach_commutes(table: Seq<FileEntryModel>, place: int, etoc: UtfModel)
    requires
        0 <= place < table.len(),
    ensures
        attach_local_dirs(with_obfuscated(table, place), etoc) == with_obfuscated(
            attach_local_dirs(table, etoc),
            place,
        ),
        attach_local_dirs(table, etoc)[place].file_name == table[place].file_name,
{
    let marked = with_obfuscated(table, place);
    assert forall|i: int| 0 <= i < table.len() implies #[trigger] attach_local_dirs(
        marked,
        etoc,
    )[i] == with_obfuscated(attach_local_dirs(table, etoc), place)[i] by {
        lemma_files_before_keeps_count(table, place, i as nat);
    }
    assert(attach_local_dirs(marked, etoc) =~= with_obfuscated(
        attach_local_dirs(table, etoc),
        place,
    ));
}

/// Whether two archives declare the same sections and contents.
pub open spec fn same_offsets(a: CpkModel, b: CpkModel) -> bool {
    &&& a.toc_offset == b.toc_offset
    &&& a.etoc_offset == b.etoc_offset
    &&& a.itoc_offset == b.itoc_offset
    &&& a.gtoc_offset == b.gtoc_offset
    &&& a.content_offset == b.content_offset
}

/// Marking the header as obfuscated and reading the file list can be done in
/// either order, where the list starts behind the header table.
pub proof fn lemma_toc_stage_hidden(
    cpk: CpkModel,
    plain: Seq<u8>,
    hidden: Seq<u8>,
    place: int,
)
    requires
        hides_header(plain, hidden),
        behind_header(plain, cpk.toc_offset),
        is_header_marker(cpk.file_table, place),
    ensures
        toc_stage(marked_obfuscated(cpk, place), hidden) == obfuscated_outcome(
            toc_stage(cpk, plain),
            place,
        ),
        toc_stage(cpk, plain) matches Ok(after) ==> is_header_marker(after.file_table, place)
            && same_offsets(after, cpk),
{
    reveal_strlit("CPK_HDR");
    reveal_strlit("TOC_HDR");
    assert("CPK_HDR"@[0] != "TOC_HDR"@[0]);
    if cpk.toc_offset == absent_offset() {
        assert(marked_obfuscated(cpk, place).toc_offset == absent_offset());
    } else {
        lemma_section_behind_header(plain, hidden, cpk.toc_offset, toc_signature());
        let with_marker = cpk.file_table.push(section_entry("TOC_HDR"@, cpk.toc_offset));
        assert(with_obfuscated(cpk.file_table, place).push(
            section_entry("TOC_HDR"@, cpk.toc_offset),
        ) =~= with_obfuscated(with_marker, place));
        match read_section(plain, cpk.toc_offset, toc_signature()) {
            Ok((packet, encrypted)) => {
                lemma_mark_section_commutes(
                    with_marker,
                    place,
                    "TOC_HDR"@,
                    encrypted,
                    packet.len() as u64,
                );
                let marked = mark_section(with_marker, "TOC_HDR"@, encrypted, packet.len() as u64);
                match parse_utf(packet) {
                    Ok(table) => match toc_entries(
                        table,
                        toc_base(cpk.toc_offset, cpk.content_offset),
                        table.num_rows as nat,
                    ) {
                        Ok(entries) => {
                            assert(with_obfuscated(marked, place) + entries =~= with_obfuscated(
                                marked + entries,
                                place,
                            ));
                        },
                        Err(_) => {},
                    },
                    Err(_) => {},
                }
            },
            Err(_) => {},
        }
    }
}

/// Marking the header as obfuscated and reading the extended file list can
/// be done in either order, where the list starts behind the header table.
pub proof fn lemma_etoc_stage_hidden(
    cpk: CpkModel,
    plain: Seq<u8>,
    hidden: Seq<u8>,
    place: int,
)
    requires
        hides_header(plain, hidden),
        behind_header(plain, cpk.etoc_offset),
        is_header_marker(cpk.file_table, place),
    ensures
        etoc_stage(marked_obfuscated(cpk, place), hidden) == obfuscated_outcome(
            etoc_stage(cpk, plain),
            place,
        ),
        etoc_stage(cpk, plain) matches Ok(after) ==> is_header_marker(after.file_table, place)
            && same_offsets(after, cpk),
{
    reveal_strlit("CPK_HDR");
    reveal_strlit("ETOC_HDR");
    assert("CPK_HDR"@[0] != "ETOC_HDR"@[0]);
    if cpk.etoc_offset == absent_offset() {
        assert(marked_obfuscated(cpk, place).etoc_offset == absent_offset());
    } else {
        lemma_section_behind_header(plain, hidden, cpk.etoc_offset, etoc_signature());
        let with_marker = cpk.file_table.push(section_entry("ETOC_HDR"@, cpk.etoc_offset));
        assert(with_obfuscated(cpk.file_table, place).push(
            section_entry("ETOC_HDR"@, cpk.etoc_offset),
        ) =~= with_obfuscated(with_marker, place));
        match read_section(plain, cpk.etoc_offset, etoc_signature()) {
            Ok((packet, encrypted)) => {
                lemma_mark_section_commutes(
                    with_marker,
                    place,
                    "ETOC_HDR"@,
                    encrypted,
                    packet.len() as u64,
                );
                let marked = mark_section(
                    with_marker,
                    "ETOC_HDR"@,
                    encrypted,
                    packet.len() as u64,
                );
                match parse_utf(packet) {
                    Ok(table) => {
                        lemma_attach_commutes(marked, place, table);
                    },
                    Err(_) => {},
                }
            },
            Err(_) => {},
        }
    }
}

/// Marking the header as obfuscated and reading the list of files by id can
/// be done in either order, where the list starts behind the header table.
pub proof fn lemma_itoc_stage_hidden(
    cpk: CpkModel,
    plain: Seq<u8>,
    hidden: Seq<u8>,
    align: u16,
    place: int,
)
    requires
        hides_header(plain, hidden),
        behind_header(plain, cpk.itoc_offset),
        is_header_marker(cpk.file_table, place),
    ensures
        itoc_stage(marked_obfuscated(cpk, place), hidden, align) == obfuscated_outcome(
            itoc_stage(cpk, plain, align),
            place,
        ),
        itoc_stage(cpk, plain, align) matches Ok(after) ==> is_header_marker(
            after.file_table,
            place,
        ) && same_offsets(after, cpk),
{
    reveal_strlit("CPK_HDR");
    reveal_strlit("ITOC_HDR");
    assert("CPK_HDR"@[0] != "ITOC_HDR"@[0]);
    if cpk.itoc_offset == absent_offset() {
        assert(marked_obfuscated(cpk, place).itoc_offset == absent_offset());
    } else {
        lemma_section_behind_header(plain, hidden, cpk.itoc_offset, itoc_signature());
        let with_marker = cpk.file_table.push(section_entry("ITOC_HDR"@, cpk.itoc_offset));
        assert(with_obfuscated(cpk.file_table, place).push(
            section_entry("ITOC_HDR"@, cpk.itoc_offset),
        ) =~= with_obfuscated(with_marker, place));
        match read_section(plain, cpk.itoc_offset, itoc_signature()) {
            Ok((packet, encrypted)) => {
                lemma_mark_section_commutes(
                    with_marker,
                    place,
                    "ITOC_HDR"@,
                    encrypted,
                    packet.len() as u64,
                );
                let marked = mark_section(
                    with_marker,
                    "ITOC_HDR"@,
                    encrypted,
                    packet.len() as u64,
                );
                match parse_utf(packet) {
                    Ok(list) => match id_tables(list) {
                        Ok(found) => {
                            let ids = found.ids.sort_by(id_order());
                            match itoc_entries(found, ids, align, cpk.content_offset, ids.len()) {
                                Ok((entries, _)) => {
                                    assert(with_obfuscated(marked, place) + entries
                                        =~= with_obfuscated(marked + entries, place));
                                },
                                Err(_) => {},
                            }
                        },
                        Err(_) => {},
                    },
                    Err(_) => {},
                }
            },
            Err(_) => {},
        }
    }
}

/// Marking the header as obfuscated and checking the list of groups can be
/// done in either order, where the list starts behind the header table.
pub proof fn lemma_gtoc_stage_hidden(cpk: CpkModel, plain: Seq<u8>, hidden: Seq<u8>, place: int)
    requires
        hides_header(plain, hidden),
        behind_header(plain, cpk.gtoc_offset),
        is_header_marker(cpk.file_table, place),
    ensures
        gtoc_stage(marked_obfuscated(cpk, place), hidden) == obfuscated_outcome(
            gtoc_stage(cpk, plain),
            place,
        ),
{
    if cpk.gtoc_offset != absent_offset() {
        lemma_section_behind_header(plain, hidden, cpk.gtoc_offset, gtoc_signature());
        assert(with_obfuscated(cpk.file_table, place).push(
            section_entry("GTOC_HDR"@, cpk.gtoc_offset),
        ) =~= with_obfuscated(
            cpk.file_table.push(section_entry("GTOC_HDR"@, cpk.gtoc_offset)),
            place,
        ));
    }
}

/// What reading the header gives where the header table is obfuscated:
/// the same failure, or the same archive and alignment with the marker of
/// the header, the entry `place`, marked as obfuscated.
pub open spec fn obfuscated_header_outcome(
    outcome: std::result::Result<(CpkModel, u16), ErrorKind>,
    place: int,
) -> std::result::Result<(CpkModel, u16), ErrorKind> {
    match outcome {
        Ok((cpk, align)) => Ok((marked_obfuscated(cpk, place), align)),
        Err(e) => Err(e),
    }
}

/// Whether the header table of the archive is stored plainly.
pub open spec fn has_plain_header(data: Seq<u8>) -> bool {
    read_packet(data, 4, data.len() as int) matches Ok((_, encrypted)) && !encrypted
}

/// The header of an archive reads alike whether its table is stored
/// plainly or obfuscated, but for the mark in the marker of the header.
pub proof fn lemma_header_stage_hidden(cpk: CpkModel, plain: Seq<u8>, hidden: Seq<u8>)
    requires
        hides_header(plain, hidden),
        has_plain_header(plain),
    ensures
        header_stage(cpk, hidden) == obfuscated_header_outcome(
            header_stage(cpk, plain),
            cpk.file_table.len() as int,
        ),
        header_stage(cpk, plain) matches Ok((after, _)) ==> is_header_marker(
            after.file_table,
            cpk.file_table.len() as int,
        ),
{
    let size = framed_size(plain, 4);
    let packet = bytes_at(plain, 16, size as nat);
    let stored = bytes_at(hidden, 16, size as nat);
    assert(hidden.subrange(0, 4) =~= plain.subrange(0, 4));
    assert(hidden.subrange(8, 16) =~= plain.subrange(8, 16));
    assert(framed_size(hidden, 4) == size);
    assert(!is_obfuscated(packet));
    assert(stored =~= deobfuscated(packet));
    lemma_deobfuscation_is_involution(packet);
    assert(is_obfuscated(stored)) by {
        let first = packet[0];
        let key = key_byte(0);
        assert(packet.subrange(0, 4)[0] == utf_signature()[0]);
        assert(key == 0x5F) by {
            let state = keystream(0);
            assert((state & 0xFF) as u8 == 0x5F) by (bit_vector)
                requires
                    state == 0x0000_655Fu32,
            ;
        }
        assert(first ^ key != 0x40) by (bit_vector)
            requires
                first == 0x40u8,
                key == 0x5Fu8,
        ;
        if !is_obfuscated(stored) {
            assert(stored.subrange(0, 4)[0] == utf_signature()[0]);
        }
    }
    assert(read_packet(hidden, 4, hidden.len() as int) == Ok::<(Seq<u8>, bool), ErrorKind>(
        (packet, true),
    ));
    assert(read_packet(plain, 4, plain.len() as int) == Ok::<(Seq<u8>, bool), ErrorKind>(
        (packet, false),
    ));
    match parse_utf(packet) {
        Ok(table) => {
            let place = cpk.file_table.len() as int;
            let content_offset = u64_or(table.value(0, "ContentOffset"@), 0);
            let plain_table = cpk.file_table.push(header_entry(packet.len() as u64, false));
            let hidden_table = cpk.file_table.push(header_entry(packet.len() as u64, true));
            assert(hidden_table =~= with_obfuscated(plain_table, place));
            assert(hidden_table.push(content_entry(content_offset)) =~= with_obfuscated(
                plain_table.push(content_entry(content_offset)),
                place,
            ));
        },
        Err(_) => {},
    }
}

/// An archive reads alike whether its header table is stored plainly or
/// obfuscated, where its sections start behind that table: the same
/// failure, or the same file table, header values, tables and offsets, but
/// for the marker of the header, which is marked as obfuscated.
pub proof fn lemma_obfuscated_header(cpk: CpkModel, plain: Seq<u8>, hidden: Seq<u8>)
    requires
        hides_header(plain, hidden),
        has_plain_header(plain),
        header_stage(cpk, plain) matches Ok((after, _)) ==> {
            &&& behind_header(plain, after.toc_offset)
            &&& behind_header(plain, after.etoc_offset)
            &&& behind_header(plain, after.itoc_offset)
            &&& behind_header(plain, after.gtoc_offset)
        },
    ensures
        read_archive(cpk, hidden) == obfuscated_outcome(
            read_archive(cpk, plain),
            cpk.file_table.len() as int,
        ),
        read_archive(cpk, hidden) matches Ok(after) ==> is_header_marker(
            after.file_table,
            cpk.file_table.len() as int,
        ) && after.file_table[cpk.file_table.len() as int].encrypted,
{
    let place = cpk.file_table.len() as int;
    lemma_header_stage_hidden(cpk, plain, hidden);
    match header_stage(cpk, plain) {
        Ok((with_header, align)) => {
            lemma_toc_stage_hidden(with_header, plain, hidden, place);
            match toc_stage(with_header, plain) {
                Ok(with_toc) => {
                    lemma_etoc_stage_hidden(with_toc, plain, hidden, place);
                    match etoc_stage(with_toc, plain) {
                        Ok(with_etoc) => {
                            lemma_itoc_stage_hidden(with_etoc, plain, hidden, align, place);
                            match itoc_stage(with_etoc, plain, align) {
                                Ok(with_itoc) => {
                                    lemma_gtoc_stage_hidden(with_itoc, plain, hidden, place);
                                },
                                Err(_) => {},
                            }
                        },
                        Err(_) => {},
                    }
                },
                Err(_) => {},
            }
        },
        Err(_) => {},
    }
}

} // verus!
