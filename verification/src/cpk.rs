//! The CPK archive: its header table, its sub-tables and the file table
//! that they give, and the extraction of files.
use crate::byte_order::lemma_pow256_values;
use crate::compression::{decompress_crilayla, decompressed};
use crate::cpk_format::{
    absent_offset, attach_local_dirs, blank_entry, chosen_places, content_entry, CpkModel,
    crilayla_signature, deobfuscated, empty_archive, etoc_signature, etoc_stage, extract_chosen,
    extract_entry, extract_target, ExtractedModel, FileEntryModel, files_before, first_named,
    framed_size, full_path, gtoc_stage, has_match, header_entry, header_failed, header_stage,
    id_order, IdTables, is_chosen, is_compressed, is_file, is_obfuscated, itoc_entries,
    itoc_signature, itoc_stage, keystream, lemma_extract_failures, mark_section, named_values,
    partly_attached, position_of, read_archive, read_packet, scan_blob, scan_rows, section_entry,
    section_failed, size_of, text_of, toc_entries, toc_entry, toc_signature, toc_stage, u16_or,
    u64_or, with_header_values,
};
use crate::endian::{EndianReader, ReaderState, SeekFrom};
use crate::error::{CpkError, ErrorKind, Result};
use crate::text::{decimal_string, four_digit_string, lowercase, to_lowercase};
use crate::utf::{CellData, CellValue, Utf};
use crate::utf_format::{utf_signature, UtfModel};
use std::collections::HashMap;
use vstd::prelude::*;
use vstd::relations::sorted_by;
use vstd::seq_lib::lemma_sorted_unique;
use vstd::slice::{slice_subrange, slice_to_vec};
use vstd::string::*;

verus! {

/// An entry of the file table: a file of the archive, or a marker for one
/// of its sections.
#[derive(Debug, Clone)]
pub struct FileEntry {
    pub dir_name: Option<String>,
    pub file_name: String,
    pub file_size: u64,
    pub file_size_pos: u64,
    pub extract_size: Option<u64>,
    pub extract_size_pos: Option<u64>,
    pub file_offset: u64,
    pub file_offset_pos: u64,
    pub id: Option<u32>,
    pub user_string: Option<String>,
    pub local_dir: Option<String>,
    pub toc_name: String,
    pub file_type: String,
    pub encrypted: bool,
    pub offset: u64,
}

impl DeepView for FileEntry {
    type V = FileEntryModel;

    open spec fn deep_view(&self) -> FileEntryModel {
        FileEntryModel {
            dir_name: self.dir_name.deep_view(),
            file_name: self.file_name@,
            file_size: self.file_size,
            file_size_pos: self.file_size_pos,
            extract_size: self.extract_size,
            extract_size_pos: self.extract_size_pos,
            file_offset: self.file_offset,
            file_offset_pos: self.file_offset_pos,
            id: self.id,
            user_string: self.user_string.deep_view(),
            local_dir: self.local_dir.deep_view(),
            toc_name: self.toc_name@,
            file_type: self.file_type@,
            encrypted: self.encrypted,
            offset: self.offset,
        }
    }
}

/// A copy of a text that may be missing.
fn duplicate_text(text: &Option<String>) -> (copy: Option<String>)
    ensures
        copy.deep_view() == text.deep_view(),
{
    match text {
        Some(s) => Some(s.clone()),
        None => None,
    }
}

/// A copy of bytes.
fn duplicate_bytes(bytes: &Vec<u8>) -> (copy: Vec<u8>)
    ensures
        copy@ == bytes@,
{
    slice_to_vec(bytes.as_slice())
}

/// A copy of bytes that may be missing.
fn duplicate_packet(packet: &Option<Vec<u8>>) -> (copy: Option<Vec<u8>>)
    ensures
        copy.deep_view() == packet.deep_view(),
{
    match packet {
        Some(bytes) => Some(duplicate_bytes(bytes)),
        None => None,
    }
}

impl FileEntry {
    /// An entry that holds nothing.
    pub fn new() -> (entry: Self)
        ensures
            entry.deep_view() == blank_entry(),
    {
        FileEntry {
            dir_name: None,
            file_name: String::new(),
            file_size: 0,
            file_size_pos: 0,
            extract_size: None,
            extract_size_pos: None,
            file_offset: 0,
            file_offset_pos: 0,
            id: None,
            user_string: None,
            local_dir: None,
            toc_name: String::new(),
            file_type: String::new(),
            encrypted: false,
            offset: 0,
        }
    }

    /// A copy of the entry.
    pub fn duplicate(&self) -> (copy: FileEntry)
        ensures
            copy.deep_view() == self.deep_view(),
    {
        FileEntry {
            dir_name: duplicate_text(&self.dir_name),
            file_name: self.file_name.clone(),
            file_size: self.file_size,
            file_size_pos: self.file_size_pos,
            extract_size: self.extract_size,
            extract_size_pos: self.extract_size_pos,
            file_offset: self.file_offset,
            file_offset_pos: self.file_offset_pos,
            id: self.id,
            user_string: duplicate_text(&self.user_string),
            local_dir: duplicate_text(&self.local_dir),
            toc_name: self.toc_name.clone(),
            file_type: self.file_type.clone(),
            encrypted: self.encrypted,
            offset: self.offset,
        }
    }
}

/// The values of the archive's header table by the names of its columns.
/// A value that is inserted under a name that is taken replaces the old one.
#[derive(Debug)]
pub struct CpkData {
    entries: Vec<(String, CellValue)>,
}

impl View for CpkData {
    type V = Map<Seq<char>, CellData>;

    closed spec fn view(&self) -> Map<Seq<char>, CellData> {
        named_values(self.entries.deep_view())
    }
}

/// Whether `index` is the place of the first entry called `name`, or the
/// length of the list where no entry is.
spec fn is_first_place(pairs: Seq<(Seq<char>, CellData)>, name: Seq<char>, index: int) -> bool {
    &&& 0 <= index <= pairs.len()
    &&& forall|i: int| 0 <= i < index ==> pairs[i].0 != name
    &&& index < pairs.len() ==> pairs[index].0 == name
}

/// The map has the value of the first entry of a name under that name, and
/// no value under a name that no entry has.
proof fn lemma_first_place(pairs: Seq<(Seq<char>, CellData)>, name: Seq<char>, index: int)
    requires
        is_first_place(pairs, name, index),
    ensures
        named_values(pairs).contains_key(name) == (index < pairs.len()),
        index < pairs.len() ==> named_values(pairs)[name] == pairs[index].1,
    decreases pairs.len(),
{
    if pairs.len() > 0 && index > 0 {
        let rest = pairs.drop_first();
        lemma_first_place(rest, name, index - 1);
    }
}

/// Putting a value in the place of the first entry of a name, or behind
/// the list where no entry has the name, puts it under the name in the map.
proof fn lemma_put_value(
    pairs: Seq<(Seq<char>, CellData)>,
    name: Seq<char>,
    index: int,
    value: CellData,
)
    requires
        is_first_place(pairs, name, index),
    ensures
        index < pairs.len() ==> named_values(pairs.update(index, (name, value))) == named_values(
            pairs,
        ).insert(name, value),
        index == pairs.len() ==> named_values(pairs.push((name, value))) == named_values(
            pairs,
        ).insert(name, value),
    decreases pairs.len(),
{
    if pairs.len() == 0 {
        assert(pairs.push((name, value)).drop_first() =~= pairs);
    } else if index == 0 {
        assert(pairs.update(0, (name, value)).drop_first() =~= pairs.drop_first());
    } else {
        let rest = pairs.drop_first();
        lemma_put_value(rest, name, index - 1, value);
        if index < pairs.len() {
            let updated = pairs.update(index, (name, value));
            assert(updated.drop_first() =~= rest.update(index - 1, (name, value)));
        } else {
            let grown = pairs.push((name, value));
            assert(grown.drop_first() =~= rest.push((name, value)));
        }
    }
}

impl CpkData {
    /// A map that holds nothing.
    pub fn new() -> (map: Self)
        ensures
            map@ == Map::<Seq<char>, CellData>::empty(),
    {
        let entries: Vec<(String, CellValue)> = Vec::new();
        CpkData { entries }
    }

    /// The place of the first entry called `name`, or the number of
    /// entries where there is none.
    fn place(&self, name: &String) -> (index: usize)
        ensures
            is_first_place(self.entries.deep_view(), name@, index as int),
    {
        let ghost pairs = self.entries.deep_view();
        let mut k: usize = 0;
        while k < self.entries.len()
            invariant
                k <= self.entries@.len(),
                pairs == self.entries.deep_view(),
                forall|i: int| 0 <= i < k ==> pairs[i].0 != name@,
            decreases self.entries@.len() - k,
        {
            if self.entries[k].0 == *name {
                return k;
            }
            k = k + 1;
        }
        k
    }

    /// Puts `value` under `name`.
    pub fn insert(&mut self, name: String, value: CellValue)
        ensures
            final(self)@ == old(self)@.insert(name@, value.deep_view()),
    {
        let ghost before = self.entries.deep_view();
        let ghost pair = (name@, value.deep_view());
        let index = self.place(&name);
        proof {
            lemma_put_value(before, name@, index as int, value.deep_view());
        }
        if index < self.entries.len() {
            self.entries[index] = (name, value);
            assert(self.entries.deep_view() =~= before.update(index as int, pair));
        } else {
            self.entries.push((name, value));
            assert(self.entries.deep_view() =~= before.push(pair));
        }
    }

    /// The value under `name`, if there is one.
    pub fn get(&self, name: &str) -> (r: Option<&CellValue>)
        ensures
            match r {
                Some(value) => {
                    &&& self@.contains_key(name@)
                    &&& self@[name@] == value.deep_view()
                },
                None => !self@.contains_key(name@),
            },
    {
        let wanted = String::from_str(name);
        let index = self.place(&wanted);
        proof {
            lemma_first_place(self.entries.deep_view(), name@, index as int);
        }
        if index < self.entries.len() {
            Some(&self.entries[index].1)
        } else {
            None
        }
    }

    /// A copy of the map.
    pub fn duplicate(&self) -> (copy: CpkData)
        ensures
            copy@ == self@,
    {
        let mut entries: Vec<(String, CellValue)> = Vec::new();
        let mut k: usize = 0;
        while k < self.entries.len()
            invariant
                k <= self.entries@.len(),
                entries.deep_view() == self.entries.deep_view().take(k as int),
            decreases self.entries@.len() - k,
        {
            let pair = (self.entries[k].0.clone(), self.entries[k].1.duplicate());
            entries.push(pair);
            assert(self.entries.deep_view().take(k + 1) =~= self.entries.deep_view().take(
                k as int,
            ).push(self.entries[k as int].deep_view()));
            k = k + 1;
        }
        assert(self.entries.deep_view().take(k as int) =~= self.entries.deep_view());
        CpkData { entries }
    }
}

/// Whether `packet` starts with `@UTF`.
fn starts_with_utf(packet: &Vec<u8>) -> (r: bool)
    ensures
        r == !is_obfuscated(packet@),
{
    if packet.len() >= 4 && packet[0] == 0x40 && packet[1] == 0x55 && packet[2] == 0x54
        && packet[3] == 0x46 {
        assert(packet@.subrange(0, 4) =~= utf_signature());
        true
    } else {
        false
    }
}

/// A CPK archive: the file table, the values of the header table, the
/// tables as they were read, and where the sections of the archive start.
#[derive(Debug)]
pub struct Cpk {
    pub file_table: Vec<FileEntry>,
    pub cpk_data: CpkData,
    pub cpk_packet: Vec<u8>,
    pub toc_packet: Option<Vec<u8>>,
    pub itoc_packet: Option<Vec<u8>>,
    pub etoc_packet: Option<Vec<u8>>,
    pub gtoc_packet: Option<Vec<u8>>,
    pub toc_offset: u64,
    pub etoc_offset: u64,
    pub itoc_offset: u64,
    pub gtoc_offset: u64,
    pub content_offset: u64,
}

impl DeepView for Cpk {
    type V = CpkModel;

    open spec fn deep_view(&self) -> CpkModel {
        CpkModel {
            file_table: self.file_table.deep_view(),
            cpk_data: self.cpk_data@,
            cpk_packet: self.cpk_packet@,
            toc_packet: self.toc_packet.deep_view(),
            itoc_packet: self.itoc_packet.deep_view(),
            etoc_packet: self.etoc_packet.deep_view(),
            gtoc_packet: self.gtoc_packet.deep_view(),
            toc_offset: self.toc_offset,
            etoc_offset: self.etoc_offset,
            itoc_offset: self.itoc_offset,
            gtoc_offset: self.gtoc_offset,
            content_offset: self.content_offset,
        }
    }
}

impl Cpk {
    /// An archive that holds nothing.
    pub fn new() -> (cpk: Self)
        ensures
            cpk.deep_view() == empty_archive(),
    {
        let cpk = Cpk {
            file_table: Vec::new(),
            cpk_data: CpkData::new(),
            cpk_packet: Vec::new(),
            toc_packet: None,
            itoc_packet: None,
            etoc_packet: None,
            gtoc_packet: None,
            toc_offset: 0xFFFF_FFFF_FFFF_FFFF,
            etoc_offset: 0xFFFF_FFFF_FFFF_FFFF,
            itoc_offset: 0xFFFF_FFFF_FFFF_FFFF,
            gtoc_offset: 0xFFFF_FFFF_FFFF_FFFF,
            content_offset: 0,
        };
        assert(cpk.file_table.deep_view() =~= Seq::empty());
        cpk
    }

    /// Applies the keystream to a table: this deobfuscates a table that is
    /// stored obfuscated, and obfuscates one that is not.
    pub fn decrypt_utf(&self, input: &[u8]) -> (result: Vec<u8>)
        ensures
            result@ == deobfuscated(input@),
    {
        let mut result: Vec<u8> = Vec::new();
        let mut m: u32 = 0x0000_655F;
        let t: u32 = 0x0000_4115;
        let mut i: usize = 0;
        while i < input.len()
            invariant
                i <= input@.len(),
                t == 0x0000_4115,
                m == keystream(i as nat),
                result@ == deobfuscated(input@).take(i as int),
            decreases input@.len() - i,
        {
            let byte = input[i] ^ ((m & 0xFF) as u8);
            result.push(byte);
            m = m.wrapping_mul(t);
            i = i + 1;
        }
        result
    }

    /// Reads the frame at the cursor and the table in it: four bytes that
    /// are skipped, the size of the table in little-endian order, and the
    /// table, which is deobfuscated where it does not start with `@UTF`.
    /// Returns the table and whether it was stored obfuscated, and leaves
    /// the reader in big-endian order behind the table.
    pub fn read_utf_data(&self, reader: &mut EndianReader, file_size: u64) -> (r: Result<
        (Vec<u8>, bool),
    >)
        ensures
            final(reader)@.data == old(reader)@.data,
            match r {
                Ok((packet, encrypted)) => {
                    &&& read_packet(
                        old(reader)@.data,
                        old(reader)@.pos,
                        file_size as int,
                    ) matches Ok(found)
                    &&& found == (packet@, encrypted)
                    &&& final(reader)@ == (
                        ReaderState {
                            data: old(reader)@.data,
                            pos: old(reader)@.pos + 12 + framed_size(
                                old(reader)@.data,
                                old(reader)@.pos,
                            ),
                            little_endian: false,
                        }
                    )
                },
                Err(e) => {
                    &&& read_packet(
                        old(reader)@.data,
                        old(reader)@.pos,
                        file_size as int,
                    ) matches Err(kind)
                    &&& e.kind() == kind
                },
            },
    {
        let ghost data = reader@.data;
        reader.set_endian(true);
        let _unk1 = reader.read_i32()?;
        let utf_size = reader.read_i64()?;
        let current_pos = reader.position()?;
        if utf_size < 0 {
            return Err(CpkError::InvalidFormat(String::from_str("Negative UTF size")));
        }
        let utf_size = utf_size as u64;
        if file_size < current_pos || utf_size > file_size - current_pos {
            let mut text = String::from_str("UTF size (");
            text.append(decimal_string(utf_size).as_str());
            text.append(") exceeds remaining file size");
            return Err(CpkError::InvalidFormat(text));
        }
        if utf_size > 100_000_000 {
            let mut text = String::from_str("UTF size (");
            text.append(decimal_string(utf_size).as_str());
            text.append(") seems unreasonably large");
            return Err(CpkError::InvalidFormat(text));
        }
        let mut utf_packet = reader.read_bytes(utf_size as usize)?;
        reader.set_endian(false);
        let is_encrypted = !starts_with_utf(&utf_packet);
        if is_encrypted {
            utf_packet = self.decrypt_utf(utf_packet.as_slice());
        }
        if !starts_with_utf(&utf_packet) {
            return Err(CpkError::InvalidUtfSignature);
        }
        Ok((utf_packet, is_encrypted))
    }
}

/// The number in the cell if it is one of 64 bits, else `default`.
fn u64_cell(utf: &Utf, row: usize, name: &str, default: u64) -> (r: u64)
    ensures
        r == u64_or(utf.deep_view().value(row as int, name@), default),
{
    match utf.get_column_data(row, name) {
        Some(CellValue::UInt64(v)) => *v,
        _ => default,
    }
}

/// The number in the cell if it is one of 16 bits, else `default`.
fn u16_cell(utf: &Utf, row: usize, name: &str, default: u16) -> (r: u16)
    ensures
        r == u16_or(utf.deep_view().value(row as int, name@), default),
{
    match utf.get_column_data(row, name) {
        Some(CellValue::UInt16(v)) => *v,
        _ => default,
    }
}

/// The text in the cell if it holds a string.
fn text_cell(utf: &Utf, row: usize, name: &str) -> (r: Option<String>)
    ensures
        r.deep_view() == text_of(utf.deep_view().value(row as int, name@)),
{
    match utf.get_column_data(row, name) {
        Some(CellValue::String(s)) => Some(s.clone()),
        _ => None,
    }
}

/// A marker entry of the archive itself: a name, an offset and a type.
fn marker(name: &str, offset: u64, file_type: &str) -> (entry: FileEntry)
    ensures
        entry.deep_view() == (FileEntryModel {
            file_name: name@,
            file_offset: offset,
            file_type: file_type@,
            toc_name: "CPK"@,
            ..blank_entry()
        }),
{
    let mut entry = FileEntry::new();
    entry.file_name = String::from_str(name);
    entry.file_offset = offset;
    entry.file_type = String::from_str(file_type);
    entry.toc_name = String::from_str("CPK");
    entry
}

/// Reads four bytes at the cursor and says whether they are the given ones.
fn read_signature(reader: &mut EndianReader, a: u8, b: u8, c: u8, d: u8) -> (r: Result<bool>)
    ensures
        final(reader)@.data == old(reader)@.data,
        final(reader)@.little_endian == old(reader)@.little_endian,
        match r {
            Ok(matched) => {
                &&& old(reader)@.can_read(4)
                &&& matched == (
                    old(reader)@.data.subrange(
                        old(reader)@.pos,
                        old(reader)@.pos + 4,
                    ) == seq![a, b, c, d]
                )
                &&& final(reader)@.pos == old(reader)@.pos + 4
            },
            Err(e) => {
                &&& !old(reader)@.can_read(4)
                &&& e.kind() == ErrorKind::Io
            },
        },
{
    proof {
        reader.lemma_cursor_range();
    }
    let ghost data = reader@.data;
    let ghost at = reader@.pos;
    let signature = reader.read_bytes(4)?;
    let matched = signature[0] == a && signature[1] == b && signature[2] == c && signature[3]
        == d;
    proof {
        let found = data.subrange(at, at + 4);
        let wanted = seq![a, b, c, d];
        if matched {
            assert(found =~= wanted);
        }
    }
    Ok(matched)
}

/// Records the size of a section's table and whether it was obfuscated in
/// the first entry called `name`.
fn mark_entry(table: &mut Vec<FileEntry>, name: &str, encrypted: bool, size: u64)
    ensures
        final(table).deep_view() == mark_section(old(table).deep_view(), name@, encrypted, size),
{
    let wanted = String::from_str(name);
    let ghost before = table.deep_view();
    let mut k: usize = 0;
    while k < table.len()
        invariant
            k <= table@.len(),
            wanted@ == name@,
            *table == *old(table),
            before == table.deep_view(),
            first_named(before, name@, 0) == first_named(before, name@, k as int),
        decreases table@.len() - k,
    {
        if table[k].file_name == wanted {
            let mut entry = table[k].duplicate();
            entry.encrypted = encrypted;
            entry.file_size = size;
            table[k] = entry;
            return ;
        }
        k = k + 1;
    }
}

impl Cpk {
    /// Reads the header of the archive: its signature and its header
    /// table. Returns the alignment that the header declares.
    fn read_header(&mut self, reader: &mut EndianReader, file_size: u64) -> (r: Result<u16>)
        requires
            old(reader)@ == (ReaderState { data: old(reader)@.data, pos: 0, little_endian: false }),
            file_size == old(reader)@.data.len(),
        ensures
            final(reader)@.data == old(reader)@.data,
            match r {
                Ok(align) => {
                    &&& header_stage(old(self).deep_view(), old(reader)@.data) matches Ok(found)
                    &&& found == (final(self).deep_view(), align)
                    &&& !final(reader)@.little_endian
                },
                Err(e) => {
                    &&& header_stage(old(self).deep_view(), old(reader)@.data) matches Err(kind)
                    &&& e.kind() == kind
                    &&& final(self).deep_view() == header_failed(
                        old(self).deep_view(),
                        old(reader)@.data,
                    )
                },
            },
    {
        let ghost data = reader@.data;
        let ghost before = self.deep_view();
        if !read_signature(reader, 0x43, 0x50, 0x4B, 0x20)? {
            return Err(CpkError::InvalidSignature);
        }
        let current_pos = reader.position()?;
        let (utf_data, is_encrypted) = self.read_utf_data(reader, file_size)?;

        let mut cpk_entry = marker("CPK_HDR", current_pos + 16, "CPK");
        cpk_entry.file_size = utf_data.len() as u64;
        cpk_entry.encrypted = is_encrypted;
        self.file_table.push(cpk_entry);
        assert(self.file_table.deep_view() =~= before.file_table.push(
            header_entry(utf_data@.len() as u64, is_encrypted),
        ));

        let mut utf = Utf::new();
        utf.read_utf(utf_data.as_slice())?;
        let ghost table = utf.deep_view();

        let mut i: usize = 0;
        while i < utf.columns.len()
            invariant
                i <= utf.columns@.len(),
                table == utf.deep_view(),
                self.cpk_data@ == with_header_values(before.cpk_data, table, i as nat),
                self.file_table.deep_view() == before.file_table.push(
                    header_entry(utf_data@.len() as u64, is_encrypted),
                ),
                self.toc_packet == old(self).toc_packet,
                self.etoc_packet == old(self).etoc_packet,
                self.itoc_packet == old(self).itoc_packet,
                self.gtoc_packet == old(self).gtoc_packet,
            decreases utf.columns@.len() - i,
        {
            if utf.rows.len() > 0 && i < utf.rows[0].len() {
                self.cpk_data.insert(utf.columns[i].name.clone(), utf.rows[0][i].value.duplicate());
            }
            i = i + 1;
        }

        self.toc_offset = u64_cell(&utf, 0, "TocOffset", 0xFFFF_FFFF_FFFF_FFFF);
        self.etoc_offset = u64_cell(&utf, 0, "EtocOffset", 0xFFFF_FFFF_FFFF_FFFF);
        self.itoc_offset = u64_cell(&utf, 0, "ItocOffset", 0xFFFF_FFFF_FFFF_FFFF);
        self.gtoc_offset = u64_cell(&utf, 0, "GtocOffset", 0xFFFF_FFFF_FFFF_FFFF);
        self.content_offset = u64_cell(&utf, 0, "ContentOffset", 0);

        if self.content_offset != 0 {
            let ghost with_header = self.file_table.deep_view();
            let content = marker("CONTENT_OFFSET", self.content_offset, "CONTENT");
            self.file_table.push(content);
            assert(self.file_table.deep_view() =~= with_header.push(
                content_entry(self.content_offset),
            ));
        }
        let align = u16_cell(&utf, 0, "Align", 0x800);
        self.cpk_packet = utf_data;
        Ok(align)
    }
}

/// Where the cell was read, if there is such a cell.
fn cell_position(utf: &Utf, row: usize, name: &str) -> (r: Option<u64>)
    ensures
        r == position_of(utf.deep_view(), row as int, name@),
{
    utf.get_column_position(row, name)
}

/// The entry for the row `row` of the file list.
fn toc_row_entry(utf: &Utf, row: usize, base: u64) -> (r: Result<FileEntry>)
    ensures
        match r {
            Ok(entry) => {
                &&& toc_entry(utf.deep_view(), row as int, base) matches Ok(found)
                &&& found == entry.deep_view()
            },
            Err(e) => {
                &&& toc_entry(utf.deep_view(), row as int, base) matches Err(kind)
                &&& e.kind() == kind
            },
        },
{
    let mut entry = FileEntry::new();
    entry.toc_name = String::from_str("TOC");
    entry.file_type = String::from_str("FILE");
    entry.offset = base;
    entry.dir_name = text_cell(utf, row, "DirName");
    entry.file_name = match text_cell(utf, row, "FileName") {
        Some(name) => name,
        None => String::new(),
    };
    entry.file_size = u64_cell(utf, row, "FileSize", 0);
    entry.file_size_pos = match cell_position(utf, row, "FileSize") {
        Some(position) => position,
        None => 0,
    };
    entry.extract_size = match utf.get_column_data(row, "ExtractSize") {
        Some(CellValue::UInt64(v)) => Some(*v),
        _ => None,
    };
    entry.extract_size_pos = cell_position(utf, row, "ExtractSize");
    if utf.get_column_data(row, "FileOffset").is_some() {
        let stored = u64_cell(utf, row, "FileOffset", 0);
        entry.file_offset = match stored.checked_add(base) {
            Some(offset) => offset,
            None => {
                return Err(
                    CpkError::InvalidFormat(String::from_str("File offset exceeds 64 bits")),
                );
            },
        };
    }
    entry.file_offset_pos = match cell_position(utf, row, "FileOffset") {
        Some(position) => position,
        None => 0,
    };
    entry.id = match utf.get_column_data(row, "ID") {
        Some(CellValue::UInt32(v)) => Some(*v),
        _ => None,
    };
    entry.user_string = text_cell(utf, row, "UserString");
    Ok(entry)
}

/// Appends `more` to `table`.
fn append_entries(table: &mut Vec<FileEntry>, more: Vec<FileEntry>)
    ensures
        final(table).deep_view() == old(table).deep_view() + more.deep_view(),
{
    let mut more = more;
    table.append(&mut more);
}

impl Cpk {
    /// Reads the file list at `toc_offset`: appends its marker, checks its
    /// signature, records its table in the marker, and appends an entry
    /// for each of its rows.
    #[verifier::loop_isolation(false)]
    fn read_toc(&mut self, reader: &mut EndianReader, file_size: u64) -> (r: Result<()>)
        requires
            !old(reader)@.little_endian,
            file_size == old(reader)@.data.len(),
            old(self).toc_offset != absent_offset(),
        ensures
            final(reader)@.data == old(reader)@.data,
            match r {
                Ok(_) => {
                    &&& toc_stage(old(self).deep_view(), old(reader)@.data) matches Ok(found)
                    &&& found == final(self).deep_view()
                    &&& !final(reader)@.little_endian
                },
                Err(e) => {
                    &&& toc_stage(old(self).deep_view(), old(reader)@.data) matches Err(kind)
                    &&& e.kind() == kind
                    &&& final(self).deep_view() == section_failed(
                        old(self).deep_view(),
                        old(reader)@.data,
                        "TOC_HDR"@,
                        old(self).toc_offset,
                        toc_signature(),
                    )
                },
            },
    {
        let ghost data = reader@.data;
        let ghost before = self.deep_view();
        let section = marker("TOC_HDR", self.toc_offset, "HDR");
        self.file_table.push(section);
        assert(self.file_table.deep_view() =~= before.file_table.push(
            section_entry("TOC_HDR"@, self.toc_offset),
        ));
        let f_toc_offset: u64 = if self.toc_offset > 0x800 {
            0x800
        } else {
            self.toc_offset
        };
        let add_offset: u64 = if self.content_offset == 0xFFFF_FFFF_FFFF_FFFF {
            f_toc_offset
        } else if self.toc_offset == 0xFFFF_FFFF_FFFF_FFFF {
            self.content_offset
        } else if self.content_offset < f_toc_offset {
            self.content_offset
        } else {
            f_toc_offset
        };

        let _ = reader.seek(SeekFrom::Start(self.toc_offset));
        if !read_signature(reader, 0x54, 0x4F, 0x43, 0x20)? {
            return Err(CpkError::InvalidFormat(String::from_str("Invalid TOC signature")));
        }
        let (utf_data, is_encrypted) = self.read_utf_data(reader, file_size)?;
        mark_entry(&mut self.file_table, "TOC_HDR", is_encrypted, utf_data.len() as u64);

        let mut utf = Utf::new();
        utf.read_utf(utf_data.as_slice())?;
        let ghost table = utf.deep_view();

        let mut entries: Vec<FileEntry> = Vec::new();
        assert(entries.deep_view() =~= Seq::empty());
        let mut row_idx: u32 = 0;
        while row_idx < utf.num_rows
            invariant
                row_idx <= utf.num_rows,
                table == utf.deep_view(),
                toc_entries(table, add_offset, row_idx as nat) == Ok::<
                    Seq<FileEntryModel>,
                    ErrorKind,
                >(entries.deep_view()),
            decreases utf.num_rows - row_idx,
        {
            match toc_row_entry(&utf, row_idx as usize, add_offset) {
                Ok(entry) => {
                    let ghost done = entries.deep_view();
                    entries.push(entry);
                    assert(entries.deep_view() =~= done.push(entry.deep_view()));
                    row_idx = row_idx + 1;
                },
                Err(e) => {
                    proof {
                        lemma_toc_failure_stays(
                            table,
                            add_offset,
                            (row_idx + 1) as nat,
                            utf.num_rows as nat,
                        );
                    }
                    return Err(e);
                },
            }
        }
        append_entries(&mut self.file_table, entries);
        assert(utf_data.deep_view() =~= utf_data@);
        self.toc_packet = Some(utf_data);
        Ok(())
    }
}

/// Once a row of the file list gives no entry, no longer list of rows does.
proof fn lemma_toc_failure_stays(table: UtfModel, base: u64, count: nat, more: nat)
    requires
        count <= more,
        toc_entries(table, base, count) is Err,
    ensures
        toc_entries(table, base, more) == toc_entries(table, base, count),
    decreases more,
{
    if count < more {
        lemma_toc_failure_stays(table, base, count, (more - 1) as nat);
    }
}

/// Replaces the local directory of the entry `index`.
fn set_local_dir(table: &mut Vec<FileEntry>, index: usize, dir: Option<String>)
    requires
        index < old(table)@.len(),
    ensures
        final(table).deep_view() == old(table).deep_view().update(
            index as int,
            FileEntryModel { local_dir: dir.deep_view(), ..old(table).deep_view()[index as int] },
        ),
{
    let mut entry = table[index].duplicate();
    entry.local_dir = dir;
    table[index] = entry;
}

impl Cpk {
    /// Reads the extended file list at `etoc_offset`: appends its marker,
    /// checks its signature, records its table in the marker, and attaches
    /// the local directory of each of its rows to the file of that rank
    /// among the files of the file list.
    #[verifier::loop_isolation(false)]
    fn read_etoc(&mut self, reader: &mut EndianReader, file_size: u64) -> (r: Result<()>)
        requires
            !old(reader)@.little_endian,
            file_size == old(reader)@.data.len(),
            old(self).etoc_offset != absent_offset(),
        ensures
            final(reader)@.data == old(reader)@.data,
            match r {
                Ok(_) => {
                    &&& etoc_stage(old(self).deep_view(), old(reader)@.data) matches Ok(found)
                    &&& found == final(self).deep_view()
                    &&& !final(reader)@.little_endian
                },
                Err(e) => {
                    &&& etoc_stage(old(self).deep_view(), old(reader)@.data) matches Err(kind)
                    &&& e.kind() == kind
                    &&& final(self).deep_view() == section_failed(
                        old(self).deep_view(),
                        old(reader)@.data,
                        "ETOC_HDR"@,
                        old(self).etoc_offset,
                        etoc_signature(),
                    )
                },
            },
    {
        let ghost data = reader@.data;
        let ghost before = self.deep_view();
        let section = marker("ETOC_HDR", self.etoc_offset, "HDR");
        self.file_table.push(section);
        assert(self.file_table.deep_view() =~= before.file_table.push(
            section_entry("ETOC_HDR"@, self.etoc_offset),
        ));

        let _ = reader.seek(SeekFrom::Start(self.etoc_offset));
        if !read_signature(reader, 0x45, 0x54, 0x4F, 0x43)? {
            return Err(CpkError::InvalidFormat(String::from_str("Invalid ETOC signature")));
        }
        let (utf_data, is_encrypted) = self.read_utf_data(reader, file_size)?;
        mark_entry(&mut self.file_table, "ETOC_HDR", is_encrypted, utf_data.len() as u64);

        let mut utf = Utf::new();
        utf.read_utf(utf_data.as_slice())?;
        let ghost table = utf.deep_view();
        let ghost marked = self.file_table.deep_view();

        let mut rank: usize = 0;
        let mut idx: usize = 0;
        while idx < self.file_table.len()
            invariant
                idx <= self.file_table@.len(),
                self.file_table@.len() == marked.len(),
                rank == files_before(marked, idx as nat),
                rank <= idx,
                self.file_table.deep_view() == partly_attached(marked, table, idx as int),
                self.cpk_data == old(self).cpk_data,
                self.cpk_packet == old(self).cpk_packet,
                self.toc_packet == old(self).toc_packet,
                self.itoc_packet == old(self).itoc_packet,
                self.etoc_packet == old(self).etoc_packet,
                self.gtoc_packet == old(self).gtoc_packet,
                self.toc_offset == old(self).toc_offset,
                self.etoc_offset == old(self).etoc_offset,
                self.itoc_offset == old(self).itoc_offset,
                self.gtoc_offset == old(self).gtoc_offset,
                self.content_offset == old(self).content_offset,
            decreases self.file_table@.len() - idx,
        {
            if self.file_table[idx].is_file() && same_text(
                self.file_table[idx].toc_name.as_str(),
                "TOC",
            ) {
                match utf.get_column_data(rank, "LocalDir") {
                    Some(value) => {
                        let dir = match value {
                            CellValue::String(s) => Some(s.clone()),
                            _ => None,
                        };
                        set_local_dir(&mut self.file_table, idx, dir);
                    },
                    None => {},
                }
                rank = rank + 1;
            }
            idx = idx + 1;
            assert(self.file_table.deep_view() =~= partly_attached(marked, table, idx as int));
        }
        assert(self.file_table.deep_view() =~= attach_local_dirs(marked, table));
        assert(utf_data.deep_view() =~= utf_data@);
        self.etoc_packet = Some(utf_data);
        Ok(())
    }
}

/// `[u32]::sort`: puts the ids in ascending order and keeps each id as
/// often as it occurs.
#[verifier::external_body]
fn sort_ids(ids: &mut Vec<u32>)
    ensures
        final(ids)@.to_multiset() == old(ids)@.to_multiset(),
        sorted_by(final(ids)@, id_order()),
{
    ids.sort();
}

/// Whether `id` is among `ids`.
fn contains_id(ids: &Vec<u32>, id: u32) -> (r: bool)
    ensures
        r == ids@.contains(id),
{
    let mut k: usize = 0;
    while k < ids.len()
        invariant
            k <= ids@.len(),
            forall|i: int| 0 <= i < k ==> ids@[i] != id,
        decreases ids@.len() - k,
    {
        if ids[k] == id {
            return true;
        }
        k = k + 1;
    }
    false
}

/// What the three collections of a scan hold.
spec fn found_in(
    sizes: HashMap<u32, u64>,
    extract_sizes: HashMap<u32, u64>,
    ids: Vec<u32>,
) -> IdTables {
    IdTables { sizes: sizes@, extract_sizes: extract_sizes@, ids: ids@ }
}

/// The size in a cell of the table of large or of small files.
fn cell_size(value: &CellValue, large: bool) -> (r: u64)
    ensures
        r == size_of(value.deep_view(), large),
{
    if large {
        match value {
            CellValue::UInt32(v) => *v as u64,
            _ => 0,
        }
    } else {
        match value {
            CellValue::UInt16(v) => *v as u64,
            _ => 0,
        }
    }
}

/// Adds the rows of a table of files by id to the three collections.
fn scan_id_table(
    table: &Utf,
    sizes: &mut HashMap<u32, u64>,
    extract_sizes: &mut HashMap<u32, u64>,
    ids: &mut Vec<u32>,
    large: bool,
)
    ensures
        found_in(*final(sizes), *final(extract_sizes), *final(ids)) == scan_rows(
            table.deep_view(),
            found_in(*old(sizes), *old(extract_sizes), *old(ids)),
            large,
            table.num_rows as nat,
        ),
{
    broadcast use vstd::std_specs::hash::group_hash_axioms;

    let ghost model = table.deep_view();
    let ghost start = found_in(*sizes, *extract_sizes, *ids);
    let mut row_idx: u32 = 0;
    while row_idx < table.num_rows
        invariant
            row_idx <= table.num_rows,
            model == table.deep_view(),
            start == found_in(*old(sizes), *old(extract_sizes), *old(ids)),
            found_in(*sizes, *extract_sizes, *ids) == scan_rows(
                model,
                start,
                large,
                row_idx as nat,
            ),
        decreases table.num_rows - row_idx,
    {
        let row = row_idx as usize;
        match table.get_column_data(row, "ID") {
            Some(id) => {
                let id_val: u32 = match id {
                    CellValue::UInt16(v) => *v as u32,
                    _ => 0,
                };
                match table.get_column_data(row, "FileSize") {
                    Some(file_size) => {
                        sizes.insert(id_val, cell_size(file_size, large));
                        if !contains_id(ids, id_val) {
                            ids.push(id_val);
                        }
                    },
                    None => {},
                }
                match table.get_column_data(row, "ExtractSize") {
                    Some(extract_size) => {
                        extract_sizes.insert(id_val, cell_size(extract_size, large));
                    },
                    None => {},
                }
            },
            None => {},
        }
        row_idx = row_idx + 1;
    }
}

/// Adds the rows of the table that the blob `name` of the list holds,
/// where the list has such a blob.
fn scan_id_blob(
    list: &Utf,
    name: &str,
    sizes: &mut HashMap<u32, u64>,
    extract_sizes: &mut HashMap<u32, u64>,
    ids: &mut Vec<u32>,
    large: bool,
) -> (r: Result<()>)
    ensures
        match r {
            Ok(_) => {
                &&& scan_blob(
                    list.deep_view(),
                    name@,
                    found_in(*old(sizes), *old(extract_sizes), *old(ids)),
                    large,
                ) matches Ok(found)
                &&& found == found_in(*final(sizes), *final(extract_sizes), *final(ids))
            },
            Err(e) => {
                &&& scan_blob(
                    list.deep_view(),
                    name@,
                    found_in(*old(sizes), *old(extract_sizes), *old(ids)),
                    large,
                ) matches Err(kind)
                &&& e.kind() == kind
            },
        },
{
    match list.get_column_data(0, name) {
        Some(CellValue::Data(bytes)) => {
            let mut data_utf = Utf::new();
            data_utf.read_utf(bytes.as_slice())?;
            scan_id_table(&data_utf, sizes, extract_sizes, ids, large);
            Ok(())
        },
        _ => Ok(()),
    }
}

/// Once an id gives no entry, no longer list of ids does.
proof fn lemma_itoc_failure_stays(
    found: IdTables,
    ids: Seq<u32>,
    align: u16,
    base: u64,
    count: nat,
    more: nat,
)
    requires
        count <= more,
        itoc_entries(found, ids, align, base, count) is Err,
    ensures
        itoc_entries(found, ids, align, base, more) == itoc_entries(
            found,
            ids,
            align,
            base,
            count,
        ),
    decreases more,
{
    if count < more {
        lemma_itoc_failure_stays(found, ids, align, base, count, (more - 1) as nat);
    }
}

/// What the two maps of a scan hold, without the ids.
spec fn sizes_in(sizes: HashMap<u32, u64>, extract_sizes: HashMap<u32, u64>) -> IdTables {
    IdTables { sizes: sizes@, extract_sizes: extract_sizes@, ids: Seq::empty() }
}

/// The entries for `ids` in their order: the first file starts at `base`,
/// each other one where the file before it and its padding end.
fn id_entries(
    size_table: &HashMap<u32, u64>,
    extract_size_table: &HashMap<u32, u64>,
    ids: &Vec<u32>,
    align: u16,
    base: u64,
) -> (r: Result<Vec<FileEntry>>)
    ensures
        match r {
            Ok(entries) => {
                &&& itoc_entries(
                    sizes_in(*size_table, *extract_size_table),
                    ids@,
                    align,
                    base,
                    ids@.len(),
                ) matches Ok((found, _))
                &&& found == entries.deep_view()
            },
            Err(e) => {
                &&& itoc_entries(
                    sizes_in(*size_table, *extract_size_table),
                    ids@,
                    align,
                    base,
                    ids@.len(),
                ) matches Err(kind)
                &&& e.kind() == kind
            },
        },
{
    broadcast use vstd::std_specs::hash::group_hash_axioms;

    let ghost found = sizes_in(*size_table, *extract_size_table);
    let mut entries: Vec<FileEntry> = Vec::new();
    assert(entries.deep_view() =~= Seq::empty());
    let mut base_offset: u64 = base;
    let mut k: usize = 0;
    while k < ids.len()
        invariant
            k <= ids@.len(),
            found == sizes_in(*size_table, *extract_size_table),
            itoc_entries(found, ids@, align, base, k as nat) == Ok::<
                (Seq<FileEntryModel>, u64),
                ErrorKind,
            >((entries.deep_view(), base_offset)),
        decreases ids@.len() - k,
    {
        let id = ids[k];
        let mut entry = FileEntry::new();
        entry.toc_name = String::from_str("ITOC");
        entry.file_type = String::from_str("FILE");
        entry.file_name = four_digit_string(id);
        entry.id = Some(id);
        entry.file_offset = base_offset;
        match size_table.get(&id) {
            Some(file_size) => {
                entry.file_size = *file_size;
            },
            None => {},
        }
        match extract_size_table.get(&id) {
            Some(extract_size) => {
                entry.extract_size = Some(*extract_size);
            },
            None => {},
        }

        let file_size = entry.file_size;
        let next: Option<u64> = if align == 0 {
            None
        } else {
            let rest = file_size % (align as u64);
            let padded: Option<u64> = if rest > 0 {
                file_size.checked_add(align as u64 - rest)
            } else {
                Some(file_size)
            };
            match padded {
                Some(size) => base_offset.checked_add(size),
                None => None,
            }
        };
        match next {
            Some(offset) => {
                let ghost done = entries.deep_view();
                entries.push(entry);
                assert(entries.deep_view() =~= done.push(entry.deep_view()));
                base_offset = offset;
                k = k + 1;
            },
            None => {
                proof {
                    lemma_itoc_failure_stays(
                        found,
                        ids@,
                        align,
                        base,
                        (k + 1) as nat,
                        ids@.len(),
                    );
                }
                return Err(
                    CpkError::InvalidFormat(
                        String::from_str("File offsets by id cannot be laid out"),
                    ),
                );
            },
        }
    }
    Ok(entries)
}

/// The entries of a list of files by id do not depend on the order in which
/// the ids were found.
proof fn lemma_itoc_entries_ignore_found_ids(
    found: IdTables,
    other: IdTables,
    ids: Seq<u32>,
    align: u16,
    base: u64,
    count: nat,
)
    requires
        found.sizes == other.sizes,
        found.extract_sizes == other.extract_sizes,
    ensures
        itoc_entries(found, ids, align, base, count) == itoc_entries(
            other,
            ids,
            align,
            base,
            count,
        ),
    decreases count,
{
    if count > 0 {
        lemma_itoc_entries_ignore_found_ids(found, other, ids, align, base, (count - 1) as nat);
    }
}

impl Cpk {
    /// Reads the list of files by id at `itoc_offset`: appends its marker,
    /// checks its signature, records its table in the marker, and appends
    /// an entry for each id of its two tables, in the order of the ids.
    /// Each file starts where the file before it and its padding end.
    fn read_itoc(&mut self, reader: &mut EndianReader, align: u16, file_size: u64) -> (r: Result<
        (),
    >)
        requires
            !old(reader)@.little_endian,
            file_size == old(reader)@.data.len(),
            old(self).itoc_offset != absent_offset(),
        ensures
            final(reader)@.data == old(reader)@.data,
            match r {
                Ok(_) => {
                    &&& itoc_stage(
                        old(self).deep_view(),
                        old(reader)@.data,
                        align,
                    ) matches Ok(found)
                    &&& found == final(self).deep_view()
                    &&& !final(reader)@.little_endian
                },
                Err(e) => {
                    &&& itoc_stage(
                        old(self).deep_view(),
                        old(reader)@.data,
                        align,
                    ) matches Err(kind)
                    &&& e.kind() == kind
                    &&& final(self).deep_view() == section_failed(
                        old(self).deep_view(),
                        old(reader)@.data,
                        "ITOC_HDR"@,
                        old(self).itoc_offset,
                        itoc_signature(),
                    )
                },
            },
    {
        broadcast use vstd::std_specs::hash::group_hash_axioms;

        let ghost data = reader@.data;
        let ghost before = self.deep_view();
        let section = marker("ITOC_HDR", self.itoc_offset, "HDR");
        self.file_table.push(section);
        assert(self.file_table.deep_view() =~= before.file_table.push(
            section_entry("ITOC_HDR"@, self.itoc_offset),
        ));

        let _ = reader.seek(SeekFrom::Start(self.itoc_offset));
        if !read_signature(reader, 0x49, 0x54, 0x4F, 0x43)? {
            return Err(CpkError::InvalidFormat(String::from_str("Invalid ITOC signature")));
        }
        let (utf_data, is_encrypted) = self.read_utf_data(reader, file_size)?;
        mark_entry(&mut self.file_table, "ITOC_HDR", is_encrypted, utf_data.len() as u64);

        let mut utf = Utf::new();
        utf.read_utf(utf_data.as_slice())?;

        let mut size_table: HashMap<u32, u64> = HashMap::new();
        let mut extract_size_table: HashMap<u32, u64> = HashMap::new();
        let mut ids: Vec<u32> = Vec::new();
        scan_id_blob(&utf, "DataL", &mut size_table, &mut extract_size_table, &mut ids, false)?;
        scan_id_blob(&utf, "DataH", &mut size_table, &mut extract_size_table, &mut ids, true)?;
        let ghost found = found_in(size_table, extract_size_table, ids);

        sort_ids(&mut ids);
        let ghost sorted = found.ids.sort_by(id_order());
        proof {
            found.ids.lemma_sort_by_ensures(id_order());
            lemma_sorted_unique(ids@, sorted, id_order());
        }

        proof {
            lemma_itoc_entries_ignore_found_ids(
                found,
                sizes_in(size_table, extract_size_table),
                sorted,
                align,
                self.content_offset,
                sorted.len(),
            );
        }
        let entries = id_entries(
            &size_table,
            &extract_size_table,
            &ids,
            align,
            self.content_offset,
        )?;
        append_entries(&mut self.file_table, entries);
        assert(utf_data.deep_view() =~= utf_data@);
        self.itoc_packet = Some(utf_data);
        Ok(())
    }
}

/// A copy of a file table.
fn duplicate_entries(table: &Vec<FileEntry>) -> (copy: Vec<FileEntry>)
    ensures
        copy.deep_view() == table.deep_view(),
{
    let mut copy: Vec<FileEntry> = Vec::new();
    let mut k: usize = 0;
    while k < table.len()
        invariant
            k <= table@.len(),
            copy.deep_view() == table.deep_view().take(k as int),
        decreases table@.len() - k,
    {
        let entry = table[k].duplicate();
        copy.push(entry);
        assert(table.deep_view().take(k + 1) =~= table.deep_view().take(k as int).push(
            table[k as int].deep_view(),
        ));
        k = k + 1;
    }
    copy
}

impl Cpk {
    /// A copy of the archive.
    pub fn duplicate(&self) -> (copy: Cpk)
        ensures
            copy.deep_view() == self.deep_view(),
    {
        Cpk {
            file_table: duplicate_entries(&self.file_table),
            cpk_data: self.cpk_data.duplicate(),
            cpk_packet: duplicate_bytes(&self.cpk_packet),
            toc_packet: duplicate_packet(&self.toc_packet),
            itoc_packet: duplicate_packet(&self.itoc_packet),
            etoc_packet: duplicate_packet(&self.etoc_packet),
            gtoc_packet: duplicate_packet(&self.gtoc_packet),
            toc_offset: self.toc_offset,
            etoc_offset: self.etoc_offset,
            itoc_offset: self.itoc_offset,
            gtoc_offset: self.gtoc_offset,
            content_offset: self.content_offset,
        }
    }

    /// Checks the signature of the list of groups at `gtoc_offset` and
    /// appends its marker. The list itself is not read.
    fn read_gtoc(&mut self, reader: &mut EndianReader, _file_size: u64) -> (r: Result<()>)
        requires
            old(self).gtoc_offset != absent_offset(),
        ensures
            final(reader)@.data == old(reader)@.data,
            match r {
                Ok(_) => {
                    &&& gtoc_stage(old(self).deep_view(), old(reader)@.data) matches Ok(found)
                    &&& found == final(self).deep_view()
                },
                Err(e) => {
                    &&& gtoc_stage(old(self).deep_view(), old(reader)@.data) matches Err(kind)
                    &&& e.kind() == kind
                    &&& final(self).deep_view() == (CpkModel {
                        file_table: old(self).deep_view().file_table.push(
                            section_entry("GTOC_HDR"@, old(self).gtoc_offset),
                        ),
                        ..old(self).deep_view()
                    })
                },
            },
    {
        let ghost before = self.deep_view();
        let section = marker("GTOC_HDR", self.gtoc_offset, "HDR");
        self.file_table.push(section);
        assert(self.file_table.deep_view() =~= before.file_table.push(
            section_entry("GTOC_HDR"@, self.gtoc_offset),
        ));
        let _ = reader.seek(SeekFrom::Start(self.gtoc_offset));
        if !read_signature(reader, 0x47, 0x54, 0x4F, 0x43)? {
            return Err(CpkError::InvalidFormat(String::from_str("Invalid GTOC signature")));
        }
        Ok(())
    }

    /// Reads the archive that `data` holds: its header table, then the
    /// sections that the header declares. The file table gains a marker
    /// for the header and for each section, and an entry for each file;
    /// the header values and the tables are kept. Where the archive
    /// cannot be read, nothing is changed.
    pub fn read_cpk(&mut self, data: &[u8]) -> (r: Result<()>)
        ensures
            match r {
                Ok(_) => {
                    &&& read_archive(old(self).deep_view(), data@) matches Ok(found)
                    &&& found == final(self).deep_view()
                },
                Err(e) => {
                    &&& read_archive(old(self).deep_view(), data@) matches Err(kind)
                    &&& e.kind() == kind
                    &&& *final(self) == *old(self)
                },
            },
    {
        let mut work = self.duplicate();
        let file_size = data.len() as u64;
        let mut reader = EndianReader::new(data, false);
        let align = work.read_header(&mut reader, file_size)?;
        if work.toc_offset != 0xFFFF_FFFF_FFFF_FFFF {
            work.read_toc(&mut reader, file_size)?;
        }
        if work.etoc_offset != 0xFFFF_FFFF_FFFF_FFFF {
            work.read_etoc(&mut reader, file_size)?;
        }
        if work.itoc_offset != 0xFFFF_FFFF_FFFF_FFFF {
            work.read_itoc(&mut reader, align, file_size)?;
        }
        if work.gtoc_offset != 0xFFFF_FFFF_FFFF_FFFF {
            work.read_gtoc(&mut reader, file_size)?;
        }
        *self = work;
        Ok(())
    }

    /// Replacing a file of an archive is not implemented: every request is
    /// refused and changes nothing.
    pub fn replace_file(&mut self, _target: &str) -> (r: Result<()>)
        ensures
            r matches Err(e) && e.kind() == ErrorKind::Unsupported,
            *final(self) == *old(self),
    {
        Err(CpkError::Unsupported(String::from_str("File replacement not yet implemented")))
    }
}

/// A file as it leaves the archive: the directory to create for it, the
/// path to write it to, and its bytes. A file of size 0 has no bytes and
/// is not to be written.
#[derive(Debug)]
pub struct ExtractedFile {
    pub dir_name: Option<String>,
    pub path: String,
    pub data: Option<Vec<u8>>,
}

impl DeepView for ExtractedFile {
    type V = ExtractedModel;

    open spec fn deep_view(&self) -> ExtractedModel {
        ExtractedModel {
            dir_name: self.dir_name.deep_view(),
            path: self.path@,
            data: self.data.deep_view(),
        }
    }
}

/// Whether two texts are the same. Texts that were put in lower case are
/// compared with it to match paths without regard to letter case.
pub fn same_text(left: &str, right: &str) -> (r: bool)
    ensures
        r == (left@ == right@),
{
    String::from_str(left) == String::from_str(right)
}

/// Whether the bytes of a file start with `CRILAYLA`.
fn starts_with_crilayla(payload: &[u8]) -> (r: bool)
    ensures
        r == is_compressed(payload@),
{
    if payload.len() >= 8 && payload[0] == 0x43 && payload[1] == 0x52 && payload[2] == 0x49
        && payload[3] == 0x4C && payload[4] == 0x41 && payload[5] == 0x59 && payload[6] == 0x4C
        && payload[7] == 0x41 {
        assert(payload@.subrange(0, 8) =~= crilayla_signature());
        true
    } else {
        false
    }
}

impl FileEntry {
    /// The path of the file: its name, behind its directory and a slash
    /// where it has a directory.
    pub fn full_path(&self) -> (path: String)
        ensures
            path@ == full_path(self.deep_view()),
    {
        match &self.dir_name {
            Some(dir) => {
                proof {
                    reveal_strlit("/");
                }
                let path = dir.clone().concat("/").concat(self.file_name.as_str());
                path
            },
            None => self.file_name.clone(),
        }
    }

    /// Whether the entry stands for a file.
    pub fn is_file(&self) -> (r: bool)
        ensures
            r == is_file(self.deep_view()),
    {
        same_text(self.file_type.as_str(), "FILE")
    }
}

impl Cpk {
    /// Takes the file of `entry` out of the archive `data`: the bytes at
    /// its offset, decompressed where they start with `CRILAYLA`. An entry
    /// of size 0 gives a file without bytes.
    pub fn extract_single_file(&self, data: &[u8], entry: &FileEntry) -> (r: Result<ExtractedFile>)
        ensures
            match r {
                Ok(file) => {
                    &&& extract_entry(data@, entry.deep_view()) matches Ok(found)
                    &&& found == file.deep_view()
                },
                Err(e) => {
                    &&& extract_entry(data@, entry.deep_view()) matches Err(kind)
                    &&& e.kind() == kind
                },
            },
    {
        let output_path = entry.full_path();
        let dir_name = duplicate_text(&entry.dir_name);
        if entry.file_size == 0 {
            return Ok(ExtractedFile { dir_name, path: output_path, data: None });
        }
        let len = data.len() as u64;
        if entry.file_offset > len || entry.file_size > len - entry.file_offset {
            return Err(CpkError::Io(String::from_str("failed to fill whole buffer")));
        }
        let start = entry.file_offset as usize;
        let payload = slice_subrange(data, start, start + entry.file_size as usize);
        if starts_with_crilayla(payload) {
            if payload.len() >= 16 {
                let mut reader = EndianReader::new(payload, true);
                let _ = reader.seek(SeekFrom::Start(12));
                let header_offset = reader.read_u32()?;
                if header_offset as u64 + 0x110 > payload.len() as u64 {
                    proof {
                        lemma_pow256_values();
                    }
                    let mut text = String::from_str("Invalid CRILAYLA header: header_offset=");
                    text.append(decimal_string(header_offset as u64).as_str());
                    text.append(" + 0x110 > data.len()=");
                    text.append(decimal_string(payload.len() as u64).as_str());
                    return Err(CpkError::Compression(text));
                }
            }
            let output = decompress_crilayla(payload)?;
            assert(output.deep_view() =~= output@);
            Ok(ExtractedFile { dir_name, path: output_path, data: Some(output) })
        } else {
            let bytes = slice_to_vec(payload);
            assert(bytes.deep_view() =~= bytes@);
            Ok(ExtractedFile { dir_name, path: output_path, data: Some(bytes) })
        }
    }

    /// Whether the entry is chosen: every file is where no path is given,
    /// else the files whose path in lower case is the given one.
    fn chooses(entry: &FileEntry, lowered: &Option<String>) -> (r: bool)
        ensures
            r == is_chosen(entry.deep_view(), lowered.deep_view()),
    {
        if !entry.is_file() {
            return false;
        }
        match lowered {
            Some(wanted) => {
                let path = to_lowercase(entry.full_path().as_str());
                same_text(path.as_str(), wanted.as_str())
            },
            None => true,
        }
    }

    /// Takes the chosen files out of the archive `data`, in the order of
    /// the file table.
    fn extract_files(&self, data: &[u8], lowered: &Option<String>) -> (r: Result<
        Vec<ExtractedFile>,
    >)
        ensures
            match r {
                Ok(files) => {
                    &&& extract_chosen(
                        data@,
                        self.file_table.deep_view(),
                        lowered.deep_view(),
                        self.file_table@.len(),
                    ) matches Ok(found)
                    &&& found == files.deep_view()
                },
                Err(e) => {
                    &&& extract_chosen(
                        data@,
                        self.file_table.deep_view(),
                        lowered.deep_view(),
                        self.file_table@.len(),
                    ) matches Err(kind)
                    &&& e.kind() == kind
                },
            },
    {
        let ghost table = self.file_table.deep_view();
        let ghost wanted = lowered.deep_view();
        let mut files: Vec<ExtractedFile> = Vec::new();
        assert(files.deep_view() =~= Seq::empty());
        let mut k: usize = 0;
        while k < self.file_table.len()
            invariant
                k <= self.file_table@.len(),
                table == self.file_table.deep_view(),
                wanted == lowered.deep_view(),
                extract_chosen(data@, table, wanted, k as nat) == Ok::<
                    Seq<ExtractedModel>,
                    ErrorKind,
                >(files.deep_view()),
            decreases self.file_table@.len() - k,
        {
            if Self::chooses(&self.file_table[k], lowered) {
                match self.extract_single_file(data, &self.file_table[k]) {
                    Ok(file) => {
                        let ghost done = files.deep_view();
                        files.push(file);
                        assert(files.deep_view() =~= done.push(file.deep_view()));
                    },
                    Err(e) => {
                        proof {
                            lemma_extract_failure_stays(
                                data@,
                                table,
                                wanted,
                                (k + 1) as nat,
                                table.len(),
                            );
                        }
                        return Err(e);
                    },
                }
            }
            k = k + 1;
        }
        Ok(files)
    }

    /// Whether a file of the table has the path `lowered` in lower case.
    fn has_file(&self, lowered: &Option<String>) -> (r: bool)
        requires
            lowered is Some,
        ensures
            r == has_match(
                self.file_table.deep_view(),
                lowered.deep_view()->Some_0,
                self.file_table@.len(),
            ),
    {
        let ghost table = self.file_table.deep_view();
        let mut k: usize = 0;
        while k < self.file_table.len()
            invariant
                k <= self.file_table@.len(),
                lowered is Some,
                table == self.file_table.deep_view(),
                !has_match(table, lowered.deep_view()->Some_0, k as nat),
            decreases self.file_table@.len() - k,
        {
            if Self::chooses(&self.file_table[k], lowered) {
                proof {
                    lemma_match_stays(
                        table,
                        lowered.deep_view()->Some_0,
                        (k + 1) as nat,
                        table.len(),
                    );
                }
                return true;
            }
            k = k + 1;
        }
        false
    }

    /// Takes the files whose path is `target`, letter case aside, out of
    /// the archive `data`, in the order of the file table. Fails where no
    /// file has that path, and where one of them cannot be extracted.
    pub fn extract_file(&self, data: &[u8], target: &str) -> (r: Result<Vec<ExtractedFile>>)
        ensures
            match r {
                Ok(files) => {
                    &&& extract_target(
                        data@,
                        self.file_table.deep_view(),
                        target@,
                    ) matches Ok(found)
                    &&& found == files.deep_view()
                },
                Err(e) => {
                    &&& extract_target(
                        data@,
                        self.file_table.deep_view(),
                        target@,
                    ) matches Err(kind)
                    &&& e.kind() == kind
                    &&& e matches CpkError::FileNotFound(named) ==> named@ == target@
                },
            },
    {
        let lowered = Some(to_lowercase(target));
        if !self.has_file(&lowered) {
            return Err(CpkError::FileNotFound(String::from_str(target)));
        }
        proof {
            lemma_extract_failures(
                data@,
                self.file_table.deep_view(),
                lowered.deep_view(),
                self.file_table@.len(),
            );
        }
        self.extract_files(data, &lowered)
    }

    /// The places in the file table of the files that are chosen, in the
    /// order of the table: every file where no target is given, else the
    /// files whose path is the target, letter case aside.
    pub fn chosen_entries(&self, target: Option<&str>) -> (places: Vec<usize>)
        ensures
            places@ == chosen_places(
                self.file_table.deep_view(),
                match target {
                    Some(path) => Some(lowercase(path@)),
                    None => None,
                },
                self.file_table@.len(),
            ),
    {
        let lowered: Option<String> = match target {
            Some(path) => Some(to_lowercase(path)),
            None => None,
        };
        let ghost table = self.file_table.deep_view();
        let mut places: Vec<usize> = Vec::new();
        let mut k: usize = 0;
        while k < self.file_table.len()
            invariant
                k <= self.file_table@.len(),
                table == self.file_table.deep_view(),
                places@ == chosen_places(table, lowered.deep_view(), k as nat),
            decreases self.file_table@.len() - k,
        {
            assert(table[k as int] == self.file_table[k as int].deep_view());
            if Self::chooses(&self.file_table[k], &lowered) {
                places.push(k);
            }
            k = k + 1;
        }
        places
    }

    /// Takes every file out of the archive `data`, in the order of the
    /// file table. Fails where one of them cannot be extracted.
    pub fn extract_all(&self, data: &[u8]) -> (r: Result<Vec<ExtractedFile>>)
        ensures
            match r {
                Ok(files) => {
                    &&& extract_chosen(
                        data@,
                        self.file_table.deep_view(),
                        None,
                        self.file_table@.len(),
                    ) matches Ok(found)
                    &&& found == files.deep_view()
                },
                Err(e) => {
                    &&& extract_chosen(
                        data@,
                        self.file_table.deep_view(),
                        None,
                        self.file_table@.len(),
                    ) matches Err(kind)
                    &&& e.kind() == kind
                },
            },
    {
        self.extract_files(data, &None)
    }
}

/// Once a file cannot be extracted, no longer part of the table can.
proof fn lemma_extract_failure_stays(
    data: Seq<u8>,
    table: Seq<FileEntryModel>,
    lowered: Option<Seq<char>>,
    count: nat,
    more: nat,
)
    requires
        count <= more,
        extract_chosen(data, table, lowered, count) is Err,
    ensures
        extract_chosen(data, table, lowered, more) == extract_chosen(data, table, lowered, count),
    decreases more,
{
    if count < more {
        lemma_extract_failure_stays(data, table, lowered, count, (more - 1) as nat);
    }
}

/// A match among the first entries is a match among more of them.
proof fn lemma_match_stays(table: Seq<FileEntryModel>, lowered: Seq<char>, count: nat, more: nat)
    requires
        count <= more,
        has_match(table, lowered, count),
    ensures
        has_match(table, lowered, more),
    decreases more,
{
    if count < more {
        lemma_match_stays(table, lowered, count, (more - 1) as nat);
    }
}

} // verus!
