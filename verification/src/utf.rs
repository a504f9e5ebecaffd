//! The `@UTF` table: columns of typed cells, stored per row or not at all.
use crate::byte_order::bytes_at;
use crate::endian::{EndianReader, ReaderState, SeekFrom};
use crate::error::{CpkError, ErrorKind, Result};
use crate::text::{decimal_digits, decimal_string};
use crate::utf_format::{
    column_name, find_column, header_len, header_of, lemma_cell_positions,
    lemma_columns_failure_stays, lemma_row_failure_stays, lemma_rows_failure_stays, parse_cell,
    parse_column, parse_columns, parse_header, parse_row, parse_rows, parse_utf, parse_value,
    resolved_name, string_at, utf_signature, UtfHeader, UtfModel,
};
use vstd::prelude::*;
use vstd::slice::slice_to_vec;
use vstd::string::*;

verus! {

/// How a column stores its cells: the high nibble of its flags byte.
#[derive(Debug, Clone, Copy, PartialEq, Eq, Structural)]
pub enum ColumnFlags {
    StorageNone,
    StorageZero,
    StorageConstant,
    StoragePerRow,
}

impl ColumnFlags {
    /// The high nibble that stands for this storage mode.
    pub open spec fn bits(self) -> u8 {
        match self {
            ColumnFlags::StorageNone => 0x00,
            ColumnFlags::StorageZero => 0x10,
            ColumnFlags::StorageConstant => 0x30,
            ColumnFlags::StoragePerRow => 0x50,
        }
    }

    /// The storage mode that a flags byte declares, if it is a known one.
    pub open spec fn of_flags(flags: u8) -> Option<ColumnFlags> {
        let high = flags & 0xF0;
        if high == 0x00 {
            Some(ColumnFlags::StorageNone)
        } else if high == 0x10 {
            Some(ColumnFlags::StorageZero)
        } else if high == 0x30 {
            Some(ColumnFlags::StorageConstant)
        } else if high == 0x50 {
            Some(ColumnFlags::StoragePerRow)
        } else {
            None
        }
    }

    /// The high nibble that stands for this storage mode.
    pub fn value(&self) -> (v: u8)
        ensures
            v == self.bits(),
    {
        match self {
            ColumnFlags::StorageNone => 0x00,
            ColumnFlags::StorageZero => 0x10,
            ColumnFlags::StorageConstant => 0x30,
            ColumnFlags::StoragePerRow => 0x50,
        }
    }

    /// The storage mode that a flags byte declares, if it is a known one.
    pub fn from_flags(flags: u8) -> (mode: Option<ColumnFlags>)
        ensures
            mode == ColumnFlags::of_flags(flags),
    {
        let high = flags & 0xF0;
        if high == 0x00 {
            Some(ColumnFlags::StorageNone)
        } else if high == 0x10 {
            Some(ColumnFlags::StorageZero)
        } else if high == 0x30 {
            Some(ColumnFlags::StorageConstant)
        } else if high == 0x50 {
            Some(ColumnFlags::StoragePerRow)
        } else {
            None
        }
    }
}

/// What a column's cells hold: the low nibble of its flags byte.
#[derive(Debug, Clone, Copy, PartialEq, Eq, Structural)]
pub enum ColumnType {
    UInt8,
    Int8,
    UInt16,
    Int16,
    UInt32,
    Int32,
    UInt64,
    Int64,
    Float,
    String,
    Data,
}

impl ColumnType {
    /// The low nibble that stands for this type.
    pub open spec fn code_of(self) -> u8 {
        match self {
            ColumnType::UInt8 => 0x00,
            ColumnType::Int8 => 0x01,
            ColumnType::UInt16 => 0x02,
            ColumnType::Int16 => 0x03,
            ColumnType::UInt32 => 0x04,
            ColumnType::Int32 => 0x05,
            ColumnType::UInt64 => 0x06,
            ColumnType::Int64 => 0x07,
            ColumnType::Float => 0x08,
            ColumnType::String => 0x0A,
            ColumnType::Data => 0x0B,
        }
    }

    /// The type that a flags byte declares, if it is a known one.
    pub open spec fn of_flags(flags: u8) -> Option<ColumnType> {
        let low = flags & 0x0F;
        if low == 0x00 {
            Some(ColumnType::UInt8)
        } else if low == 0x01 {
            Some(ColumnType::Int8)
        } else if low == 0x02 {
            Some(ColumnType::UInt16)
        } else if low == 0x03 {
            Some(ColumnType::Int16)
        } else if low == 0x04 {
            Some(ColumnType::UInt32)
        } else if low == 0x05 {
            Some(ColumnType::Int32)
        } else if low == 0x06 {
            Some(ColumnType::UInt64)
        } else if low == 0x07 {
            Some(ColumnType::Int64)
        } else if low == 0x08 {
            Some(ColumnType::Float)
        } else if low == 0x0A {
            Some(ColumnType::String)
        } else if low == 0x0B {
            Some(ColumnType::Data)
        } else {
            None
        }
    }

    /// The number of bytes that a cell of this type takes in its row.
    pub open spec fn width(self) -> nat {
        match self {
            ColumnType::UInt8 | ColumnType::Int8 => 1,
            ColumnType::UInt16 | ColumnType::Int16 => 2,
            ColumnType::UInt32 | ColumnType::Int32 => 4,
            ColumnType::UInt64 | ColumnType::Int64 => 8,
            ColumnType::Float => 4,
            ColumnType::String => 4,
            ColumnType::Data => 8,
        }
    }

    /// The low nibble that stands for this type.
    pub fn code(&self) -> (v: u8)
        ensures
            v == self.code_of(),
    {
        match self {
            ColumnType::UInt8 => 0x00,
            ColumnType::Int8 => 0x01,
            ColumnType::UInt16 => 0x02,
            ColumnType::Int16 => 0x03,
            ColumnType::UInt32 => 0x04,
            ColumnType::Int32 => 0x05,
            ColumnType::UInt64 => 0x06,
            ColumnType::Int64 => 0x07,
            ColumnType::Float => 0x08,
            ColumnType::String => 0x0A,
            ColumnType::Data => 0x0B,
        }
    }

    /// The type that a flags byte declares, if it is a known one.
    pub fn from_flags(flags: u8) -> (kind: Option<ColumnType>)
        ensures
            kind == ColumnType::of_flags(flags),
    {
        let low = flags & 0x0F;
        if low == 0x00 {
            Some(ColumnType::UInt8)
        } else if low == 0x01 {
            Some(ColumnType::Int8)
        } else if low == 0x02 {
            Some(ColumnType::UInt16)
        } else if low == 0x03 {
            Some(ColumnType::Int16)
        } else if low == 0x04 {
            Some(ColumnType::UInt32)
        } else if low == 0x05 {
            Some(ColumnType::Int32)
        } else if low == 0x06 {
            Some(ColumnType::UInt64)
        } else if low == 0x07 {
            Some(ColumnType::Int64)
        } else if low == 0x08 {
            Some(ColumnType::Float)
        } else if low == 0x0A {
            Some(ColumnType::String)
        } else if low == 0x0B {
            Some(ColumnType::Data)
        } else {
            None
        }
    }
}

/// A column: its flags byte and its name.
#[derive(Debug, Clone)]
pub struct Column {
    pub flags: u8,
    pub name: String,
}

/// A column as contracts see it.
pub struct ColumnModel {
    pub flags: u8,
    pub name: Seq<char>,
}

impl DeepView for Column {
    type V = ColumnModel;

    open spec fn deep_view(&self) -> ColumnModel {
        ColumnModel { flags: self.flags, name: self.name@ }
    }
}

/// The value of a cell. A floating-point cell holds the bits of its number;
/// a cell whose column stores nothing per row is `Absent`.
#[derive(Debug, Clone)]
pub enum CellValue {
    UInt8(u8),
    Int8(i8),
    UInt16(u16),
    Int16(i16),
    UInt32(u32),
    Int32(i32),
    UInt64(u64),
    Int64(i64),
    Float(u32),
    String(String),
    Data(Vec<u8>),
    Absent,
}

/// The value of a cell as contracts see it.
pub enum CellData {
    UInt8(u8),
    Int8(i8),
    UInt16(u16),
    Int16(i16),
    UInt32(u32),
    Int32(i32),
    UInt64(u64),
    Int64(i64),
    Float(u32),
    Text(Seq<char>),
    Bytes(Seq<u8>),
    Absent,
}

impl DeepView for CellValue {
    type V = CellData;

    open spec fn deep_view(&self) -> CellData {
        match self {
            CellValue::UInt8(v) => CellData::UInt8(*v),
            CellValue::Int8(v) => CellData::Int8(*v),
            CellValue::UInt16(v) => CellData::UInt16(*v),
            CellValue::Int16(v) => CellData::Int16(*v),
            CellValue::UInt32(v) => CellData::UInt32(*v),
            CellValue::Int32(v) => CellData::Int32(*v),
            CellValue::UInt64(v) => CellData::UInt64(*v),
            CellValue::Int64(v) => CellData::Int64(*v),
            CellValue::Float(v) => CellData::Float(*v),
            CellValue::String(s) => CellData::Text(s@),
            CellValue::Data(d) => CellData::Bytes(d@),
            CellValue::Absent => CellData::Absent,
        }
    }
}

impl CellValue {
    /// The byte, where the cell holds an unsigned byte.
    pub fn as_u8(&self) -> (r: Option<u8>)
        ensures
            r == (match self {
                CellValue::UInt8(v) => Some(*v),
                _ => None,
            }),
    {
        match self {
            CellValue::UInt8(v) => Some(*v),
            _ => None,
        }
    }

    /// The number, where the cell holds an unsigned number of 16 bits.
    pub fn as_u16(&self) -> (r: Option<u16>)
        ensures
            r == (match self {
                CellValue::UInt16(v) => Some(*v),
                _ => None,
            }),
    {
        match self {
            CellValue::UInt16(v) => Some(*v),
            _ => None,
        }
    }

    /// The number, where the cell holds an unsigned number of 32 bits.
    pub fn as_u32(&self) -> (r: Option<u32>)
        ensures
            r == (match self {
                CellValue::UInt32(v) => Some(*v),
                _ => None,
            }),
    {
        match self {
            CellValue::UInt32(v) => Some(*v),
            _ => None,
        }
    }

    /// The number, where the cell holds an unsigned number of 64 bits.
    pub fn as_u64(&self) -> (r: Option<u64>)
        ensures
            r == (match self {
                CellValue::UInt64(v) => Some(*v),
                _ => None,
            }),
    {
        match self {
            CellValue::UInt64(v) => Some(*v),
            _ => None,
        }
    }

    /// The text, where the cell holds a string.
    pub fn as_string(&self) -> (r: Option<&str>)
        ensures
            match self {
                CellValue::String(s) => {
                    &&& r matches Some(t)
                    &&& t@ == s@
                },
                _ => r is None,
            },
    {
        match self {
            CellValue::String(s) => Some(s.as_str()),
            _ => None,
        }
    }

    /// The bytes, where the cell holds a blob.
    pub fn as_data(&self) -> (r: Option<&[u8]>)
        ensures
            match self {
                CellValue::Data(d) => {
                    &&& r matches Some(b)
                    &&& b@ == d@
                },
                _ => r is None,
            },
    {
        match self {
            CellValue::Data(d) => Some(d.as_slice()),
            _ => None,
        }
    }

    /// A copy of the value.
    pub fn duplicate(&self) -> (copy: CellValue)
        ensures
            copy.deep_view() == self.deep_view(),
    {
        match self {
            CellValue::UInt8(v) => CellValue::UInt8(*v),
            CellValue::Int8(v) => CellValue::Int8(*v),
            CellValue::UInt16(v) => CellValue::UInt16(*v),
            CellValue::Int16(v) => CellValue::Int16(*v),
            CellValue::UInt32(v) => CellValue::UInt32(*v),
            CellValue::Int32(v) => CellValue::Int32(*v),
            CellValue::UInt64(v) => CellValue::UInt64(*v),
            CellValue::Int64(v) => CellValue::Int64(*v),
            CellValue::Float(v) => CellValue::Float(*v),
            CellValue::String(s) => CellValue::String(s.clone()),
            CellValue::Data(d) => CellValue::Data(slice_to_vec(d.as_slice())),
            CellValue::Absent => CellValue::Absent,
        }
    }
}

/// A cell: its value, and where in the table's bytes the value was read.
#[derive(Debug, Clone)]
pub struct Cell {
    pub value: CellValue,
    pub position: u64,
}

/// A cell as contracts see it.
pub struct CellModel {
    pub value: CellData,
    pub position: int,
}

impl DeepView for Cell {
    type V = CellModel;

    open spec fn deep_view(&self) -> CellModel {
        CellModel { value: self.value.deep_view(), position: self.position as int }
    }
}

/// The cells of one row, one per column.
pub type Row = Vec<Cell>;

/// A parsed table: its header, its columns and its rows of cells.
#[derive(Debug)]
pub struct Utf {
    pub table_size: u32,
    pub rows_offset: u64,
    pub strings_offset: u64,
    pub data_offset: u64,
    pub table_name: u32,
    pub num_columns: u16,
    pub row_length: u16,
    pub num_rows: u32,
    pub columns: Vec<Column>,
    pub rows: Vec<Row>,
}

impl DeepView for Utf {
    type V = UtfModel;

    open spec fn deep_view(&self) -> UtfModel {
        UtfModel {
            table_size: self.table_size,
            rows_offset: self.rows_offset,
            strings_offset: self.strings_offset,
            data_offset: self.data_offset,
            table_name: self.table_name,
            num_columns: self.num_columns,
            row_length: self.row_length,
            num_rows: self.num_rows,
            columns: self.columns.deep_view(),
            rows: self.rows.deep_view(),
        }
    }
}

/// Whether the header fields of `table` are those of `header`.
pub open spec fn has_header(table: Utf, header: UtfHeader) -> bool {
    &&& table.table_size == header.table_size
    &&& table.rows_offset == header.rows_offset
    &&& table.strings_offset == header.strings_offset
    &&& table.data_offset == header.data_offset
    &&& table.table_name == header.table_name
    &&& table.num_columns == header.num_columns
    &&& table.row_length == header.row_length
    &&& table.num_rows == header.num_rows
}

/// The largest position that a rebased heap offset can take.
pub open spec fn max_heap_offset() -> int {
    0x1_0000_0007
}

/// A reader over `data` in big-endian order with its cursor at `pos`.
pub open spec fn table_reader(data: Seq<u8>, pos: int) -> ReaderState {
    ReaderState { data, pos, little_endian: false }
}

/// The name of the column `index` whose stored name decodes to `decoded`:
/// the decoded name, or `Column` and the index where that is empty.
pub fn resolve_column_name(decoded: String, index: u16) -> (name: String)
    ensures
        name@ == resolved_name(decoded@, index as nat),
{
    if decoded.as_str().is_empty() {
        String::from_str("Column").concat(decimal_string(index as u64).as_str())
    } else {
        decoded
    }
}

impl Utf {
    /// An empty table.
    pub fn new() -> (table: Self)
        ensures
            table.deep_view() == (UtfModel {
                table_size: 0,
                rows_offset: 0,
                strings_offset: 0,
                data_offset: 0,
                table_name: 0,
                num_columns: 0,
                row_length: 0,
                num_rows: 0,
                columns: Seq::empty(),
                rows: Seq::empty(),
            }),
    {
        let table = Utf {
            table_size: 0,
            rows_offset: 0,
            strings_offset: 0,
            data_offset: 0,
            table_name: 0,
            num_columns: 0,
            row_length: 0,
            num_rows: 0,
            columns: Vec::new(),
            rows: Vec::new(),
        };
        assert(table.columns.deep_view() =~= Seq::empty());
        assert(table.rows.deep_view() =~= Seq::empty());
        table
    }

    /// Parses the table that `data` holds. On success the table is replaced
    /// by the parsed one; on failure it is left as it was.
    pub fn read_utf(&mut self, data: &[u8]) -> (r: Result<()>)
        ensures
            match r {
                Ok(_) => {
                    &&& parse_utf(data@) matches Ok(table)
                    &&& final(self).deep_view() == table
                    &&& final(self).rows_offset <= data@.len()
                    &&& final(self).strings_offset <= data@.len()
                    &&& final(self).data_offset <= data@.len()
                    &&& final(self).columns@.len() == final(self).num_columns
                    &&& final(self).rows@.len() == final(self).num_rows
                },
                Err(e) => {
                    &&& parse_utf(data@) matches Err(kind)
                    &&& e.kind() == kind
                    &&& *final(self) == *old(self)
                },
            },
    {
        let mut reader = EndianReader::new(data, false);
        let mut table = Self::read_header(&mut reader)?;
        let ghost header = header_of(data@);
        let ghost strings = header.strings_offset as int;

        let mut i: u16 = 0;
        while i < table.num_columns
            invariant
                i <= table.num_columns,
                has_header(table, header),
                parse_header(data@) == Ok::<UtfHeader, ErrorKind>(header),
                strings == header.strings_offset,
                header.strings_offset <= max_heap_offset(),
                header.data_offset <= max_heap_offset(),
                header.rows_offset <= max_heap_offset(),
                table.rows.deep_view() == Seq::<Seq<CellModel>>::empty(),
                reader@.data == data@,
                !reader@.little_endian,
                *self == *old(self),
                parse_columns(data@, strings, i as nat) matches Ok((columns, at))
                    && table.columns.deep_view() == columns && reader@.pos == at,
            decreases table.num_columns - i,
        {
            match Self::read_column(&mut reader, table.strings_offset, i) {
                Ok(column) => {
                    table.columns.push(column);
                    i = i + 1;
                },
                Err(e) => {
                    proof {
                        lemma_columns_failure_stays(
                            data@,
                            strings,
                            (i + 1) as nat,
                            header.num_columns as nat,
                        );
                    }
                    return Err(e);
                },
            }
        }
        let ghost columns = table.columns.deep_view();

        let mut row_idx: u32 = 0;
        while row_idx < table.num_rows
            invariant
                row_idx <= table.num_rows,
                has_header(table, header),
                parse_header(data@) == Ok::<UtfHeader, ErrorKind>(header),
                strings == header.strings_offset,
                header.strings_offset <= max_heap_offset(),
                header.data_offset <= max_heap_offset(),
                header.rows_offset <= max_heap_offset(),
                table.columns.deep_view() == columns,
                parse_columns(data@, strings, header.num_columns as nat) matches Ok((found, _))
                    && found == columns,
                reader@.data == data@,
                !reader@.little_endian,
                *self == *old(self),
                parse_rows(data@, columns, header, row_idx as nat) matches Ok(rows)
                    && table.rows.deep_view() == rows,
            decreases table.num_rows - row_idx,
        {
            assert(row_idx as u64 * table.row_length as u64 <= 0xFFFF_FFFF * 0xFFFF)
                by (nonlinear_arith)
                requires
                    row_idx <= 0xFFFF_FFFF,
                    table.row_length <= 0xFFFF,
            ;
            let start = table.rows_offset + row_idx as u64 * table.row_length as u64;
            let _ = reader.seek(SeekFrom::Start(start));
            match Self::read_row(
                &mut reader,
                &table.columns,
                table.strings_offset,
                table.data_offset,
            ) {
                Ok(row) => {
                    table.rows.push(row);
                    row_idx = row_idx + 1;
                },
                Err(e) => {
                    proof {
                        lemma_rows_failure_stays(
                            data@,
                            columns,
                            header,
                            (row_idx + 1) as nat,
                            header.num_rows as nat,
                        );
                    }
                    return Err(e);
                },
            }
        }
        proof {
            lemma_cell_positions(data@);
        }
        *self = table;
        Ok(())
    }

    /// Reads the fixed header at the start of the table into a table
    /// without columns and rows.
    fn read_header(reader: &mut EndianReader) -> (r: Result<Utf>)
        requires
            old(reader)@ == table_reader(old(reader)@.data, 0),
        ensures
            final(reader)@.data == old(reader)@.data,
            match r {
                Ok(table) => {
                    &&& parse_header(old(reader)@.data) matches Ok(header)
                    &&& header == header_of(old(reader)@.data)
                    &&& has_header(table, header)
                    &&& table.columns.deep_view() == Seq::<ColumnModel>::empty()
                    &&& table.rows.deep_view() == Seq::<Seq<CellModel>>::empty()
                    &&& header.rows_offset <= max_heap_offset()
                    &&& header.strings_offset <= max_heap_offset()
                    &&& header.data_offset <= max_heap_offset()
                    &&& final(reader)@ == table_reader(old(reader)@.data, header_len())
                },
                Err(e) => {
                    &&& parse_header(old(reader)@.data) matches Err(kind)
                    &&& e.kind() == kind
                },
            },
    {
        let ghost data = reader@.data;
        let signature = reader.read_bytes(4)?;
        if !(signature[0] == 0x40 && signature[1] == 0x55 && signature[2] == 0x54 && signature[3]
            == 0x46) {
            return Err(CpkError::InvalidUtfSignature);
        }
        assert(data.subrange(0, 4) =~= utf_signature());
        let table_size = reader.read_u32()?;
        let rows_rel = reader.read_u32()?;
        let strings_rel = reader.read_u32()?;
        let data_rel = reader.read_u32()?;
        let rows_offset = rows_rel as u64 + 8;
        let strings_offset = strings_rel as u64 + 8;
        let data_offset = data_rel as u64 + 8;
        let table_name = reader.read_u32()?;
        let num_columns = reader.read_u16()?;
        let row_length = reader.read_u16()?;
        let num_rows = reader.read_u32()?;
        let len = reader.len();
        if rows_offset > len {
            return Err(
                CpkError::InvalidFormat(
                    Self::exceeds_message("Rows offset (", rows_offset, len),
                ),
            );
        }
        if strings_offset > len {
            return Err(
                CpkError::InvalidFormat(
                    Self::exceeds_message("Strings offset (", strings_offset, len),
                ),
            );
        }
        if data_offset > len {
            return Err(
                CpkError::InvalidFormat(
                    Self::exceeds_message("Data offset (", data_offset, len),
                ),
            );
        }
        let table = Utf {
            table_size,
            rows_offset,
            strings_offset,
            data_offset,
            table_name,
            num_columns,
            row_length,
            num_rows,
            columns: Vec::new(),
            rows: Vec::new(),
        };
        Ok(table)
    }

    /// The text that says which offset lies behind the end of the table.
    fn exceeds_message(what: &str, offset: u64, len: u64) -> (text: String)
        ensures
            text@ == exceeds_text(what@, offset as nat, len as nat),
    {
        let mut text = String::from_str(what);
        text.append(decimal_string(offset).as_str());
        text.append(") exceeds buffer size (");
        text.append(decimal_string(len).as_str());
        text.append(")");
        text
    }

    /// Reads the descriptor of the column `index` at the cursor.
    fn read_column(reader: &mut EndianReader, strings_offset: u64, index: u16) -> (r: Result<
        Column,
    >)
        requires
            !old(reader)@.little_endian,
            strings_offset <= max_heap_offset(),
        ensures
            final(reader)@.data == old(reader)@.data,
            !final(reader)@.little_endian,
            match r {
                Ok(column) => {
                    &&& parse_column(
                        old(reader)@.data,
                        old(reader)@.pos,
                        strings_offset as int,
                        index as nat,
                    ) matches Ok((model, next))
                    &&& column.deep_view() == model
                    &&& final(reader)@.pos == next
                },
                Err(e) => {
                    &&& parse_column(
                        old(reader)@.data,
                        old(reader)@.pos,
                        strings_offset as int,
                        index as nat,
                    ) matches Err(kind)
                    &&& e.kind() == kind
                },
            },
    {
        let ghost data = reader@.data;
        proof {
            reader.lemma_cursor_range();
        }
        let first = reader.read_u8()?;
        let flags = if first == 0 {
            let _ = reader.seek(SeekFrom::Current(3));
            reader.read_u8()?
        } else {
            first
        };
        let name_offset = reader.read_u32()?;
        let target = strings_offset + name_offset as u64;
        let name = if target >= reader.len() {
            resolve_column_name(String::new(), index)
        } else {
            match Self::read_string_at(reader, strings_offset, name_offset as u64) {
                Ok(decoded) => resolve_column_name(decoded, index),
                Err(_) => resolve_column_name(String::new(), index),
            }
        };
        Ok(Column { flags, name })
    }

    /// Reads the string at `offset` in the heap that starts at `heap`, and
    /// puts the cursor back where it was.
    fn read_string_at(reader: &mut EndianReader, heap: u64, offset: u64) -> (r: Result<String>)
        requires
            heap + offset <= u64::MAX,
        ensures
            final(reader)@.data == old(reader)@.data,
            final(reader)@.little_endian == old(reader)@.little_endian,
            match r {
                Ok(text) => {
                    &&& heap + offset < old(reader)@.data.len()
                    &&& text@ == string_at(old(reader)@.data, heap as int, offset as int)
                    &&& final(reader)@ == old(reader)@
                },
                Err(e) => {
                    &&& heap + offset >= old(reader)@.data.len()
                    &&& e.kind() == ErrorKind::Io
                },
            },
    {
        let current_pos = reader.position()?;
        let target_pos = heap + offset;
        let _ = reader.seek(SeekFrom::Start(target_pos));
        let result = reader.read_cstring(None)?;
        let _ = reader.seek(SeekFrom::Start(current_pos));
        Ok(result)
    }

    /// Reads the `size` bytes at `offset` in the heap that starts at `heap`,
    /// and puts the cursor back where it was.
    fn read_data_at(reader: &mut EndianReader, heap: u64, offset: u64, size: usize) -> (r:
        Result<Vec<u8>>)
        requires
            heap + offset <= u64::MAX,
        ensures
            final(reader)@.data == old(reader)@.data,
            final(reader)@.little_endian == old(reader)@.little_endian,
            match r {
                Ok(bytes) => {
                    &&& (size == 0 || heap + offset + size <= old(reader)@.data.len())
                    &&& bytes@ == bytes_at(old(reader)@.data, heap + offset, size as nat)
                    &&& final(reader)@ == old(reader)@
                },
                Err(e) => {
                    &&& size > 0
                    &&& heap + offset + size > old(reader)@.data.len()
                    &&& e.kind() == ErrorKind::Io
                },
            },
    {
        let current_pos = reader.position()?;
        let target_pos = heap + offset;
        let _ = reader.seek(SeekFrom::Start(target_pos));
        let result = reader.read_bytes(size)?;
        let _ = reader.seek(SeekFrom::Start(current_pos));
        Ok(result)
    }

    /// Reads the value of a per-row cell of type `kind` at the cursor.
    fn read_value(
        reader: &mut EndianReader,
        kind: ColumnType,
        strings_offset: u64,
        data_offset: u64,
    ) -> (r: Result<CellValue>)
        requires
            !old(reader)@.little_endian,
            strings_offset <= max_heap_offset(),
            data_offset <= max_heap_offset(),
        ensures
            final(reader)@.data == old(reader)@.data,
            !final(reader)@.little_endian,
            match r {
                Ok(value) => {
                    &&& parse_value(
                        old(reader)@.data,
                        kind,
                        old(reader)@.pos,
                        strings_offset as int,
                        data_offset as int,
                    ) matches Ok(model)
                    &&& value.deep_view() == model
                    &&& final(reader)@.pos == old(reader)@.pos + kind.width()
                },
                Err(e) => {
                    &&& parse_value(
                        old(reader)@.data,
                        kind,
                        old(reader)@.pos,
                        strings_offset as int,
                        data_offset as int,
                    ) matches Err(found)
                    &&& e.kind() == found
                },
            },
    {
        match kind {
            ColumnType::UInt8 | ColumnType::Int8 => Ok(CellValue::UInt8(reader.read_u8()?)),
            ColumnType::UInt16 | ColumnType::Int16 => Ok(CellValue::UInt16(reader.read_u16()?)),
            ColumnType::UInt32 | ColumnType::Int32 => Ok(CellValue::UInt32(reader.read_u32()?)),
            ColumnType::UInt64 | ColumnType::Int64 => Ok(CellValue::UInt64(reader.read_u64()?)),
            ColumnType::Float => Ok(CellValue::Float(reader.read_u32()?)),
            ColumnType::String => {
                let offset = reader.read_u32()?;
                let text = Self::read_string_at(reader, strings_offset, offset as u64)?;
                Ok(CellValue::String(text))
            },
            ColumnType::Data => {
                let offset = reader.read_u32()?;
                let size = reader.read_u32()?;
                let bytes = Self::read_data_at(
                    reader,
                    data_offset,
                    offset as u64,
                    size as usize,
                )?;
                Ok(CellValue::Data(bytes))
            },
        }
    }

    /// Reads the cell at the cursor of a column with these flags.
    fn read_cell(reader: &mut EndianReader, flags: u8, strings_offset: u64, data_offset: u64) -> (r:
        Result<Cell>)
        requires
            !old(reader)@.little_endian,
            strings_offset <= max_heap_offset(),
            data_offset <= max_heap_offset(),
        ensures
            final(reader)@.data == old(reader)@.data,
            !final(reader)@.little_endian,
            match r {
                Ok(cell) => {
                    &&& parse_cell(
                        old(reader)@.data,
                        flags,
                        old(reader)@.pos,
                        strings_offset as int,
                        data_offset as int,
                    ) matches Ok((model, next))
                    &&& cell.deep_view() == model
                    &&& final(reader)@.pos == next
                },
                Err(e) => {
                    &&& parse_cell(
                        old(reader)@.data,
                        flags,
                        old(reader)@.pos,
                        strings_offset as int,
                        data_offset as int,
                    ) matches Err(kind)
                    &&& e.kind() == kind
                },
            },
    {
        let position = reader.position()?;
        match ColumnFlags::from_flags(flags) {
            None => Err(
                CpkError::Parse(
                    String::from_str("Unknown storage flag: ").concat(
                        decimal_string((flags & 0xF0) as u64).as_str(),
                    ),
                ),
            ),
            Some(ColumnFlags::StoragePerRow) => match ColumnType::from_flags(flags) {
                None => Err(
                    CpkError::Parse(
                        String::from_str("Unsupported column type: ").concat(
                            decimal_string((flags & 0x0F) as u64).as_str(),
                        ),
                    ),
                ),
                Some(kind) => {
                    let value = Self::read_value(reader, kind, strings_offset, data_offset)?;
                    Ok(Cell { value, position })
                },
            },
            Some(_) => Ok(Cell { value: CellValue::Absent, position }),
        }
    }

    /// Reads one row at the cursor: a cell for each column, in order.
    fn read_row(
        reader: &mut EndianReader,
        columns: &Vec<Column>,
        strings_offset: u64,
        data_offset: u64,
    ) -> (r: Result<Row>)
        requires
            !old(reader)@.little_endian,
            strings_offset <= max_heap_offset(),
            data_offset <= max_heap_offset(),
        ensures
            final(reader)@.data == old(reader)@.data,
            !final(reader)@.little_endian,
            match r {
                Ok(row) => {
                    &&& parse_row(
                        old(reader)@.data,
                        columns.deep_view(),
                        old(reader)@.pos,
                        strings_offset as int,
                        data_offset as int,
                        columns@.len(),
                    ) matches Ok((cells, _))
                    &&& row.deep_view() == cells
                },
                Err(e) => {
                    &&& parse_row(
                        old(reader)@.data,
                        columns.deep_view(),
                        old(reader)@.pos,
                        strings_offset as int,
                        data_offset as int,
                        columns@.len(),
                    ) matches Err(kind)
                    &&& e.kind() == kind
                },
            },
    {
        let ghost data = reader@.data;
        let ghost start = reader@.pos;
        let mut row: Vec<Cell> = Vec::new();
        let mut j: usize = 0;
        while j < columns.len()
            invariant
                j <= columns@.len(),
                data == old(reader)@.data,
                start == old(reader)@.pos,
                reader@.data == data,
                !reader@.little_endian,
                strings_offset <= max_heap_offset(),
                data_offset <= max_heap_offset(),
                parse_row(
                    data,
                    columns.deep_view(),
                    start,
                    strings_offset as int,
                    data_offset as int,
                    j as nat,
                ) matches Ok((cells, at)) && row.deep_view() == cells && reader@.pos == at,
            decreases columns@.len() - j,
        {
            match Self::read_cell(reader, columns[j].flags, strings_offset, data_offset) {
                Ok(cell) => {
                    row.push(cell);
                    j = j + 1;
                },
                Err(e) => {
                    proof {
                        lemma_row_failure_stays(
                            data,
                            columns.deep_view(),
                            start,
                            strings_offset as int,
                            data_offset as int,
                            (j + 1) as nat,
                            columns@.len(),
                        );
                    }
                    return Err(e);
                },
            }
        }
        Ok(row)
    }
}

impl Utf {
    /// The index of the first column called `name`.
    fn column_index(&self, name: &str) -> (r: Option<usize>)
        ensures
            match r {
                Some(index) => {
                    &&& self.deep_view().column_index(name@) == Some(index as int)
                    &&& index < self.columns@.len()
                },
                None => self.deep_view().column_index(name@) is None,
            },
    {
        let wanted = String::from_str(name);
        let ghost columns = self.columns.deep_view();
        let mut k: usize = 0;
        while k < self.columns.len()
            invariant
                k <= self.columns@.len(),
                wanted@ == name@,
                columns == self.columns.deep_view(),
                find_column(columns, name@, 0) == find_column(columns, name@, k as int),
            decreases self.columns@.len() - k,
        {
            if self.columns[k].name == wanted {
                return Some(k);
            }
            k = k + 1;
        }
        None
    }

    /// The value of the cell of row `row` in the first column called
    /// `column_name`, if there is such a cell.
    pub fn get_column_data(&self, row: usize, column_name: &str) -> (r: Option<&CellValue>)
        ensures
            match r {
                Some(value) => self.deep_view().value(
                    row as int,
                    column_name@,
                ) == Some(value.deep_view()),
                None => self.deep_view().value(row as int, column_name@) is None,
            },
    {
        let col_index = self.column_index(column_name)?;
        if row < self.rows.len() && col_index < self.rows[row].len() {
            Some(&self.rows[row][col_index].value)
        } else {
            None
        }
    }

    /// Where in the table's bytes that cell was read.
    pub fn get_column_position(&self, row: usize, column_name: &str) -> (r: Option<u64>)
        ensures
            match r {
                Some(position) => {
                    &&& self.deep_view().cell(row as int, column_name@) matches Some(cell)
                    &&& cell.position == position
                },
                None => self.deep_view().cell(row as int, column_name@) is None,
            },
    {
        let col_index = self.column_index(column_name)?;
        if row < self.rows.len() && col_index < self.rows[row].len() {
            Some(self.rows[row][col_index].position)
        } else {
            None
        }
    }

    /// The value of that cell; where the cell is missing or absent, the
    /// all-ones value of the width that `default_type` asks for (0 for
    /// 8 bits, 1 for 16, 2 for 32, 3 for 64, else an absent value).
    pub fn get_column_data_or_default(&self, row: usize, column_name: &str, default_type: u8) -> (r:
        CellValue)
        ensures
            r.deep_view() == self.deep_view().value_or_default(
                row as int,
                column_name@,
                default_type,
            ),
    {
        match self.get_column_data(row, column_name) {
            Some(CellValue::Absent) | None => {
                if default_type == 0 {
                    CellValue::UInt8(0xFF)
                } else if default_type == 1 {
                    CellValue::UInt16(0xFFFF)
                } else if default_type == 2 {
                    CellValue::UInt32(0xFFFF_FFFF)
                } else if default_type == 3 {
                    CellValue::UInt64(0xFFFF_FFFF_FFFF_FFFF)
                } else {
                    CellValue::Absent
                }
            },
            Some(value) => value.duplicate(),
        }
    }
}

/// What is said of a heap whose offset lies behind the end of a table of
/// `len` bytes: which heap it is, its offset and the length, in decimal.
pub open spec fn exceeds_text(what: Seq<char>, offset: nat, len: nat) -> Seq<char> {
    what + decimal_digits(offset) + ") exceeds buffer size ("@ + decimal_digits(len) + ")"@
}

} // verus!
