//! The layout of an `@UTF` table in bytes, stated as functions from the
//! bytes to the table they hold.
use crate::byte_order::{bytes_at, uint_at};
use crate::endian::cstring_bytes;
use crate::error::ErrorKind;
use crate::text::{decimal_digits, shift_jis_text};
use crate::utf::{CellData, CellModel, ColumnFlags, ColumnModel, ColumnType};
use vstd::prelude::*;

verus! {

/// The four bytes `@UTF` that start every table.
pub open spec fn utf_signature() -> Seq<u8> {
    seq![0x40u8, 0x55u8, 0x54u8, 0x46u8]
}

/// The number of bytes of the fixed header of a table.
pub open spec fn header_len() -> int {
    32
}

/// The longest name or string that is read from the strings heap.
pub open spec fn max_string_len() -> nat {
    255
}

/// A big-endian number of `width` bytes at `at`.
pub open spec fn be_at(data: Seq<u8>, at: int, width: int) -> nat {
    uint_at(data, at, width, false)
}

/// The fixed header of a table, with the three heap offsets rebased to
/// positions in the table's bytes.
pub struct UtfHeader {
    pub table_size: u32,
    pub rows_offset: u64,
    pub strings_offset: u64,
    pub data_offset: u64,
    pub table_name: u32,
    pub num_columns: u16,
    pub row_length: u16,
    pub num_rows: u32,
}

/// The header that the first 32 bytes of `data` hold. The heap offsets are
/// stored relative to the byte behind the table size, eight bytes in.
pub open spec fn header_of(data: Seq<u8>) -> UtfHeader {
    UtfHeader {
        table_size: be_at(data, 4, 4) as u32,
        rows_offset: (be_at(data, 8, 4) + 8) as u64,
        strings_offset: (be_at(data, 12, 4) + 8) as u64,
        data_offset: (be_at(data, 16, 4) + 8) as u64,
        table_name: be_at(data, 20, 4) as u32,
        num_columns: be_at(data, 24, 2) as u16,
        row_length: be_at(data, 26, 2) as u16,
        num_rows: be_at(data, 28, 4) as u32,
    }
}

/// The header of `data`, or why `data` has none: it is too short, it does
/// not start with `@UTF`, or a heap starts behind its end.
pub open spec fn parse_header(data: Seq<u8>) -> std::result::Result<UtfHeader, ErrorKind> {
    if data.len() < 4 {
        Err(ErrorKind::Io)
    } else if data.subrange(0, 4) != utf_signature() {
        Err(ErrorKind::InvalidUtfSignature)
    } else if data.len() < header_len() {
        Err(ErrorKind::Io)
    } else {
        let header = header_of(data);
        if header.rows_offset > data.len() || header.strings_offset > data.len()
            || header.data_offset > data.len() {
            Err(ErrorKind::InvalidFormat)
        } else {
            Ok(header)
        }
    }
}

/// The name given to the column `index` where the table holds none.
pub open spec fn synthetic_name(index: nat) -> Seq<char> {
    "Column"@ + decimal_digits(index)
}

/// The name of the column `index` whose stored name decodes to `decoded`:
/// an empty name is replaced by the synthetic one.
pub open spec fn resolved_name(decoded: Seq<char>, index: nat) -> Seq<char> {
    if decoded.len() == 0 {
        synthetic_name(index)
    } else {
        decoded
    }
}

/// The text of the string at `offset` in the heap that starts at `heap`.
pub open spec fn string_at(data: Seq<u8>, heap: int, offset: int) -> Seq<char> {
    shift_jis_text(cstring_bytes(data, heap + offset, max_string_len()))
}

/// The name of the column `index`, stored at `name_offset` in the strings
/// heap. A name outside the table is replaced by the synthetic one.
pub open spec fn column_name(
    data: Seq<u8>,
    strings_offset: int,
    name_offset: int,
    index: nat,
) -> Seq<char> {
    if strings_offset + name_offset >= data.len() {
        synthetic_name(index)
    } else {
        resolved_name(string_at(data, strings_offset, name_offset), index)
    }
}

/// Where the flags byte of the column descriptor at `at` stands: a zero
/// byte at `at` means that the flags follow three bytes later.
pub open spec fn flags_position(data: Seq<u8>, at: int) -> int {
    if data[at] != 0 {
        at
    } else {
        at + 4
    }
}

/// The column whose descriptor starts at `at`, and where the next
/// descriptor starts.
pub open spec fn parse_column(data: Seq<u8>, at: int, strings_offset: int, index: nat)
    -> std::result::Result<(ColumnModel, int), ErrorKind> {
    if at >= data.len() {
        Err(ErrorKind::Io)
    } else {
        let flags_at = flags_position(data, at);
        if flags_at + 5 > data.len() {
            Err(ErrorKind::Io)
        } else {
            let name_offset = be_at(data, flags_at + 1, 4) as int;
            Ok(
                (
                    ColumnModel {
                        flags: data[flags_at],
                        name: column_name(data, strings_offset, name_offset, index),
                    },
                    flags_at + 5,
                ),
            )
        }
    }
}

/// The first `count` columns, and where the descriptor behind them starts.
pub open spec fn parse_columns(data: Seq<u8>, strings_offset: int, count: nat)
    -> std::result::Result<(Seq<ColumnModel>, int), ErrorKind>
    decreases count,
{
    if count == 0 {
        Ok((Seq::empty(), header_len()))
    } else {
        match parse_columns(data, strings_offset, (count - 1) as nat) {
            Err(e) => Err(e),
            Ok((columns, at)) => match parse_column(
                data,
                at,
                strings_offset,
                (count - 1) as nat,
            ) {
                Err(e) => Err(e),
                Ok((column, next)) => Ok((columns.push(column), next)),
            },
        }
    }
}

/// The number of bytes that a cell of a column with these flags takes in
/// its row: none unless the column is stored per row and of a known type.
pub open spec fn cell_width(flags: u8) -> nat {
    match (ColumnFlags::of_flags(flags), ColumnType::of_flags(flags)) {
        (Some(ColumnFlags::StoragePerRow), Some(kind)) => kind.width(),
        _ => 0,
    }
}

/// The value of a per-row cell of type `kind` at `at`, or why it cannot be
/// read: the row, the string or the blob runs over the end of the table.
pub open spec fn parse_value(
    data: Seq<u8>,
    kind: ColumnType,
    at: int,
    strings_offset: int,
    data_offset: int,
) -> std::result::Result<CellData, ErrorKind> {
    if at + kind.width() > data.len() {
        Err(ErrorKind::Io)
    } else {
        match kind {
            ColumnType::UInt8 | ColumnType::Int8 => Ok(CellData::UInt8(data[at])),
            ColumnType::UInt16 | ColumnType::Int16 => Ok(
                CellData::UInt16(be_at(data, at, 2) as u16),
            ),
            ColumnType::UInt32 | ColumnType::Int32 => Ok(
                CellData::UInt32(be_at(data, at, 4) as u32),
            ),
            ColumnType::UInt64 | ColumnType::Int64 => Ok(
                CellData::UInt64(be_at(data, at, 8) as u64),
            ),
            ColumnType::Float => Ok(CellData::Float(be_at(data, at, 4) as u32)),
            ColumnType::String => {
                let offset = be_at(data, at, 4) as int;
                if strings_offset + offset >= data.len() {
                    Err(ErrorKind::Io)
                } else {
                    Ok(CellData::Text(string_at(data, strings_offset, offset)))
                }
            },
            ColumnType::Data => {
                let start = data_offset + be_at(data, at, 4);
                let size = be_at(data, at + 4, 4);
                if size > 0 && start + size > data.len() {
                    Err(ErrorKind::Io)
                } else {
                    Ok(CellData::Bytes(bytes_at(data, start, size)))
                }
            },
        }
    }
}

/// The cell at `at` of a column with these flags, and where the next cell
/// of the row starts. A column that is not stored per row takes no bytes
/// and gives an absent cell.
pub open spec fn parse_cell(
    data: Seq<u8>,
    flags: u8,
    at: int,
    strings_offset: int,
    data_offset: int,
) -> std::result::Result<(CellModel, int), ErrorKind> {
    match ColumnFlags::of_flags(flags) {
        None => Err(ErrorKind::Parse),
        Some(ColumnFlags::StoragePerRow) => match ColumnType::of_flags(flags) {
            None => Err(ErrorKind::Parse),
            Some(kind) => match parse_value(data, kind, at, strings_offset, data_offset) {
                Err(e) => Err(e),
                Ok(value) => Ok((CellModel { value, position: at }, at + kind.width())),
            },
        },
        Some(_) => Ok((CellModel { value: CellData::Absent, position: at }, at)),
    }
}

/// The first `count` cells of the row that starts at `at`, and where the
/// cell behind them starts.
pub open spec fn parse_row(
    data: Seq<u8>,
    columns: Seq<ColumnModel>,
    at: int,
    strings_offset: int,
    data_offset: int,
    count: nat,
) -> std::result::Result<(Seq<CellModel>, int), ErrorKind>
    decreases count,
{
    if count == 0 {
        Ok((Seq::empty(), at))
    } else {
        match parse_row(data, columns, at, strings_offset, data_offset, (count - 1) as nat) {
            Err(e) => Err(e),
            Ok((cells, cursor)) => match parse_cell(
                data,
                columns[count - 1].flags,
                cursor,
                strings_offset,
                data_offset,
            ) {
                Err(e) => Err(e),
                Ok((cell, next)) => Ok((cells.push(cell), next)),
            },
        }
    }
}

/// Where the row `index` starts.
pub open spec fn row_start(header: UtfHeader, index: int) -> int {
    header.rows_offset + index * header.row_length
}

/// The first `count` rows of the table.
pub open spec fn parse_rows(
    data: Seq<u8>,
    columns: Seq<ColumnModel>,
    header: UtfHeader,
    count: nat,
) -> std::result::Result<Seq<Seq<CellModel>>, ErrorKind>
    decreases count,
{
    if count == 0 {
        Ok(Seq::empty())
    } else {
        match parse_rows(data, columns, header, (count - 1) as nat) {
            Err(e) => Err(e),
            Ok(rows) => match parse_row(
                data,
                columns,
                row_start(header, count - 1),
                header.strings_offset as int,
                header.data_offset as int,
                columns.len(),
            ) {
                Err(e) => Err(e),
                Ok((cells, _)) => Ok(rows.push(cells)),
            },
        }
    }
}

/// A table as contracts see it.
pub struct UtfModel {
    pub table_size: u32,
    pub rows_offset: u64,
    pub strings_offset: u64,
    pub data_offset: u64,
    pub table_name: u32,
    pub num_columns: u16,
    pub row_length: u16,
    pub num_rows: u32,
    pub columns: Seq<ColumnModel>,
    pub rows: Seq<Seq<CellModel>>,
}

/// The table with this header, these columns and these rows.
pub open spec fn table_of(
    header: UtfHeader,
    columns: Seq<ColumnModel>,
    rows: Seq<Seq<CellModel>>,
) -> UtfModel {
    UtfModel {
        table_size: header.table_size,
        rows_offset: header.rows_offset,
        strings_offset: header.strings_offset,
        data_offset: header.data_offset,
        table_name: header.table_name,
        num_columns: header.num_columns,
        row_length: header.row_length,
        num_rows: header.num_rows,
        columns,
        rows,
    }
}

/// The table that `data` holds, or why it holds none. The first failure
/// in the order header, columns, rows (row by row, cell by cell) decides.
pub open spec fn parse_utf(data: Seq<u8>) -> std::result::Result<UtfModel, ErrorKind> {
    match parse_header(data) {
        Err(e) => Err(e),
        Ok(header) => match parse_columns(
            data,
            header.strings_offset as int,
            header.num_columns as nat,
        ) {
            Err(e) => Err(e),
            Ok((columns, _)) => match parse_rows(data, columns, header, header.num_rows as nat) {
                Err(e) => Err(e),
                Ok(rows) => Ok(table_of(header, columns, rows)),
            },
        },
    }
}

/// Once a column cannot be read, no longer list of columns can.
pub proof fn lemma_columns_failure_stays(
    data: Seq<u8>,
    strings_offset: int,
    count: nat,
    more: nat,
)
    requires
        count <= more,
        parse_columns(data, strings_offset, count) is Err,
    ensures
        parse_columns(data, strings_offset, more) == parse_columns(data, strings_offset, count),
    decreases more,
{
    if count < more {
        lemma_columns_failure_stays(data, strings_offset, count, (more - 1) as nat);
    }
}

/// Once a cell cannot be read, no longer part of its row can.
pub proof fn lemma_row_failure_stays(
    data: Seq<u8>,
    columns: Seq<ColumnModel>,
    at: int,
    strings_offset: int,
    data_offset: int,
    count: nat,
    more: nat,
)
    requires
        count <= more,
        parse_row(data, columns, at, strings_offset, data_offset, count) is Err,
    ensures
        parse_row(data, columns, at, strings_offset, data_offset, more) == parse_row(
            data,
            columns,
            at,
            strings_offset,
            data_offset,
            count,
        ),
    decreases more,
{
    if count < more {
        lemma_row_failure_stays(
            data,
            columns,
            at,
            strings_offset,
            data_offset,
            count,
            (more - 1) as nat,
        );
    }
}

/// Once a row cannot be read, no longer list of rows can.
pub proof fn lemma_rows_failure_stays(
    data: Seq<u8>,
    columns: Seq<ColumnModel>,
    header: UtfHeader,
    count: nat,
    more: nat,
)
    requires
        count <= more,
        parse_rows(data, columns, header, count) is Err,
    ensures
        parse_rows(data, columns, header, more) == parse_rows(data, columns, header, count),
    decreases more,
{
    if count < more {
        lemma_rows_failure_stays(data, columns, header, count, (more - 1) as nat);
    }
}

/// The first column at or behind `from` that is called `name`.
pub open spec fn find_column(columns: Seq<ColumnModel>, name: Seq<char>, from: int) -> Option<int>
    decreases columns.len() - from,
{
    if from < 0 || from >= columns.len() {
        None
    } else if columns[from].name == name {
        Some(from)
    } else {
        find_column(columns, name, from + 1)
    }
}

/// The all-ones value of the width that `default_type` asks for: 0 for
/// 8 bits, 1 for 16, 2 for 32, 3 for 64. Any other number asks for none.
pub open spec fn default_value(default_type: u8) -> CellData {
    if default_type == 0 {
        CellData::UInt8(0xFF)
    } else if default_type == 1 {
        CellData::UInt16(0xFFFF)
    } else if default_type == 2 {
        CellData::UInt32(0xFFFF_FFFF)
    } else if default_type == 3 {
        CellData::UInt64(0xFFFF_FFFF_FFFF_FFFF)
    } else {
        CellData::Absent
    }
}

impl UtfModel {
    /// The first column called `name`.
    pub open spec fn column_index(self, name: Seq<char>) -> Option<int> {
        find_column(self.columns, name, 0)
    }

    /// The cell of the row `row` in the first column called `name`.
    pub open spec fn cell(self, row: int, name: Seq<char>) -> Option<CellModel> {
        match self.column_index(name) {
            None => None,
            Some(column) => if 0 <= row < self.rows.len() && column < self.rows[row].len() {
                Some(self.rows[row][column])
            } else {
                None
            },
        }
    }

    /// The value of that cell.
    pub open spec fn value(self, row: int, name: Seq<char>) -> Option<CellData> {
        match self.cell(row, name) {
            None => None,
            Some(cell) => Some(cell.value),
        }
    }

    /// The value of that cell, or the all-ones value that `default_type`
    /// asks for where the cell is missing or absent.
    pub open spec fn value_or_default(self, row: int, name: Seq<char>, default_type: u8)
        -> CellData {
        match self.value(row, name) {
            None | Some(CellData::Absent) => default_value(default_type),
            Some(value) => value,
        }
    }

    /// Where the cell of row `row` and column `column` starts: at the start
    /// of its row, behind the cells of the columns before it.
    pub open spec fn cell_position(self, row: int, column: int) -> int {
        self.rows_offset + row * self.row_length + column_offset(self.columns, column as nat)
    }

    /// Whether every column that is stored per row starts inside the
    /// stride that the header declares for a row. A table without rows
    /// has no cell that could start elsewhere.
    pub open spec fn rows_fit(self) -> bool {
        self.num_rows == 0 || forall|column: int|
            0 <= column < self.columns.len() && stored_per_row(
                #[trigger] self.columns[column].flags,
            ) ==> column_offset(self.columns, column as nat) < self.row_length
    }
}

/// Whether a column with these flags stores a value in every row.
pub open spec fn stored_per_row(flags: u8) -> bool {
    ColumnFlags::of_flags(flags) == Some(ColumnFlags::StoragePerRow)
}

/// The number of bytes that the cells of the first `count` columns take
/// in a row.
pub open spec fn column_offset(columns: Seq<ColumnModel>, count: nat) -> nat
    decreases count,
{
    if count == 0 {
        0
    } else {
        column_offset(columns, (count - 1) as nat) + cell_width(columns[count - 1].flags)
    }
}

/// The cells of a parsed row stand one behind the other from the start of
/// the row, and only the cells of columns stored per row hold a value.
pub proof fn lemma_row_layout(
    data: Seq<u8>,
    columns: Seq<ColumnModel>,
    at: int,
    strings_offset: int,
    data_offset: int,
    count: nat,
)
    requires
        parse_row(data, columns, at, strings_offset, data_offset, count) is Ok,
    ensures
        ({
            let (cells, next) = parse_row(
                data,
                columns,
                at,
                strings_offset,
                data_offset,
                count,
            )->Ok_0;
            &&& cells.len() == count
            &&& next == at + column_offset(columns, count)
            &&& forall|j: int|
                0 <= j < count ==> (#[trigger] cells[j]).position == at + column_offset(
                    columns,
                    j as nat,
                )
            &&& forall|j: int|
                0 <= j < count && !stored_per_row(columns[j].flags) ==> (#[trigger] cells[j]).value
                    == CellData::Absent
        }),
    decreases count,
{
    if count > 0 {
        lemma_row_layout(data, columns, at, strings_offset, data_offset, (count - 1) as nat);
    }
}

/// A parsed list of columns has as many columns as were asked for.
pub proof fn lemma_columns_len(data: Seq<u8>, strings_offset: int, count: nat)
    requires
        parse_columns(data, strings_offset, count) is Ok,
    ensures
        parse_columns(data, strings_offset, count)->Ok_0.0.len() == count,
    decreases count,
{
    if count > 0 {
        lemma_columns_len(data, strings_offset, (count - 1) as nat);
    }
}

/// Whether `cells` are the cells of the row `index` of the table.
pub open spec fn is_row(
    data: Seq<u8>,
    columns: Seq<ColumnModel>,
    header: UtfHeader,
    index: int,
    cells: Seq<CellModel>,
) -> bool {
    parse_row(
        data,
        columns,
        row_start(header, index),
        header.strings_offset as int,
        header.data_offset as int,
        columns.len(),
    ) matches Ok((found, _)) && found == cells
}

/// Each of the parsed rows is the row that stands at its place in the table.
pub proof fn lemma_rows_layout(
    data: Seq<u8>,
    columns: Seq<ColumnModel>,
    header: UtfHeader,
    count: nat,
)
    requires
        parse_rows(data, columns, header, count) is Ok,
    ensures
        parse_rows(data, columns, header, count)->Ok_0.len() == count,
        forall|i: int|
            0 <= i < count ==> is_row(
                data,
                columns,
                header,
                i,
                #[trigger] parse_rows(data, columns, header, count)->Ok_0[i],
            ),
    decreases count,
{
    if count > 0 {
        lemma_rows_layout(data, columns, header, (count - 1) as nat);
    }
}

/// In every parsed table the three heaps start inside the table's bytes.
pub proof fn lemma_heaps_inside_table(data: Seq<u8>)
    requires
        parse_utf(data) is Ok,
    ensures
        parse_utf(data)->Ok_0.rows_offset <= data.len(),
        parse_utf(data)->Ok_0.strings_offset <= data.len(),
        parse_utf(data)->Ok_0.data_offset <= data.len(),
{
}

/// In every parsed table there are as many columns and rows as the header
/// declares, every row has a cell for every column, and every cell records
/// where the cursor stood when it was read: at the start of its row, behind
/// the cells before it. A cell of a column that is not stored per row is
/// absent and took no bytes.
pub proof fn lemma_cell_positions(data: Seq<u8>)
    requires
        parse_utf(data) is Ok,
    ensures
        ({
            let table = parse_utf(data)->Ok_0;
            &&& table.columns.len() == table.num_columns
            &&& table.rows.len() == table.num_rows
            &&& forall|i: int|
                0 <= i < table.rows.len() ==> (#[trigger] table.rows[i]).len()
                    == table.columns.len()
            &&& forall|i: int, j: int|
                0 <= i < table.rows.len() && 0 <= j < table.columns.len() ==> (
                #[trigger] table.rows[i][j]).position == table.cell_position(i, j)
            &&& forall|i: int, j: int|
                0 <= i < table.rows.len() && 0 <= j < table.columns.len() && !stored_per_row(
                    table.columns[j].flags,
                ) ==> (#[trigger] table.rows[i][j]).value == CellData::Absent
        }),
{
    let header = parse_header(data)->Ok_0;
    let strings = header.strings_offset as int;
    let columns = parse_columns(data, strings, header.num_columns as nat)->Ok_0.0;
    let table = parse_utf(data)->Ok_0;
    lemma_columns_len(data, strings, header.num_columns as nat);
    lemma_rows_layout(data, columns, header, header.num_rows as nat);
    assert forall|i: int| 0 <= i < table.rows.len() implies (#[trigger] table.rows[i]).len()
        == table.columns.len() && (forall|j: int|
        0 <= j < table.columns.len() ==> (#[trigger] table.rows[i][j]).position
            == table.cell_position(i, j)) && (forall|j: int|
        0 <= j < table.columns.len() && !stored_per_row(table.columns[j].flags) ==> (
        #[trigger] table.rows[i][j]).value == CellData::Absent) by {
        lemma_row_layout(
            data,
            columns,
            row_start(header, i),
            strings,
            header.data_offset as int,
            columns.len(),
        );
    }
}

/// In a parsed table whose per-row columns start inside the declared row
/// stride, every cell of such a column lies in the rows area: at or behind
/// its start, and before the end of the last row.
pub proof fn lemma_cells_inside_rows(data: Seq<u8>)
    requires
        parse_utf(data) is Ok,
        parse_utf(data)->Ok_0.rows_fit(),
    ensures
        ({
            let table = parse_utf(data)->Ok_0;
            forall|i: int, j: int|
                0 <= i < table.rows.len() && 0 <= j < table.columns.len() && stored_per_row(
                    table.columns[j].flags,
                ) ==> table.rows_offset <= (#[trigger] table.rows[i][j]).position
                    < table.rows_offset + table.num_rows * table.row_length
        }),
{
    let table = parse_utf(data)->Ok_0;
    lemma_cell_positions(data);
    assert forall|i: int, j: int|
        0 <= i < table.rows.len() && 0 <= j < table.columns.len() && stored_per_row(
            table.columns[j].flags,
        ) implies table.rows_offset <= (#[trigger] table.rows[i][j]).position
        < table.rows_offset + table.num_rows * table.row_length by {
        let stride = table.row_length as int;
        let count = table.num_rows as int;
        assert(0 <= i * stride && i * stride + stride <= count * stride) by (nonlinear_arith)
            requires
                0 <= i < count,
                0 <= stride,
        ;
    }
}

/// In a parsed table with a per-row column that starts outside the
/// declared row stride, the cell of that column in the last row lies
/// behind the rows area.
pub proof fn lemma_cell_outside_rows(data: Seq<u8>)
    requires
        parse_utf(data) is Ok,
        !parse_utf(data)->Ok_0.rows_fit(),
    ensures
        ({
            let table = parse_utf(data)->Ok_0;
            exists|i: int, j: int|
                0 <= i < table.rows.len() && 0 <= j < table.columns.len() && stored_per_row(
                    table.columns[j].flags,
                ) && (#[trigger] table.rows[i][j]).position >= table.rows_offset + table.num_rows
                    * table.row_length
        }),
{
    let table = parse_utf(data)->Ok_0;
    lemma_cell_positions(data);
    let j = choose|column: int|
        0 <= column < table.columns.len() && stored_per_row(
            #[trigger] table.columns[column].flags,
        ) && column_offset(table.columns, column as nat) >= table.row_length;
    let i = table.num_rows - 1;
    let stride = table.row_length as int;
    let count = table.num_rows as int;
    assert(i * stride + stride == count * stride) by (nonlinear_arith)
        requires
            i == count - 1,
    ;
    assert(table.rows[i][j].position == table.cell_position(i, j));
}

} // verus!
