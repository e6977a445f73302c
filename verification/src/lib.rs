//! Reading, writing and updating Excel workbooks (XLSX and XLSB) with proved
//! encoders, decoders and document builders.
//!
//! The library works on bytes and characters in memory: the parts of a workbook's
//! archive go in and come out. It does no floating-point arithmetic; numbers are
//! bit patterns, and the texts of doubles come from outside.

pub mod error;
pub mod text;
pub mod utf16;
pub mod number;
pub mod datetime;
pub mod formats;
pub mod string_table;
pub mod name_map;

pub mod biff12;
pub mod big_buffer;
pub mod biff_reader;
pub mod encoding_laws;

pub mod xml_utils;
pub mod xml_tags;
pub mod xml_patch;
pub mod xml_events;
pub mod markup;
pub mod markup_writer;
pub mod xml_documents;
pub mod relationships;
pub mod relationship_laws;

pub mod writer_helpers;
pub mod streaming_state;
pub mod sheet_tables;

pub mod xlsx_cells;
pub mod xlsx_parts;
pub mod xlsx_style_part;
pub mod xlsx_writer;
pub mod xlsx_laws;
pub mod xlsx_markup;
pub mod xlsx_scan;
pub mod xlsx_rows;
pub mod xlsx_reader;
pub mod xlsx_cell_reader;
pub mod xlsx_date_style_laws;
pub mod xlsx_placed_laws;
pub mod xlsx_placed_cell_laws;
pub mod xlsx_range_laws;
pub mod xlsx_run_laws;
pub mod xlsx_workbook_laws;
pub mod xlsb_patch_laws;
pub mod width_laws;
pub mod xlsx_look_laws;
pub mod xlsx_pivot_laws;
pub mod sheet_frame_laws;
pub mod name_laws;
pub mod xlsx_read_laws;
pub mod xlsx_frame;
pub mod xlsx_cell_laws;
pub mod xlsx_string_laws;
pub mod xlsx_string_update;
pub mod xlsx_book_laws;
pub mod xlsx_style_laws;
pub mod xlsx_roundtrip_laws;
pub mod xlsx_call_laws;

pub mod xlsb_cells;
pub mod xlsb_templates;
pub mod xlsb_parts;
pub mod xlsb_xml;
pub mod xlsb_writer;
pub mod xlsb_reader;
pub mod xlsb_laws;
pub mod xlsb_cell_laws;
pub mod xlsb_record_laws;
pub mod xlsb_part_laws;
pub mod xlsb_string_laws;
pub mod xlsb_style_laws;
pub mod xlsb_roundtrip_laws;
pub mod xlsb_call_laws;

pub mod zip_store;
pub mod xlsx_styles;
pub mod xlsx_patch;
pub mod xlsx_update_rows;
pub mod xlsx_package;
pub mod xlsx_updater;
pub mod xlsx_update_laws;
pub mod xlsx_update_read;
pub mod xlsx_sheet_markup;
pub mod xlsx_range_markup;
pub mod xlsx_row_markup;
pub mod xlsx_replaced_markup;
pub mod xlsx_updated_laws;
pub mod xlsx_stream_laws;
pub mod xlsx_tidy_laws;
pub mod xlsb_patch;
pub mod xlsb_update_rows;
pub mod xlsb_package;
pub mod xlsb_updater;
pub mod xlsb_update_laws;
pub mod xlsb_update_read;
pub mod xlsb_walk_laws;
pub mod xlsb_stream_laws;
pub mod xlsb_updated_laws;

pub mod atomic_file;
pub mod reader_factory;

pub use atomic_file::{install_temporary_output, AtomicFileOperations};
pub use biff12::{
    build_record, read_record, read_utf16, read_vlq, try_read_utf16, uses_1904_date_system_bin,
    vlq_bytes, vlq_length, Biff12Record,
};
pub use big_buffer::BigBuffer;
pub use datetime::{
    oa_epoch_naive, EXCEL_1904_DATE_OFFSET_DAYS, EXCEL_MAX_COLUMNS, EXCEL_MAX_ROWS,
};
pub use error::{SpreadsheetError, SpreadsheetResult};
pub use formats::{
    get_format, is_formatted_cell, unwrap_cell, CellRef, CellValue, CellValueRef, FormattedCell,
    PrimitiveCellValue, F,
};
pub use reader_factory::{create_reader, ReaderKind, SpreadsheetCellReader, SpreadsheetReader};
pub use streaming_state::StreamingSheetState;
pub use writer_helpers::{
    apply_header_widths, default_col_width, init_col_widths, sanitize_sheet_name,
    update_col_widths_from_rows,
};
pub use xlsb_reader::{XlsbCellReader, XlsbReader};
pub use xlsb_updater::XlsbUpdater;
pub use xlsb_writer::{XlsbSheetOptions, XlsbWriter};
pub use xlsx_cell_reader::XlsxCellReader;
pub use xlsx_package::{ReplaceSheetDataOptions, StyleFallback};
pub use xlsx_reader::XlsxReader;
pub use xlsx_updater::{XlsmUpdater, XlsxUpdater};
pub use xlsx_writer::{SheetOptions, XlsxWriter};
pub use xml_documents::{parse_shared_strings_xml, uses_1904_date_system};
pub use xml_utils::{
    column_index_to_letter, column_letter_to_index, escape_xml_text, trim_trailing_empty_rows,
    try_column_letter_to_index, unescape_xml,
};
