//! The state of a sheet that is written row by row.

use vstd::prelude::*;
use crate::big_buffer::BigBuffer;
use crate::error::{SpreadsheetError, SpreadsheetResult};
use crate::writer_helpers::init_col_widths;

verus! {

/// The sheet being written row by row, if any.
#[derive(Debug)]
pub struct StreamingSheetState {
    pub is_streaming: bool,
    pub row_num: u32,
    pub start_col: usize,
    pub end_col: usize,
    pub do_autofilter: bool,
    /// Column widths in hundredths of a character.
    pub col_widths: Vec<i64>,
    pub buffer: Option<BigBuffer>,
}

impl StreamingSheetState {
    /// No sheet is being written.
    pub open spec fn is_idle(self) -> bool {
        &&& !self.is_streaming
        &&& self.row_num == 0
        &&& self.start_col == 0
        &&& self.end_col == 0
        &&& !self.do_autofilter
        &&& self.col_widths@ == Seq::<i64>::empty()
        &&& self.buffer is None
    }

    /// A sheet of `column_count` columns has just been begun.
    pub open spec fn has_begun(
        self,
        column_count: usize,
        do_autofilter: bool,
        buffer: BigBuffer,
    ) -> bool {
        &&& self.is_streaming
        &&& self.row_num == 0
        &&& self.start_col == 0
        &&& self.end_col == column_count
        &&& self.do_autofilter == do_autofilter
        &&& self.col_widths@ == Seq::new(column_count as nat, |i: int| -100i64)
        &&& self.buffer == Some(buffer)
    }

    pub fn new() -> (r: Self)
        ensures
            r.is_idle(),
    {
        StreamingSheetState {
            is_streaming: false,
            row_num: 0,
            start_col: 0,
            end_col: 0,
            do_autofilter: false,
            col_widths: Vec::new(),
            buffer: None,
        }
    }

    /// Begins a sheet. No other may be open.
    pub fn begin(&mut self, column_count: usize, do_autofilter: bool, buffer: BigBuffer)
        requires
            !old(self).is_streaming,
        ensures
            final(self).has_begun(column_count, do_autofilter, buffer),
    {
        self.is_streaming = true;
        self.buffer = Some(buffer);
        self.row_num = 0;
        self.start_col = 0;
        self.end_col = column_count;
        self.do_autofilter = do_autofilter;
        self.col_widths = init_col_widths(column_count);
    }

    /// Begins a sheet, unless another is open.
    pub fn try_begin(
        &mut self,
        column_count: usize,
        do_autofilter: bool,
        buffer: BigBuffer,
    ) -> (r: SpreadsheetResult<()>)
        ensures
            match r {
                Ok(_) => !old(self).is_streaming && final(self).has_begun(
                    column_count,
                    do_autofilter,
                    buffer,
                ),
                Err(e) => old(self).is_streaming && e is AlreadyStreaming && *final(self) == *old(self),
            },
    {
        if self.is_streaming {
            return Err(SpreadsheetError::AlreadyStreaming);
        }
        self.begin(column_count, do_autofilter, buffer);
        Ok(())
    }

    /// The buffer of the open sheet.
    pub fn assert_streaming(&mut self) -> (r: SpreadsheetResult<&mut BigBuffer>)
        ensures
            match r {
                Ok(buffer) => {
                    &&& old(self).is_streaming
                    &&& old(self).buffer == Some(*buffer)
                    &&& *final(self) == (StreamingSheetState {
                        buffer: Some(*final(buffer)),
                        ..*old(self)
                    })
                },
                Err(e) => (!old(self).is_streaming || old(self).buffer is None)
                    && e is NotStreaming && *final(self) == *old(self),
            },
    {
        if !self.is_streaming {
            return Err(SpreadsheetError::NotStreaming);
        }
        match self.buffer.as_mut() {
            Some(buffer) => Ok(buffer),
            None => Err(SpreadsheetError::NotStreaming),
        }
    }

    /// Closes the sheet.
    pub fn end(&mut self)
        ensures
            final(self).is_idle(),
    {
        self.is_streaming = false;
        self.buffer = None;
        self.row_num = 0;
        self.start_col = 0;
        self.end_col = 0;
        self.do_autofilter = false;
        self.col_widths.clear();
    }
}

impl Default for StreamingSheetState {
    fn default() -> (r: Self)
        ensures
            r.is_idle(),
    {
        StreamingSheetState::new()
    }
}

} // verus!
