//! Where in a file bytes may be written.

use vstd::prelude::*;
use vstd::string::StringExecFns;
use crate::utils::numbers::push_decimal;
#[allow(unused_imports)]
use crate::utils::numbers::decimal;

verus! {

/// Why bytes cannot be written.
#[derive(Debug, Clone, Copy, PartialEq, Eq, Structural)]
pub enum WriteError {
    /// They would end where no number reaches.
    Overflow,
    /// They would end behind the end of the file.
    OutOfBounds { size: u64, end: u64 },
    /// Nothing more could be written.
    WriteZero,
}

/// What a reader is told of an error.
pub open spec fn write_error_text(e: WriteError) -> Seq<char> {
    match e {
        WriteError::Overflow => "Offset and data length overflowed u64"@,
        WriteError::OutOfBounds { size, end } => "Out of bounds write! File size: "@ + decimal(
            size as nat,
        ) + ", End: "@ + decimal(end as nat),
        WriteError::WriteZero => "Failed to write: 0 bytes written (Disk full?)"@,
    }
}

impl WriteError {
    /// What a reader is told.
    pub fn describe(&self) -> (r: String)
        ensures
            r@ == write_error_text(*self),
    {
        match self {
            WriteError::Overflow => "Offset and data length overflowed u64".to_owned(),
            WriteError::OutOfBounds { size, end } => {
                let mut r = "Out of bounds write! File size: ".to_owned();
                push_decimal(&mut r, *size);
                r.append(", End: ");
                push_decimal(&mut r, *end);
                r
            },
            WriteError::WriteZero => "Failed to write: 0 bytes written (Disk full?)".to_owned(),
        }
    }
}

/// Whether bytes may be written at a place in a file, and if not, why.
pub open spec fn write_problem(size: u64, offset: u64, len: usize) -> Option<WriteError> {
    if offset + len > u64::MAX {
        Some(WriteError::Overflow)
    } else if offset + len > size {
        Some(WriteError::OutOfBounds { size, end: (offset + len) as u64 })
    } else {
        None
    }
}

/// A file of a fixed size, of which parts are written in any order.
#[derive(Debug, Clone, Copy, PartialEq, Eq, Structural)]
pub struct SharedFileMap {
    pub size: u64,
}

impl SharedFileMap {
    /// A file of this size.
    pub fn new(size: u64) -> (r: Self)
        ensures
            r.size == size,
    {
        SharedFileMap { size }
    }

    /// The work of writing so many bytes at a place, if they may be written there.
    pub fn write_chunk(&self, offset: u64, len: usize) -> (r: Result<ChunkWrite, WriteError>)
        ensures
            match r {
                Ok(w) => write_problem(self.size, offset, len).is_none() && w@ == (WriteModel {
                    offset,
                    len,
                    written: 0,
                }) && w.wf(),
                Err(e) => write_problem(self.size, offset, len) == Some(e),
            },
    {
        match offset.checked_add(len as u64) {
            None => Err(WriteError::Overflow),
            Some(end) => {
                if end > self.size {
                    Err(WriteError::OutOfBounds { size: self.size, end })
                } else {
                    Ok(ChunkWrite { offset, len, written: 0 })
                }
            },
        }
    }
}

/// Bytes that are being written.
#[derive(Debug, Clone, Copy, PartialEq, Eq, Structural)]
pub struct ChunkWrite {
    offset: u64,
    len: usize,
    written: usize,
}

/// Bytes that are being written, in mathematical values.
#[verifier::ext_equal]
pub struct WriteModel {
    pub offset: u64,
    pub len: usize,
    pub written: usize,
}

impl View for ChunkWrite {
    type V = WriteModel;

    closed spec fn view(&self) -> WriteModel {
        WriteModel { offset: self.offset, len: self.len, written: self.written }
    }
}

/// What came of an attempt to write.
#[derive(Debug, Clone, Copy, PartialEq, Eq, Structural)]
pub enum WriteOutcome {
    Written(usize),
    Interrupted,
}

/// What is to be written next: from so many bytes on, at such a place.
#[derive(Debug, Clone, Copy, PartialEq, Eq, Structural)]
pub struct NextWrite {
    pub from: usize,
    pub at: u64,
}

impl ChunkWrite {
    /// No more is written than there is, and it ends where numbers reach.
    pub closed spec fn wf(&self) -> bool {
        self.written <= self.len && self.offset + self.len <= u64::MAX
    }

    /// What is to be written next, unless everything has been.
    pub fn next(&self) -> (r: Option<NextWrite>)
        requires
            self.wf(),
        ensures
            r == if self@.written < self@.len {
                Some(
                    NextWrite {
                        from: self@.written,
                        at: (self@.offset + self@.written) as u64,
                    },
                )
            } else {
                None
            },
    {
        if self.written < self.len {
            Some(NextWrite { from: self.written, at: self.offset + self.written as u64 })
        } else {
            None
        }
    }

    /// Takes in what came of an attempt. One that was interrupted is made again.
    pub fn on_outcome(&mut self, outcome: WriteOutcome) -> (r: Result<(), WriteError>)
        requires
            old(self).wf(),
            outcome matches WriteOutcome::Written(n) ==> n <= old(self)@.len - old(self)@.written,
        ensures
            final(self).wf(),
            match outcome {
                WriteOutcome::Written(n) => if n == 0 {
                    r == Err::<(), WriteError>(WriteError::WriteZero) && final(self)@
                        == old(self)@
                } else {
                    r.is_ok() && final(self)@ == (WriteModel {
                        written: (old(self)@.written + n) as usize,
                        ..old(self)@
                    })
                },
                WriteOutcome::Interrupted => r.is_ok() && final(self)@ == old(self)@,
            },
    {
        match outcome {
            WriteOutcome::Written(n) => {
                if n == 0 {
                    return Err(WriteError::WriteZero);
                }
                self.written = self.written + n;
                Ok(())
            },
            WriteOutcome::Interrupted => Ok(()),
        }
    }
}

/// Bytes that may be written lie in the file, and bytes that lie in it may be written.
pub proof fn law_writes_keep_to_the_file(size: u64, offset: u64, len: usize)
    ensures
        write_problem(size, offset, len).is_none() <==> offset + len <= size,
{
}

} // verus!
