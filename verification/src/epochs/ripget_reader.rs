//! The position of a stream that is downloaded window by window, and can only be read forward.

use vstd::prelude::*;

use crate::node_reader::Len;
use crate::seek_from::{SeekError, SeekFrom};

verus! {

/// Where a windowed download stands.
#[derive(Copy, Clone, Debug, PartialEq, Eq)]
pub struct RipgetEpochReader {
    /// The expected length of the download.
    pub len: u64,
    /// The number of bytes read so far.
    pub position: u64,
}

impl RipgetEpochReader {
    /// The reader after `read` more bytes.
    pub open spec fn after(self, read: u64) -> RipgetEpochReader {
        RipgetEpochReader {
            len: self.len,
            position: if self.position + read > u64::MAX {
                u64::MAX
            } else {
                (self.position + read) as u64
            },
        }
    }

    /// Starts at the front of a download of `len` bytes.
    pub fn new(len: u64) -> (r: RipgetEpochReader)
        ensures
            r == (RipgetEpochReader { len, position: 0 }),
    {
        RipgetEpochReader { len, position: 0 }
    }

    /// Counts bytes that were read.
    pub fn poll_read(&mut self, read: u64)
        ensures
            *final(self) == old(self).after(read),
    {
        self.position = self.position.saturating_add(read);
    }

    /// What comes of a seek.
    pub open spec fn sought(from: SeekFrom) -> Result<(), SeekError> {
        if from == SeekFrom::Current(0) {
            Ok(())
        } else {
            Err(SeekError::Unsupported)
        }
    }

    /// Refuses to go anywhere but where the stream stands.
    pub fn start_seek(&self, from: SeekFrom) -> (r: Result<(), SeekError>)
        ensures
            r == Self::sought(from),
    {
        match from {
            SeekFrom::Current(0) => Ok(()),
            _ => Err(SeekError::Unsupported),
        }
    }

    /// The offset of the stream.
    pub fn poll_complete(&self) -> (r: u64)
        ensures
            r == self.position,
    {
        self.position
    }
}

impl Len for RipgetEpochReader {
    open spec fn spec_len(&self) -> u64 {
        self.len
    }

    fn len(&self) -> (r: u64) {
        self.len
    }
}

/// Bytes that were read one after the other add up, and never change the length.
pub proof fn law_position_adds_up(reader: RipgetEpochReader, a: u64, b: u64)
    ensures
        reader.after(a).len == reader.len,
        reader.spec_len() == reader.len,
        reader.position + a <= u64::MAX ==> reader.after(a).position == reader.position + a,
        reader.position + a > u64::MAX ==> reader.after(a).position == u64::MAX,
        a + b <= u64::MAX ==> reader.after(a).after(b) == reader.after((a + b) as u64),
{
}

/// A sequential stream goes nowhere: every seek but to where it stands is refused.
pub proof fn law_goes_nowhere(offset: i64, position: u64)
    ensures
        RipgetEpochReader::sought(SeekFrom::Current(offset)) is Ok <==> offset == 0,
        RipgetEpochReader::sought(SeekFrom::Start(position)) == Err::<(), SeekError>(
            SeekError::Unsupported,
        ),
        RipgetEpochReader::sought(SeekFrom::End(offset)) == Err::<(), SeekError>(
            SeekError::Unsupported,
        ),
        offset != 0 ==> RipgetEpochReader::sought(SeekFrom::Current(offset)) == Err::<
            (),
            SeekError,
        >(SeekError::Unsupported),
{
}

} // verus!
