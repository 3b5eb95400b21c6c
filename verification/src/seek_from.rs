//! Where a stream is asked to go.

use vstd::prelude::*;

use crate::cursor::ErrorKind;

verus! {

/// A position, relative to the start, the end or the current position of a stream.
#[derive(Copy, Clone, Debug, PartialEq, Eq, Structural)]
pub enum SeekFrom {
    Start(u64),
    End(i64),
    Current(i64),
}

/// Why a stream cannot go where it is asked to.
#[derive(Copy, Clone, Debug, PartialEq, Eq, Structural)]
pub enum SeekError {
    /// The position would lie before the start.
    Negative,
    /// The position is relative to an end that is not known.
    LengthUnknown,
    /// The stream can only be read forward.
    Unsupported,
}

impl SeekError {
    /// The kind under which the error surfaces.
    pub open spec fn spec_kind(self) -> ErrorKind {
        match self {
            SeekError::Negative => ErrorKind::InvalidInput,
            _ => ErrorKind::Unsupported,
        }
    }

    /// The kind under which the error surfaces.
    pub fn kind(&self) -> (r: ErrorKind)
        ensures
            r == self.spec_kind(),
    {
        match self {
            SeekError::Negative => ErrorKind::InvalidInput,
            _ => ErrorKind::Unsupported,
        }
    }

    /// The error message.
    pub fn text(&self) -> (r: String)
        ensures
            r@ == match *self {
                SeekError::Negative => "negative seek"@,
                SeekError::LengthUnknown => "length unknown"@,
                SeekError::Unsupported => "seek is not supported for ripget windowed streams"@,
            },
    {
        match self {
            SeekError::Negative => "negative seek".to_owned(),
            SeekError::LengthUnknown => "length unknown".to_owned(),
            SeekError::Unsupported => "seek is not supported for ripget windowed streams".to_owned(),
        }
    }
}

/// The signed number with the bits of `x`.
pub open spec fn signed(x: u64) -> int {
    if x <= i64::MAX {
        x as int
    } else {
        x - 0x1_0000_0000_0000_0000
    }
}

/// `base` moved by `offset`.
pub open spec fn moved(base: u64, offset: i64) -> Result<u64, SeekError> {
    if signed(base) + offset < 0 {
        Err(SeekError::Negative)
    } else {
        Ok((signed(base) + offset) as u64)
    }
}

/// Whether `base` moved by `offset` is a 64-bit signed number.
pub open spec fn can_move(base: u64, offset: i64) -> bool {
    i64::MIN <= signed(base) + offset <= i64::MAX
}

/// Where a stream at `position`, with its end at `end` where that is known, is asked to go.
pub open spec fn seek_target(from: SeekFrom, position: u64, end: Option<u64>) -> Result<u64, SeekError> {
    match from {
        SeekFrom::Start(n) => Ok(n),
        SeekFrom::Current(offset) => moved(position, offset),
        SeekFrom::End(offset) => match end {
            None => Err(SeekError::LengthUnknown),
            Some(end) => moved(end, offset),
        },
    }
}

/// Whether the signed arithmetic of a seek stays within 64 bits.
pub open spec fn can_seek(from: SeekFrom, position: u64, end: Option<u64>) -> bool {
    match from {
        SeekFrom::Start(_) => true,
        SeekFrom::Current(offset) => can_move(position, offset),
        SeekFrom::End(offset) => end matches Some(end) ==> can_move(end, offset),
    }
}

fn as_signed(x: u64) -> (r: i64)
    ensures
        r == signed(x),
{
    if x <= i64::MAX as u64 {
        x as i64
    } else {
        -((u64::MAX - x) as i64) - 1
    }
}

fn move_by(base: u64, offset: i64) -> (r: Result<u64, SeekError>)
    requires
        can_move(base, offset),
    ensures
        r == moved(base, offset),
{
    let target: i64 = as_signed(base) + offset;
    if target < 0 {
        Err(SeekError::Negative)
    } else {
        Ok(target as u64)
    }
}

/// Resolves a seek.
pub fn resolve_seek(from: SeekFrom, position: u64, end: Option<u64>) -> (r: Result<u64, SeekError>)
    requires
        can_seek(from, position, end),
    ensures
        r == seek_target(from, position, end),
{
    match from {
        SeekFrom::Start(n) => Ok(n),
        SeekFrom::Current(offset) => move_by(position, offset),
        SeekFrom::End(offset) => match end {
            None => Err(SeekError::LengthUnknown),
            Some(end) => move_by(end, offset),
        },
    }
}

/// Going back by as much as was read returns to where reading began.
pub proof fn law_seek_back(position: u64, read: u64)
    requires
        position + read <= i64::MAX,
    ensures
        seek_target(SeekFrom::Current(-(read as int) as i64), (position + read) as u64, None) == Ok::<
            u64,
            SeekError,
        >(position),
{
}

/// Moves add up: a stream is taken as far from where it stands, or from its end, as it is asked to
/// go, forward or backward, and is left where it is asked to go from its start.
pub proof fn law_seek_moves(position: u64, end: u64, offset: i64, known: Option<u64>)
    ensures
        seek_target(SeekFrom::Start(position), end, known) == Ok::<u64, SeekError>(position),
        position <= i64::MAX && 0 <= position + offset <= i64::MAX ==> seek_target(
            SeekFrom::Current(offset),
            position,
            known,
        ) == Ok::<u64, SeekError>((position + offset) as u64),
        end <= i64::MAX && 0 <= end + offset <= i64::MAX ==> seek_target(
            SeekFrom::End(offset),
            position,
            Some(end),
        ) == Ok::<u64, SeekError>((end + offset) as u64),
{
}

/// No stream goes before its start, nor anywhere from an end that is not known.
pub proof fn law_seek_refused(position: u64, end: u64, offset: i64, known: Option<u64>)
    ensures
        position <= i64::MAX && position + offset < 0 ==> seek_target(
            SeekFrom::Current(offset),
            position,
            known,
        ) == Err::<u64, SeekError>(SeekError::Negative),
        end <= i64::MAX && end + offset < 0 ==> seek_target(
            SeekFrom::End(offset),
            position,
            Some(end),
        ) == Err::<u64, SeekError>(SeekError::Negative),
        seek_target(SeekFrom::End(offset), position, None) == Err::<u64, SeekError>(
            SeekError::LengthUnknown,
        ),
{
}

/// A position with its top bit set counts as the negative number with the same bits, as the sum of
/// a seek is signed.
pub proof fn law_seek_from_top_half(position: u64, offset: i64, known: Option<u64>)
    requires
        position > i64::MAX,
    ensures
        ({
            let sum = position - 0x1_0000_0000_0000_0000 + offset;
            &&& sum < 0 ==> seek_target(SeekFrom::Current(offset), position, known) == Err::<
                u64,
                SeekError,
            >(SeekError::Negative) && seek_target(SeekFrom::End(offset), 0, Some(position)) == Err::<
                u64,
                SeekError,
            >(SeekError::Negative)
            &&& sum >= 0 ==> seek_target(SeekFrom::Current(offset), position, known) == Ok::<
                u64,
                SeekError,
            >(sum as u64) && seek_target(SeekFrom::End(offset), 0, Some(position)) == Ok::<
                u64,
                SeekError,
            >(sum as u64)
        }),
{
}

/// Every seek can be resolved but one whose signed sum leaves 64 bits.
pub proof fn law_seek_admitted(from: SeekFrom, position: u64, end: u64)
    ensures
        can_seek(from, position, None) || from is Current,
        can_seek(SeekFrom::Start(end), position, Some(end)),
        forall|offset: i64|
            position <= i64::MAX && position + offset <= i64::MAX ==> #[trigger] can_seek(
                SeekFrom::Current(offset),
                position,
                Some(end),
            ),
        forall|offset: i64|
            end <= i64::MAX && end + offset <= i64::MAX ==> #[trigger] can_seek(
                SeekFrom::End(offset),
                position,
                Some(end),
            ),
        forall|offset: i64|
            position > i64::MAX && position - 0x1_0000_0000_0000_0000 + offset >= i64::MIN
                ==> #[trigger] can_seek(SeekFrom::Current(offset), position, None),
{
}

/// A place that does not exist is invalid input, one that cannot be reached is not supported.
pub proof fn law_seek_error_kinds(e: SeekError)
    ensures
        e.spec_kind() == ErrorKind::InvalidInput <==> e is Negative,
        e.spec_kind() == ErrorKind::Unsupported <==> e is LengthUnknown || e is Unsupported,
{
}

} // verus!
