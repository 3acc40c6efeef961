use vstd::prelude::*;

use crate::bytes::copy_range;
use crate::control::TransferError;

verus! {

// The error numbers of illumos (usr/src/uts/common/sys/errno.h).
pub const ENOENT: i32 = 2;
pub const ENODEV: i32 = 19;
pub const EPIPE: i32 = 32;
pub const ETIME: i32 = 62;
pub const ECOMM: i32 = 70;
pub const EPROTO: i32 = 71;
pub const EOVERFLOW: i32 = 79;
pub const EILSEQ: i32 = 88;
pub const ECONNRESET: i32 = 131;
pub const ESHUTDOWN: i32 = 143;
pub const ETIMEDOUT: i32 = 145;

/// The transfer error that an error number of a read or write on a `ugen`
/// endpoint stands for.
pub open spec fn transfer_error_of(errno: i32) -> TransferError {
    if errno == ENODEV || errno == ESHUTDOWN {
        TransferError::Disconnected
    } else if errno == EPIPE {
        TransferError::Stall
    } else if errno == ENOENT || errno == ECONNRESET || errno == ETIMEDOUT {
        TransferError::Cancelled
    } else if errno == EPROTO || errno == EILSEQ || errno == EOVERFLOW || errno == ECOMM || errno
        == ETIME {
        TransferError::Fault
    } else {
        TransferError::Unknown
    }
}

/// What each error number classifies as: only ENODEV (19) and ESHUTDOWN
/// (143) as a disconnection, only EPIPE (32) as a stall, only ENOENT (2),
/// ECONNRESET (131) and ETIMEDOUT (145) as a cancellation, only EPROTO (71),
/// EILSEQ (88), EOVERFLOW (79), ECOMM (70) and ETIME (62) as a fault, and
/// every other number as unknown.
pub proof fn lemma_errno_classes(errno: i32)
    ensures
        (transfer_error_of(errno) == TransferError::Disconnected) <==> (errno == 19 || errno
            == 143),
        (transfer_error_of(errno) == TransferError::Stall) <==> errno == 32,
        (transfer_error_of(errno) == TransferError::Cancelled) <==> (errno == 2 || errno == 131
            || errno == 145),
        (transfer_error_of(errno) == TransferError::Fault) <==> (errno == 71 || errno == 88
            || errno == 79 || errno == 70 || errno == 62),
        (transfer_error_of(errno) == TransferError::Unknown) <==> !(errno == 19 || errno == 143
            || errno == 32 || errno == 2 || errno == 131 || errno == 145 || errno == 71 || errno
            == 88 || errno == 79 || errno == 70 || errno == 62),
{
}

/// Classifies the error number of a failed read or write on an endpoint.
pub fn errno_to_transfer_error(errno: i32) -> (r: TransferError)
    ensures
        r == transfer_error_of(errno),
{
    if errno == ENODEV || errno == ESHUTDOWN {
        TransferError::Disconnected
    } else if errno == EPIPE {
        TransferError::Stall
    } else if errno == ENOENT || errno == ECONNRESET || errno == ETIMEDOUT {
        TransferError::Cancelled
    } else if errno == EPROTO || errno == EILSEQ || errno == EOVERFLOW || errno == ECOMM || errno
        == ETIME {
        TransferError::Fault
    } else {
        TransferError::Unknown
    }
}

/// The outcome of a transfer: its data and whether it succeeded.
pub struct Completion<T> {
    pub data: T,
    pub status: Result<(), TransferError>,
}

/// What comes back from an OUT transfer: the buffer, emptied, and how many
/// bytes were sent.
pub struct ResponseBuffer {
    pub buf: Vec<u8>,
    pub transferred: usize,
}

impl ResponseBuffer {
    pub fn from_vec(buf: Vec<u8>, transferred: usize) -> (r: Self)
        ensures
            r.buf@ == buf@,
            r.transferred == transferred,
    {
        ResponseBuffer { buf, transferred }
    }

    /// How many bytes the transfer moved.
    pub fn actual_length(&self) -> (r: usize)
        ensures
            r == self.transferred,
    {
        self.transferred
    }
}

/// The length and status a completion reports for the result of a read or
/// write: the byte count on success, nothing and the classified error otherwise.
pub open spec fn completion_of(status: Result<usize, i32>) -> (usize, Result<(), TransferError>) {
    match status {
        Ok(len) => (len, Ok(())),
        Err(errno) => (0, Err(transfer_error_of(errno))),
    }
}

/// A completion succeeds exactly when the read or write it reports
/// succeeded: then it carries the byte count; otherwise it carries no bytes
/// and the failure as the classification of the error number.
pub proof fn lemma_completion_status(status: Result<usize, i32>)
    ensures
        completion_of(status).1 is Ok <==> status is Ok,
        status matches Ok(len) ==> completion_of(status).0 == len,
        status matches Err(errno) ==> completion_of(status) == (
            0usize,
            Err::<(), TransferError>(transfer_error_of(errno)),
        ),
{
}

fn status_parts(status: Result<usize, i32>) -> (r: (usize, Result<(), TransferError>))
    ensures
        r == completion_of(status),
{
    match status {
        Ok(len) => (len, Ok(())),
        Err(errno) => (0, Err(errno_to_transfer_error(errno))),
    }
}

/// The state of a transfer on one endpoint: the result of the last read or
/// write, as a byte count or an error number, and the buffer a read filled.
pub struct TransferState {
    pub endpoint: u8,
    pub status: Option<Result<usize, i32>>,
    pub data: Option<Vec<u8>>,
}

impl TransferState {
    /// A transfer on `endpoint` with nothing submitted yet.
    pub fn new(endpoint: u8) -> (r: Self)
        ensures
            r.endpoint == endpoint,
            r.status is None,
            r.data is None,
    {
        TransferState { endpoint, status: None, data: None }
    }

    /// Records the result of the write that an OUT submission made.
    pub fn write_done(&mut self, status: Result<usize, i32>)
        ensures
            final(self).endpoint == old(self).endpoint,
            final(self).status == Some(status),
            final(self).data == old(self).data,
    {
        self.status = Some(status);
    }

    /// Records the result of the read that an IN submission made, and the buffer it read into.
    pub fn read_done(&mut self, data: Vec<u8>, status: Result<usize, i32>)
        ensures
            final(self).endpoint == old(self).endpoint,
            final(self).status == Some(status),
            final(self).data == Some(data),
    {
        self.status = Some(status);
        self.data = Some(data);
    }

    /// Takes the completion of an OUT transfer, and forgets its status.
    pub fn take_completed_out(&mut self) -> (r: Completion<ResponseBuffer>)
        requires
            old(self).status is Some,
        ensures
            r.data.buf@.len() == 0,
            r.data.transferred == completion_of(old(self).status->0).0,
            r.status == completion_of(old(self).status->0).1,
            r.status is Ok <==> old(self).status->0 is Ok,
            old(self).status->0 matches Ok(len) ==> r.data.transferred == len,
            old(self).status->0 matches Err(e) ==> r.data.transferred == 0 && r.status == Err::<
                (),
                TransferError,
            >(transfer_error_of(e)),
            final(self).status is None,
            final(self).endpoint == old(self).endpoint,
            final(self).data == old(self).data,
    {
        let status = match self.status {
            Some(s) => s,
            None => Ok(0),
        };
        let (len, status) = status_parts(status);
        self.status = None;
        Completion { data: ResponseBuffer::from_vec(Vec::new(), len), status }
    }

    /// Takes the completion of an IN transfer: the bytes the read produced.
    /// The status stays recorded.
    pub fn take_completed_in(&mut self) -> (r: Completion<Vec<u8>>)
        requires
            old(self).status is Some,
            old(self).data is Some,
            completion_of(old(self).status->0).0 <= old(self).data->0@.len(),
        ensures
            r.data@ == old(self).data->0@.take(completion_of(old(self).status->0).0 as int),
            r.status == completion_of(old(self).status->0).1,
            r.status is Ok <==> old(self).status->0 is Ok,
            old(self).status->0 matches Ok(len) ==> r.data@ == old(self).data->0@.take(len as int),
            old(self).status->0 matches Err(e) ==> r.data@.len() == 0 && r.status == Err::<
                (),
                TransferError,
            >(transfer_error_of(e)),
            final(self).data is None,
            final(self).status == old(self).status,
            final(self).endpoint == old(self).endpoint,
    {
        let status = match self.status {
            Some(s) => s,
            None => Ok(0),
        };
        let (len, status) = status_parts(status);
        let data = self.data.take();
        let bytes = match data {
            Some(d) => copy_range(d.as_slice(), 0, len),
            None => Vec::new(),
        };
        Completion { data: bytes, status }
    }
}

} // verus!
