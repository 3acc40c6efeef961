use illumos_usb::control::TransferError;
use illumos_usb::transfer::{errno_to_transfer_error, ResponseBuffer, TransferState};

#[test]
fn errno_classes() {
    assert_eq!(errno_to_transfer_error(19), TransferError::Disconnected); // ENODEV
    assert_eq!(errno_to_transfer_error(143), TransferError::Disconnected); // ESHUTDOWN
    assert_eq!(errno_to_transfer_error(32), TransferError::Stall); // EPIPE
    assert_eq!(errno_to_transfer_error(2), TransferError::Cancelled); // ENOENT
    assert_eq!(errno_to_transfer_error(131), TransferError::Cancelled); // ECONNRESET
    assert_eq!(errno_to_transfer_error(145), TransferError::Cancelled); // ETIMEDOUT
    assert_eq!(errno_to_transfer_error(71), TransferError::Fault); // EPROTO
    assert_eq!(errno_to_transfer_error(88), TransferError::Fault); // EILSEQ
    assert_eq!(errno_to_transfer_error(79), TransferError::Fault); // EOVERFLOW
    assert_eq!(errno_to_transfer_error(70), TransferError::Fault); // ECOMM
    assert_eq!(errno_to_transfer_error(62), TransferError::Fault); // ETIME
    assert_eq!(errno_to_transfer_error(5), TransferError::Unknown); // EIO
    assert_eq!(errno_to_transfer_error(0), TransferError::Unknown);
    assert_eq!(errno_to_transfer_error(-1), TransferError::Unknown);
}

#[test]
fn out_completion_forgets_status() {
    let mut t = TransferState::new(0x01);
    t.write_done(Ok(16));
    let c = t.take_completed_out();
    assert_eq!(c.data.actual_length(), 16);
    assert!(c.data.buf.is_empty());
    assert_eq!(c.status, Ok(()));
    assert!(t.status.is_none());
    assert_eq!(t.endpoint, 0x01);

    t.write_done(Err(32));
    let c = t.take_completed_out();
    assert_eq!(c.data.actual_length(), 0);
    assert_eq!(c.status, Err(TransferError::Stall));
    assert!(t.status.is_none());
}

#[test]
fn in_completion_keeps_what_was_read() {
    let mut t = TransferState::new(0x81);
    t.read_done(vec![1, 2, 3, 4, 5, 6, 7, 8], Ok(3));
    let c = t.take_completed_in();
    assert_eq!(c.data, vec![1, 2, 3]);
    assert_eq!(c.status, Ok(()));
    assert!(t.data.is_none());
    assert_eq!(t.status, Some(Ok(3)));

    t.read_done(vec![0; 4], Err(19));
    let c = t.take_completed_in();
    assert!(c.data.is_empty());
    assert_eq!(c.status, Err(TransferError::Disconnected));
}

#[test]
fn response_buffer_length() {
    let r = ResponseBuffer::from_vec(vec![1, 2], 7);
    assert_eq!(r.actual_length(), 7);
    assert_eq!(r.buf, vec![1, 2]);
}
