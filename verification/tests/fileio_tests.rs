use idm_rs::fileio::{advance_write, WriteError};

#[test]
fn write_progress_advances() {
    assert_eq!(advance_write(100, 50, 20), Ok((120, 30)));
    assert_eq!(advance_write(0, 5, 5), Ok((5, 0)));
}

#[test]
fn zero_write_is_an_error() {
    assert_eq!(advance_write(100, 50, 0), Err(WriteError::ZeroWrite));
}
