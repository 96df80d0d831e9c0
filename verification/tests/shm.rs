use assassinate_ipc::{IpcError, SharedMemory};

#[test]
fn shm_test_create_and_write() {
    let mut shm = SharedMemory::create("test_shm", 4096).unwrap();
    let slice = shm.as_slice_mut();
    slice[0] = 42;
    assert_eq!(slice[0], 42);
}

#[test]
fn new_segment_is_zeroed_and_keeps_name_and_size() {
    let mut shm = SharedMemory::create("/segment", 300).unwrap();
    assert_eq!(shm.name(), "/segment");
    assert_eq!(shm.size(), 300);
    assert_eq!(shm.as_slice().len(), 300);
    assert!(shm.as_slice().iter().all(|b| *b == 0));
    shm.as_slice_mut()[299] = 7;
    assert_eq!(shm.as_slice()[299], 7);
    assert_eq!(shm.size(), 300);
}

#[test]
fn segment_of_no_bytes_is_refused() {
    assert!(matches!(
        SharedMemory::create("nothing", 0),
        Err(IpcError::SharedMemory(_))
    ));
}

#[test]
fn open_takes_over_bytes_of_the_size_agreed_on() {
    let mut shm = SharedMemory::create("first", 16).unwrap();
    shm.as_slice_mut()[3] = 9;
    let bytes = shm.into_bytes();
    assert_eq!(bytes.len(), 16);
    let again = SharedMemory::open("second", 16, bytes).unwrap();
    assert_eq!(again.name(), "second");
    assert_eq!(again.size(), 16);
    assert_eq!(again.as_slice()[3], 9);
    assert!(matches!(
        SharedMemory::open("short", 16, vec![0u8; 15]),
        Err(IpcError::SharedMemory(_))
    ));
    assert!(matches!(
        SharedMemory::open("none", 0, vec![]),
        Err(IpcError::SharedMemory(_))
    ));
}
