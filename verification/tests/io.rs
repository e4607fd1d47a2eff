use memfs::attributes::{FILE_ATTRIBUTE_ARCHIVE, FILE_ATTRIBUTE_NORMAL};
use memfs::create::{CreateRequest, FILE_OPEN, FILE_CREATE, FILE_OPEN_IF, FILE_DIRECTORY_FILE};
use memfs::entry::SecurityDescriptor;
use memfs::memfs::MemFsHandler;
use memfs::model::ROOT;
use memfs::path::{FullName, PathInfo, StreamInfo};
use memfs::status::{OperationError, STATUS_INVALID_DEVICE_REQUEST, STATUS_ACCESS_DENIED};

fn wide(s: &str) -> Vec<u16> {
    s.encode_utf16().collect()
}

fn new_fs() -> MemFsHandler {
    MemFsHandler::new(SecurityDescriptor { bytes: vec![9] }, 100)
}

fn at(parent: usize, name: &str) -> Result<Option<PathInfo>, OperationError> {
    Ok(Some(PathInfo {
        name: FullName { file_name: wide(name), stream_info: None },
        parent,
    }))
}

fn stream(name: &str) -> StreamInfo {
    StreamInfo {
        name: wide(name),
        on_file: Ok(name.is_empty()),
        on_dir: Ok(false),
    }
}

fn at_stream(parent: usize, name: &str, stream_name: &str) -> Result<Option<PathInfo>, OperationError> {
    Ok(Some(PathInfo {
        name: FullName { file_name: wide(name), stream_info: Some(stream(stream_name)) },
        parent,
    }))
}

fn request(create_disposition: u32, create_options: u32) -> CreateRequest {
    CreateRequest {
        desired_access: 0,
        file_attributes: 0,
        create_disposition,
        create_options,
        info_delete_on_close: false,
    }
}

fn sec() -> Result<SecurityDescriptor, OperationError> {
    Ok(SecurityDescriptor { bytes: vec![1, 2, 3] })
}

fn make(fs: &mut MemFsHandler, parent: usize, name: &str, options: u32) -> (usize, usize) {
    let info = fs.create_file(&at(parent, name), sec(), request(FILE_CREATE, options), 200, 300).unwrap();
    assert!(info.new_file_created);
    (info.context, fs.lookup(parent, &wide(name)).unwrap())
}

fn make_stream(fs: &mut MemFsHandler, parent: usize, name: &str, stream_name: &str) -> usize {
    let info = fs
        .create_file(&at_stream(parent, name, stream_name), sec(), request(FILE_OPEN_IF, 0), 210, 310)
        .unwrap();
    info.context
}

fn open(fs: &mut MemFsHandler, parent: usize, name: &str) -> usize {
    fs.create_file(&at(parent, name), sec(), request(FILE_OPEN, 0), 220, 320).unwrap().context
}

fn refused(status: u32) -> OperationError {
    OperationError::NtStatus(status)
}

fn read_all(fs: &MemFsHandler, h: usize) -> Vec<u8> {
    let mut buffer = vec![0xEEu8; 64];
    let n = fs.read_file(h, 0, &mut buffer).unwrap();
    buffer.truncate(n as usize);
    buffer
}

#[test]
fn what_was_written_is_read() {
    let mut fs = new_fs();
    let (h, _) = make(&mut fs, ROOT, "f", 0);
    assert_eq!(fs.write_file(h, 0, b"hello", false, 400).unwrap(), 5);
    let other = open(&mut fs, ROOT, "F");
    let mut buffer = [0xEEu8; 4];
    assert_eq!(fs.read_file(other, 1, &mut buffer).unwrap(), 4);
    assert_eq!(&buffer, b"ello");
    assert_eq!(fs.read_file(other, 3, &mut buffer).unwrap(), 2);
    assert_eq!(&buffer, b"lolo");
    assert_eq!(fs.read_file(other, 5, &mut buffer).unwrap(), 0);
}

#[test]
fn writes_overwrite_append_and_leave_gaps() {
    let mut fs = new_fs();
    let (h, _) = make(&mut fs, ROOT, "f", 0);
    fs.write_file(h, 0, b"hello", false, 400).unwrap();
    fs.write_file(h, 1, b"a", false, 400).unwrap();
    assert_eq!(read_all(&fs, h), b"hallo");
    assert_eq!(fs.write_file(h, -1, b"!", true, 400).unwrap(), 1);
    assert_eq!(read_all(&fs, h), b"hallo!");
    fs.write_file(h, 8, b"x", false, 400).unwrap();
    assert_eq!(read_all(&fs, h), b"hallo!\0\0x");
    assert_eq!(fs.write_file(h, 20, b"", false, 400).unwrap(), 0);
    assert_eq!(fs.len_of(h), Some(20));
}

#[test]
fn writing_one_stream_leaves_the_others() {
    let mut fs = new_fs();
    let (f, _) = make(&mut fs, ROOT, "f", 0);
    let s = make_stream(&mut fs, ROOT, "f", "s");
    let t = make_stream(&mut fs, ROOT, "f", "t");
    fs.write_file(f, 0, b"main", false, 400).unwrap();
    fs.write_file(s, 0, b"side", false, 400).unwrap();
    assert_eq!(read_all(&fs, f), b"main");
    assert_eq!(read_all(&fs, s), b"side");
    assert_eq!(read_all(&fs, t), b"");
}

#[test]
fn directories_are_not_read_or_written() {
    let mut fs = new_fs();
    let (h, _) = make(&mut fs, ROOT, "d", FILE_DIRECTORY_FILE);
    let mut buffer = [7u8; 2];
    assert_eq!(fs.len_of(h), None);
    assert_eq!(
        fs.read_file(h, 0, &mut buffer).unwrap_err(),
        refused(STATUS_INVALID_DEVICE_REQUEST)
    );
    assert_eq!(buffer, [7, 7]);
    assert_eq!(
        fs.write_file(h, 0, b"x", false, 1).unwrap_err(),
        refused(STATUS_ACCESS_DENIED)
    );
    assert_eq!(fs.set_end_of_file(h, 3, 1).unwrap_err(), refused(STATUS_INVALID_DEVICE_REQUEST));
    assert_eq!(
        fs.set_allocation_size(h, 3, 1).unwrap_err(),
        refused(STATUS_INVALID_DEVICE_REQUEST)
    );
    assert_eq!(fs.flush_file_buffers(h), Ok(()));
}

#[test]
fn the_end_of_a_file_is_set() {
    let mut fs = new_fs();
    let (h, _) = make(&mut fs, ROOT, "f", 0);
    fs.write_file(h, 0, b"hello", false, 400).unwrap();
    fs.set_end_of_file(h, 2, 410).unwrap();
    assert_eq!(read_all(&fs, h), b"he");
    fs.set_end_of_file(h, 4, 420).unwrap();
    assert_eq!(read_all(&fs, h), b"he\0\0");
    let info = fs.get_file_information(h).unwrap();
    assert_eq!((info.file_size, info.last_write_time, info.last_access_time), (4, 420, 420));
}

#[test]
fn the_allocation_size_cuts_but_does_not_fill() {
    let mut fs = new_fs();
    let (h, _) = make(&mut fs, ROOT, "f", 0);
    fs.write_file(h, 0, b"hello", false, 400).unwrap();
    fs.set_allocation_size(h, 1000, 410).unwrap();
    assert_eq!(read_all(&fs, h), b"hello");
    fs.set_allocation_size(h, 500, 415).unwrap();
    assert_eq!(read_all(&fs, h), b"hello");
    fs.set_allocation_size(h, 3, 420).unwrap();
    assert_eq!(read_all(&fs, h), b"hel");
    assert_eq!(fs.get_file_information(h).unwrap().last_write_time, 420);
}

#[test]
fn times_of_writes_are_held_back_until_closing() {
    let mut fs = new_fs();
    let (h, _) = make(&mut fs, ROOT, "f", 0);
    fs.write_file(h, 0, b"x", false, 400).unwrap();
    let info = fs.get_file_information(h).unwrap();
    assert_eq!((info.last_write_time, info.last_access_time), (200, 200));
    fs.close_file(h);
    let info = fs.get_file_information(h).unwrap();
    assert_eq!((info.last_write_time, info.last_access_time), (400, 400));
    fs.set_end_of_file(h, 0, 500).unwrap();
    fs.close_file(h);
    let info = fs.get_file_information(h).unwrap();
    assert_eq!((info.last_write_time, info.last_access_time), (500, 500));
}

#[test]
fn writing_sets_the_archive_attribute() {
    let mut fs = new_fs();
    let (h, _) = make(&mut fs, ROOT, "f", 0);
    fs.set_file_attributes(h, 0, 1).unwrap();
    assert_eq!(fs.get_file_information(h).unwrap().attributes, FILE_ATTRIBUTE_NORMAL);
    fs.write_file(h, 0, b"x", false, 400).unwrap();
    assert_eq!(fs.get_file_information(h).unwrap().attributes, FILE_ATTRIBUTE_ARCHIVE);
}
