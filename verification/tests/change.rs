use memfs::attributes::{FILE_ATTRIBUTE_READONLY, FILE_ATTRIBUTE_HIDDEN, FILE_ATTRIBUTE_NORMAL};
use memfs::create::{CreateRequest, FILE_OPEN, FILE_CREATE, FILE_OPEN_IF, FILE_DIRECTORY_FILE};
use memfs::change::FileTimeInfo;
use memfs::entry::SecurityDescriptor;
use memfs::memfs::MemFsHandler;
use memfs::model::ROOT;
use memfs::path::{FullName, PathInfo, StreamInfo};
use memfs::status::{
    OperationError, STATUS_INVALID_DEVICE_REQUEST, STATUS_ACCESS_DENIED, STATUS_DIRECTORY_NOT_EMPTY,
    STATUS_CANNOT_DELETE,
};

fn wide(s: &str) -> Vec<u16> {
    s.encode_utf16().collect()
}

fn new_fs() -> MemFsHandler {
    MemFsHandler::new(SecurityDescriptor { bytes: vec![9] }, 100)
}

fn at(parent: usize, name: &str) -> Result<Option<PathInfo>, OperationError> {
    Ok(Some(PathInfo {
        name: FullName { file_name: wide(name), stream_info: None },
        parent,
    }))
}

fn stream(name: &str) -> StreamInfo {
    StreamInfo {
        name: wide(name),
        on_file: Ok(name.is_empty()),
        on_dir: Ok(false),
    }
}

fn at_stream(parent: usize, name: &str, stream_name: &str) -> Result<Option<PathInfo>, OperationError> {
    Ok(Some(PathInfo {
        name: FullName { file_name: wide(name), stream_info: Some(stream(stream_name)) },
        parent,
    }))
}

fn request(create_disposition: u32, create_options: u32) -> CreateRequest {
    CreateRequest {
        desired_access: 0,
        file_attributes: 0,
        create_disposition,
        create_options,
        info_delete_on_close: false,
    }
}

fn sec() -> Result<SecurityDescriptor, OperationError> {
    Ok(SecurityDescriptor { bytes: vec![1, 2, 3] })
}

fn make(fs: &mut MemFsHandler, parent: usize, name: &str, options: u32) -> (usize, usize) {
    let info = fs.create_file(&at(parent, name), sec(), request(FILE_CREATE, options), 200, 300).unwrap();
    assert!(info.new_file_created);
    (info.context, fs.lookup(parent, &wide(name)).unwrap())
}

fn make_stream(fs: &mut MemFsHandler, parent: usize, name: &str, stream_name: &str) -> usize {
    let info = fs
        .create_file(&at_stream(parent, name, stream_name), sec(), request(FILE_OPEN_IF, 0), 210, 310)
        .unwrap();
    info.context
}

fn open(fs: &mut MemFsHandler, parent: usize, name: &str) -> usize {
    fs.create_file(&at(parent, name), sec(), request(FILE_OPEN, 0), 220, 320).unwrap().context
}

fn root(fs: &mut MemFsHandler) -> usize {
    fs.create_file(&Ok(None), sec(), request(FILE_OPEN, 0), 230, 330).unwrap().context
}

fn refused(status: u32) -> OperationError {
    OperationError::NtStatus(status)
}

#[test]
fn attributes_are_set() {
    let mut fs = new_fs();
    let (h, _) = make(&mut fs, ROOT, "f", 0);
    fs.set_file_attributes(h, FILE_ATTRIBUTE_HIDDEN | FILE_ATTRIBUTE_NORMAL, 400).unwrap();
    let info = fs.get_file_information(h).unwrap();
    assert_eq!((info.attributes, info.last_access_time), (FILE_ATTRIBUTE_HIDDEN, 400));
}

#[test]
fn only_directories_are_reported_as_directories() {
    let mut fs = new_fs();
    let (f, _) = make(&mut fs, ROOT, "f", 0);
    let (d, _) = make(&mut fs, ROOT, "d", FILE_DIRECTORY_FILE);
    fs.set_file_attributes(f, u32::MAX, 400).unwrap();
    fs.set_file_attributes(d, 0, 400).unwrap();
    assert_eq!(fs.get_file_information(f).unwrap().attributes, 0x3127);
    assert_eq!(fs.get_file_information(d).unwrap().attributes, 0x10);
    let r = root(&mut fs);
    for item in fs.find_files(r).unwrap() {
        assert_eq!(item.attributes & 0x10 != 0, item.file_name == wide("d"));
    }
}

#[test]
fn times_are_set_and_frozen() {
    let mut fs = new_fs();
    let (h, _) = make(&mut fs, ROOT, "f", 0);
    let keep = FileTimeInfo::DontChange;
    fs.set_file_time(h, FileTimeInfo::SetTime(1), FileTimeInfo::SetTime(2), FileTimeInfo::SetTime(3))
        .unwrap();
    let info = fs.get_file_information(h).unwrap();
    assert_eq!((info.creation_time, info.last_access_time, info.last_write_time), (1, 2, 3));
    fs.set_file_time(h, FileTimeInfo::DisableUpdate, FileTimeInfo::DisableUpdate, keep).unwrap();
    fs.set_file_time(h, FileTimeInfo::SetTime(7), FileTimeInfo::SetTime(8), FileTimeInfo::SetTime(9))
        .unwrap();
    let info = fs.get_file_information(h).unwrap();
    assert_eq!((info.creation_time, info.last_access_time, info.last_write_time), (1, 2, 9));
    fs.set_file_attributes(h, 0, 400).unwrap();
    fs.write_file(h, 0, b"x", false, 500).unwrap();
    fs.close_file(h);
    let info = fs.get_file_information(h).unwrap();
    assert_eq!((info.last_access_time, info.last_write_time), (2, 500));
    fs.set_file_time(h, FileTimeInfo::ResumeUpdate, FileTimeInfo::ResumeUpdate, FileTimeInfo::DisableUpdate)
        .unwrap();
    fs.set_end_of_file(h, 0, 600).unwrap();
    let info = fs.get_file_information(h).unwrap();
    assert_eq!((info.last_access_time, info.last_write_time), (600, 500));
    let other = open(&mut fs, ROOT, "f");
    fs.set_end_of_file(other, 0, 700).unwrap();
    assert_eq!(fs.get_file_information(h).unwrap().last_write_time, 700);
}

#[test]
fn read_only_files_are_not_deleted() {
    let mut fs = new_fs();
    let (h, _) = make(&mut fs, ROOT, "f", 0);
    fs.set_file_attributes(h, FILE_ATTRIBUTE_READONLY, 400).unwrap();
    assert_eq!(fs.delete_file(h, true).unwrap_err(), refused(STATUS_CANNOT_DELETE));
}

#[test]
fn only_empty_directories_are_deleted() {
    let mut fs = new_fs();
    let (h, d) = make(&mut fs, ROOT, "d", FILE_DIRECTORY_FILE);
    let (f, _) = make(&mut fs, d, "f", 0);
    assert_eq!(fs.delete_directory(h, true).unwrap_err(), refused(STATUS_DIRECTORY_NOT_EMPTY));
    assert_eq!(fs.delete_directory(h, false), Ok(()));
    fs.delete_file(f, true).unwrap();
    fs.drop_handle(f, 1, 2, 3);
    assert_eq!(fs.delete_directory(h, true), Ok(()));
    fs.drop_handle(h, 1, 2, 3);
    assert_eq!(fs.lookup(ROOT, &wide("d")), None);
    assert!(!fs.is_directory(d));
}

#[test]
fn the_root_directory_is_not_deleted() {
    let mut fs = new_fs();
    let r = root(&mut fs);
    assert_eq!(fs.delete_directory(r, true).unwrap_err(), refused(STATUS_ACCESS_DENIED));
    assert_eq!(fs.delete_directory(r, false).unwrap_err(), refused(STATUS_ACCESS_DENIED));
}

#[test]
fn files_and_streams_are_not_deleted_as_directories() {
    let mut fs = new_fs();
    let (f, _) = make(&mut fs, ROOT, "f", 0);
    make(&mut fs, ROOT, "d", FILE_DIRECTORY_FILE);
    let s = make_stream(&mut fs, ROOT, "d", "s");
    for h in [f, s] {
        assert_eq!(
            fs.delete_directory(h, true).unwrap_err(),
            refused(STATUS_INVALID_DEVICE_REQUEST)
        );
    }
}

#[test]
fn security_descriptors_are_set() {
    let mut fs = new_fs();
    let (h, _) = make(&mut fs, ROOT, "f", 0);
    fs.set_file_security(h, Ok(SecurityDescriptor { bytes: vec![5] }), 400).unwrap();
    assert_eq!(fs.get_file_security(h).bytes, vec![5]);
    assert_eq!(fs.get_file_information(h).unwrap().last_access_time, 400);
    let failed = fs.set_file_security(h, Err(OperationError::Win32(87)), 500);
    assert_eq!(failed, Err(OperationError::Win32(87)));
    assert_eq!(fs.get_file_security(h).bytes, vec![5]);
    assert_eq!(fs.get_file_information(h).unwrap().last_access_time, 400);
}
