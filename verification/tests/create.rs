use memfs::attributes::{
    FILE_ATTRIBUTE_READONLY, FILE_ATTRIBUTE_HIDDEN, FILE_ATTRIBUTE_SYSTEM, FILE_ATTRIBUTE_DIRECTORY,
    FILE_ATTRIBUTE_ARCHIVE, FILE_ATTRIBUTE_NORMAL, FILE_ATTRIBUTE_TEMPORARY, FILE_ATTRIBUTE_OFFLINE,
    SUPPORTED_ATTRS, Attributes,
};
use memfs::create::{
    CreateRequest, FILE_SUPERSEDE, FILE_OPEN, FILE_CREATE, FILE_OPEN_IF, FILE_OVERWRITE,
    FILE_OVERWRITE_IF, FILE_DIRECTORY_FILE, FILE_NON_DIRECTORY_FILE, FILE_DELETE_ON_CLOSE,
    FILE_WRITE_DATA, FILE_APPEND_DATA,
};
use memfs::entry::SecurityDescriptor;
use memfs::memfs::MemFsHandler;
use memfs::model::ROOT;
use memfs::path::{FullName, PathInfo, StreamInfo};
use memfs::status::{
    OperationError, STATUS_INVALID_PARAMETER, STATUS_ACCESS_DENIED, STATUS_OBJECT_NAME_INVALID,
    STATUS_OBJECT_NAME_NOT_FOUND, STATUS_OBJECT_NAME_COLLISION, STATUS_DELETE_PENDING,
    STATUS_FILE_IS_A_DIRECTORY, STATUS_NOT_A_DIRECTORY, STATUS_CANNOT_DELETE,
};

fn wide(s: &str) -> Vec<u16> {
    s.encode_utf16().collect()
}

fn new_fs() -> MemFsHandler {
    MemFsHandler::new(SecurityDescriptor { bytes: vec![9] }, 100)
}

fn at(parent: usize, name: &str) -> Result<Option<PathInfo>, OperationError> {
    Ok(Some(PathInfo {
        name: FullName { file_name: wide(name), stream_info: None },
        parent,
    }))
}

fn stream(name: &str) -> StreamInfo {
    StreamInfo {
        name: wide(name),
        on_file: Ok(name.is_empty()),
        on_dir: Ok(false),
    }
}

fn at_stream(parent: usize, name: &str, stream_name: &str) -> Result<Option<PathInfo>, OperationError> {
    Ok(Some(PathInfo {
        name: FullName { file_name: wide(name), stream_info: Some(stream(stream_name)) },
        parent,
    }))
}

fn request(create_disposition: u32, create_options: u32) -> CreateRequest {
    CreateRequest {
        desired_access: 0,
        file_attributes: 0,
        create_disposition,
        create_options,
        info_delete_on_close: false,
    }
}

fn sec() -> Result<SecurityDescriptor, OperationError> {
    Ok(SecurityDescriptor { bytes: vec![1, 2, 3] })
}

fn make(fs: &mut MemFsHandler, parent: usize, name: &str, options: u32) -> (usize, usize) {
    let info = fs.create_file(&at(parent, name), sec(), request(FILE_CREATE, options), 200, 300).unwrap();
    assert!(info.new_file_created);
    (info.context, fs.lookup(parent, &wide(name)).unwrap())
}

fn make_stream(fs: &mut MemFsHandler, parent: usize, name: &str, stream_name: &str) -> usize {
    let info = fs
        .create_file(&at_stream(parent, name, stream_name), sec(), request(FILE_OPEN_IF, 0), 210, 310)
        .unwrap();
    info.context
}

fn root(fs: &mut MemFsHandler) -> usize {
    fs.create_file(&Ok(None), sec(), request(FILE_OPEN, 0), 230, 330).unwrap().context
}

fn refused(status: u32) -> OperationError {
    OperationError::NtStatus(status)
}

fn read_all(fs: &MemFsHandler, h: usize) -> Vec<u8> {
    let mut buffer = vec![0xEEu8; 64];
    let n = fs.read_file(h, 0, &mut buffer).unwrap();
    buffer.truncate(n as usize);
    buffer
}

#[test]
fn a_new_file_is_found_in_any_case() {
    let mut fs = new_fs();
    let (h, e) = make(&mut fs, ROOT, "ReadMe.txt", 0);
    assert_eq!(fs.lookup(ROOT, &wide("README.TXT")), Some(e));
    assert_eq!(fs.lookup(ROOT, &wide("readme")), None);
    assert!(!fs.is_dir(h));
    assert!(!fs.is_directory(e));
    assert!(fs.is_open(h));
    let info = fs.get_file_information(h).unwrap();
    assert_eq!(info.attributes, FILE_ATTRIBUTE_ARCHIVE);
    assert_eq!(info.file_index, 1);
    assert_eq!((info.creation_time, info.last_access_time, info.last_write_time), (200, 200, 200));
    assert_eq!(fs.get_file_security(h).bytes, vec![1, 2, 3]);
    let r = root(&mut fs);
    let dir = fs.get_file_information(r).unwrap();
    assert_eq!((dir.creation_time, dir.last_access_time, dir.last_write_time), (100, 300, 300));
    assert_eq!(fs.get_file_security(r).bytes, vec![9]);
}

#[test]
fn a_new_directory_is_not_reported_as_one() {
    let mut fs = new_fs();
    let r = fs.create_file(&at(ROOT, "d"), sec(), request(FILE_CREATE, FILE_DIRECTORY_FILE), 1, 2);
    let info = r.unwrap();
    assert_eq!((info.is_dir, info.new_file_created), (false, true));
    assert!(fs.is_dir(info.context));
    assert_eq!(
        fs.get_file_information(info.context).unwrap().attributes,
        FILE_ATTRIBUTE_DIRECTORY
    );
    let again = fs.create_file(&at(ROOT, "D"), sec(), request(FILE_OPEN_IF, FILE_DIRECTORY_FILE), 1, 2);
    let again = again.unwrap();
    assert_eq!((again.is_dir, again.new_file_created), (true, false));
}

#[test]
fn a_new_directory_with_a_stream_is_reported_as_one() {
    let mut fs = new_fs();
    let info = fs
        .create_file(&at_stream(ROOT, "d", "s"), sec(), request(FILE_CREATE, FILE_DIRECTORY_FILE), 1, 2)
        .unwrap();
    assert_eq!((info.is_dir, info.new_file_created), (true, true));
    assert!(!fs.is_dir(info.context));
    assert_eq!(fs.len_of(info.context), Some(0));
}

#[test]
fn entries_nest() {
    let mut fs = new_fs();
    let (_, d) = make(&mut fs, ROOT, "d", FILE_DIRECTORY_FILE);
    let (_, e) = make(&mut fs, d, "d", 0);
    assert!(fs.is_directory(d));
    assert_eq!(fs.lookup(d, &wide("D")), Some(e));
    assert_eq!(fs.lookup(ROOT, &wide("D")), Some(d));
}

#[test]
fn unknown_dispositions_and_bad_paths_are_refused() {
    let mut fs = new_fs();
    let bad: Result<Option<PathInfo>, OperationError> = Err(refused(STATUS_OBJECT_NAME_INVALID));
    assert_eq!(
        fs.create_file(&bad, sec(), request(6, 0), 1, 2).unwrap_err(),
        refused(STATUS_INVALID_PARAMETER)
    );
    assert_eq!(
        fs.create_file(&bad, sec(), request(FILE_OPEN, 0), 1, 2).unwrap_err(),
        refused(STATUS_OBJECT_NAME_INVALID)
    );
    assert!(!fs.creates_entry(&bad, request(FILE_OPEN, 0)));
}

#[test]
fn the_root_directory_is_only_opened() {
    let mut fs = new_fs();
    let info = fs.create_file(&Ok(None), sec(), request(FILE_OPEN_IF, FILE_DIRECTORY_FILE), 1, 2).unwrap();
    assert_eq!((info.is_dir, info.new_file_created), (true, false));
    assert_eq!(
        fs.create_file(&Ok(None), sec(), request(FILE_OPEN, FILE_NON_DIRECTORY_FILE), 1, 2).unwrap_err(),
        refused(STATUS_FILE_IS_A_DIRECTORY)
    );
    assert_eq!(
        fs.create_file(&Ok(None), sec(), request(FILE_CREATE, 0), 1, 2).unwrap_err(),
        refused(STATUS_INVALID_PARAMETER)
    );
    assert!(fs.can_open(&Ok(None), request(FILE_OPEN, 0)));
}

#[test]
fn missing_names_are_refused() {
    let mut fs = new_fs();
    for (disposition, options, status) in [
        (FILE_OPEN, 0, STATUS_OBJECT_NAME_NOT_FOUND),
        (FILE_OVERWRITE, 0, STATUS_OBJECT_NAME_NOT_FOUND),
        (FILE_OPEN, FILE_DIRECTORY_FILE, STATUS_OBJECT_NAME_NOT_FOUND),
        (FILE_OVERWRITE, FILE_DIRECTORY_FILE, STATUS_INVALID_PARAMETER),
        (FILE_SUPERSEDE, FILE_DIRECTORY_FILE, STATUS_INVALID_PARAMETER),
    ] {
        let req = request(disposition, options);
        assert!(!fs.creates_entry(&at(ROOT, "x"), req));
        assert_eq!(fs.create_file(&at(ROOT, "x"), sec(), req, 1, 2).unwrap_err(), refused(status));
    }
    assert_eq!(fs.lookup(ROOT, &wide("x")), None);
}

#[test]
fn a_name_is_taken_once() {
    let mut fs = new_fs();
    make(&mut fs, ROOT, "f", 0);
    make(&mut fs, ROOT, "d", FILE_DIRECTORY_FILE);
    for name in ["F", "D"] {
        assert_eq!(
            fs.create_file(&at(ROOT, name), sec(), request(FILE_CREATE, 0), 1, 2).unwrap_err(),
            refused(STATUS_OBJECT_NAME_COLLISION)
        );
    }
}

#[test]
fn files_and_directories_are_told_apart() {
    let mut fs = new_fs();
    make(&mut fs, ROOT, "f", 0);
    make(&mut fs, ROOT, "d", FILE_DIRECTORY_FILE);
    assert_eq!(
        fs.create_file(&at(ROOT, "f"), sec(), request(FILE_OPEN, FILE_DIRECTORY_FILE), 1, 2).unwrap_err(),
        refused(STATUS_NOT_A_DIRECTORY)
    );
    assert_eq!(
        fs.create_file(&at(ROOT, "d"), sec(), request(FILE_OPEN, FILE_NON_DIRECTORY_FILE), 1, 2)
            .unwrap_err(),
        refused(STATUS_FILE_IS_A_DIRECTORY)
    );
    assert_eq!(
        fs.create_file(&at(ROOT, "d"), sec(), request(FILE_OVERWRITE, 0), 1, 2).unwrap_err(),
        refused(STATUS_INVALID_PARAMETER)
    );
}

#[test]
fn overwriting_empties_a_file() {
    let mut fs = new_fs();
    let (h, _) = make(&mut fs, ROOT, "f", 0);
    fs.write_file(h, 0, b"abc", false, 400).unwrap();
    let mut req = request(FILE_OVERWRITE_IF, 0);
    req.file_attributes = FILE_ATTRIBUTE_TEMPORARY | FILE_ATTRIBUTE_NORMAL;
    let info = fs.create_file(&at(ROOT, "f"), sec(), req, 500, 600).unwrap();
    assert!(!info.new_file_created);
    assert_eq!(read_all(&fs, h), b"");
    let told = fs.get_file_information(info.context).unwrap();
    assert_eq!(told.attributes, FILE_ATTRIBUTE_TEMPORARY | FILE_ATTRIBUTE_ARCHIVE);
    assert_eq!((told.last_access_time, told.last_write_time), (500, 500));
}

#[test]
fn read_only_files_are_protected() {
    let mut fs = new_fs();
    let (h, _) = make(&mut fs, ROOT, "f", 0);
    fs.set_file_attributes(h, FILE_ATTRIBUTE_READONLY, 400).unwrap();
    for access in [FILE_WRITE_DATA, FILE_APPEND_DATA] {
        let mut req = request(FILE_OPEN, 0);
        req.desired_access = access;
        assert_eq!(
            fs.create_file(&at(ROOT, "f"), sec(), req, 1, 2).unwrap_err(),
            refused(STATUS_ACCESS_DENIED)
        );
    }
    assert_eq!(
        fs.create_file(&at(ROOT, "f"), sec(), request(FILE_OPEN, FILE_DELETE_ON_CLOSE), 1, 2).unwrap_err(),
        refused(STATUS_CANNOT_DELETE)
    );
    assert_eq!(
        fs.create_file(&at(ROOT, "f"), sec(), request(FILE_OVERWRITE, 0), 1, 2).unwrap_err(),
        refused(STATUS_ACCESS_DENIED)
    );
    assert_eq!(
        fs.create_file(&at_stream(ROOT, "f", "s"), sec(), request(FILE_CREATE, 0), 1, 2).unwrap_err(),
        refused(STATUS_ACCESS_DENIED)
    );
    assert!(fs.create_file(&at(ROOT, "f"), sec(), request(FILE_SUPERSEDE, 0), 1, 2).is_ok());
}

#[test]
fn hidden_system_files_are_overwritten_by_their_like() {
    let mut fs = new_fs();
    let (h, _) = make(&mut fs, ROOT, "f", 0);
    fs.set_file_attributes(h, FILE_ATTRIBUTE_HIDDEN | FILE_ATTRIBUTE_SYSTEM, 400).unwrap();
    assert_eq!(
        fs.create_file(&at(ROOT, "f"), sec(), request(FILE_SUPERSEDE, 0), 1, 2).unwrap_err(),
        refused(STATUS_ACCESS_DENIED)
    );
    let mut req = request(FILE_SUPERSEDE, 0);
    req.file_attributes = FILE_ATTRIBUTE_HIDDEN | FILE_ATTRIBUTE_SYSTEM;
    assert!(fs.create_file(&at(ROOT, "f"), sec(), req, 1, 2).is_ok());
}

#[test]
fn a_new_read_only_file_is_not_deleted_on_close() {
    let mut fs = new_fs();
    let mut req = request(FILE_CREATE, FILE_DELETE_ON_CLOSE);
    req.file_attributes = FILE_ATTRIBUTE_READONLY;
    assert!(!fs.creates_entry(&at(ROOT, "f"), req));
    assert_eq!(
        fs.create_file(&at(ROOT, "f"), sec(), req, 1, 2).unwrap_err(),
        refused(STATUS_CANNOT_DELETE)
    );
    let (h, _) = make(&mut fs, ROOT, "g", 0);
    assert_eq!(fs.get_file_information(h).unwrap().file_index, 1);
}

#[test]
fn a_failed_creation_uses_up_an_identifier() {
    let mut fs = new_fs();
    let req = request(FILE_CREATE, 0);
    assert!(fs.creates_entry(&at(ROOT, "f"), req));
    let failed = fs.create_file(&at(ROOT, "f"), Err(OperationError::Win32(5)), req, 1, 2);
    assert_eq!(failed.unwrap_err(), OperationError::Win32(5));
    assert_eq!(fs.lookup(ROOT, &wide("f")), None);
    let (h, _) = make(&mut fs, ROOT, "f", 0);
    assert_eq!(fs.get_file_information(h).unwrap().file_index, 2);
    assert_eq!(fs.next_id(), 3);
    assert_eq!(fs.next_id(), 4);
}

#[test]
fn stream_names_can_be_refused() {
    let mut fs = new_fs();
    make(&mut fs, ROOT, "f", 0);
    let bad = |name: &str| {
        Ok(Some(PathInfo {
            name: FullName {
                file_name: wide(name),
                stream_info: Some(StreamInfo {
                    name: wide("s"),
                    on_file: Err(refused(STATUS_OBJECT_NAME_INVALID)),
                    on_dir: Ok(true),
                }),
            },
            parent: ROOT,
        }))
    };
    for name in ["f", "g"] {
        let r = fs.create_file(&bad(name), sec(), request(FILE_OPEN_IF, 0), 1, 2);
        assert_eq!(r.unwrap_err(), refused(STATUS_OBJECT_NAME_INVALID));
    }
    assert_eq!(fs.lookup(ROOT, &wide("g")), None);
}

#[test]
fn streams_are_opened_and_made() {
    let mut fs = new_fs();
    let (f, _) = make(&mut fs, ROOT, "f", 0);
    fs.write_file(f, 0, b"main", false, 400).unwrap();
    assert_eq!(
        fs.create_file(&at_stream(ROOT, "f", "s"), sec(), request(FILE_OPEN, 0), 1, 2).unwrap_err(),
        refused(STATUS_OBJECT_NAME_NOT_FOUND)
    );
    let info = fs
        .create_file(&at_stream(ROOT, "f", "s"), sec(), request(FILE_CREATE, 0), 450, 2)
        .unwrap();
    assert_eq!((info.is_dir, info.new_file_created), (false, true));
    assert_eq!(fs.get_file_information(f).unwrap().last_access_time, 450);
    fs.write_file(info.context, 0, b"side", false, 460).unwrap();
    assert_eq!(
        fs.create_file(&at_stream(ROOT, "f", "S"), sec(), request(FILE_CREATE, 0), 1, 2).unwrap_err(),
        refused(STATUS_OBJECT_NAME_COLLISION)
    );
    let again = fs
        .create_file(&at_stream(ROOT, "F", "S"), sec(), request(FILE_OPEN, 0), 1, 2)
        .unwrap();
    assert!(!again.new_file_created);
    assert_eq!(read_all(&fs, again.context), b"side");
    let over = fs
        .create_file(&at_stream(ROOT, "f", "s"), sec(), request(FILE_OVERWRITE, 0), 500, 2)
        .unwrap();
    assert_eq!(read_all(&fs, over.context), b"");
    assert_eq!(fs.get_file_information(f).unwrap().last_write_time, 500);
    assert_eq!(read_all(&fs, f), b"main");
    let default = fs
        .create_file(&at_stream(ROOT, "f", ""), sec(), request(FILE_OPEN, 0), 1, 2)
        .unwrap();
    assert_eq!(read_all(&fs, default.context), b"main");
}

#[test]
fn nothing_is_made_where_a_deletion_is_pending() {
    let mut fs = new_fs();
    let (h, d) = make(&mut fs, ROOT, "d", FILE_DIRECTORY_FILE);
    fs.delete_directory(h, true).unwrap();
    assert!(!fs.creates_entry(&at(d, "f"), request(FILE_CREATE, 0)));
    assert_eq!(
        fs.create_file(&at(d, "f"), sec(), request(FILE_CREATE, 0), 1, 2).unwrap_err(),
        refused(STATUS_DELETE_PENDING)
    );
    assert_eq!(
        fs.create_file(&at(ROOT, "d"), sec(), request(FILE_OPEN, 0), 1, 2).unwrap_err(),
        refused(STATUS_DELETE_PENDING)
    );
}

#[test]
fn a_stream_with_a_pending_deletion_is_not_opened() {
    let mut fs = new_fs();
    make(&mut fs, ROOT, "f", 0);
    let s = make_stream(&mut fs, ROOT, "f", "s");
    fs.delete_file(s, true).unwrap();
    assert_eq!(
        fs.create_file(&at_stream(ROOT, "f", "s"), sec(), request(FILE_OPEN, 0), 1, 2).unwrap_err(),
        refused(STATUS_DELETE_PENDING)
    );
}

#[test]
fn supported_attributes() {
    assert_eq!(SUPPORTED_ATTRS, 0x3127);
    assert_eq!(Attributes::new(u32::MAX).value, 0x3127);
    assert_eq!(Attributes::new(0).get_output_attrs(false), FILE_ATTRIBUTE_NORMAL);
    assert_eq!(Attributes::new(0).get_output_attrs(true), FILE_ATTRIBUTE_DIRECTORY);
    assert_eq!(
        Attributes::new(FILE_ATTRIBUTE_OFFLINE).get_output_attrs(true),
        FILE_ATTRIBUTE_OFFLINE | FILE_ATTRIBUTE_DIRECTORY
    );
}

#[test]
fn names_with_a_nul_are_not_valid() {
    let name = FullName { file_name: wide("a"), stream_info: Some(stream("b")) };
    assert!(name.is_valid());
    assert!(!FullName { file_name: vec![97, 0], stream_info: None }.is_valid());
    assert!(!FullName { file_name: wide("a"), stream_info: Some(stream("b\0")) }.is_valid());
}
