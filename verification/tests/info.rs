use memfs::attributes::{FILE_ATTRIBUTE_DIRECTORY, FILE_ATTRIBUTE_ARCHIVE, FILE_ATTRIBUTE_NORMAL};
use memfs::create::{CreateRequest, FILE_OPEN, FILE_CREATE, FILE_OPEN_IF, FILE_DIRECTORY_FILE};
use memfs::entry::SecurityDescriptor;
use memfs::info::{DiskSpaceInfo, FileInfo};
use memfs::memfs::MemFsHandler;
use memfs::model::ROOT;
use memfs::path::{FullName, PathInfo, StreamInfo};
use memfs::status::{
    check_fill_data_error, nt_err, FillDataError, OperationError, STATUS_INVALID_PARAMETER,
    STATUS_INVALID_DEVICE_REQUEST, STATUS_INTERNAL_ERROR,
};

fn wide(s: &str) -> Vec<u16> {
    s.encode_utf16().collect()
}

fn new_fs() -> MemFsHandler {
    MemFsHandler::new(SecurityDescriptor { bytes: vec![9] }, 100)
}

fn at(parent: usize, name: &str) -> Result<Option<PathInfo>, OperationError> {
    Ok(Some(PathInfo {
        name: FullName { file_name: wide(name), stream_info: None },
        parent,
    }))
}

fn stream(name: &str) -> StreamInfo {
    StreamInfo {
        name: wide(name),
        on_file: Ok(name.is_empty()),
        on_dir: Ok(false),
    }
}

fn at_stream(parent: usize, name: &str, stream_name: &str) -> Result<Option<PathInfo>, OperationError> {
    Ok(Some(PathInfo {
        name: FullName { file_name: wide(name), stream_info: Some(stream(stream_name)) },
        parent,
    }))
}

fn request(create_disposition: u32, create_options: u32) -> CreateRequest {
    CreateRequest {
        desired_access: 0,
        file_attributes: 0,
        create_disposition,
        create_options,
        info_delete_on_close: false,
    }
}

fn sec() -> Result<SecurityDescriptor, OperationError> {
    Ok(SecurityDescriptor { bytes: vec![1, 2, 3] })
}

fn make(fs: &mut MemFsHandler, parent: usize, name: &str, options: u32) -> (usize, usize) {
    let info = fs.create_file(&at(parent, name), sec(), request(FILE_CREATE, options), 200, 300).unwrap();
    assert!(info.new_file_created);
    (info.context, fs.lookup(parent, &wide(name)).unwrap())
}

fn make_stream(fs: &mut MemFsHandler, parent: usize, name: &str, stream_name: &str) -> usize {
    let info = fs
        .create_file(&at_stream(parent, name, stream_name), sec(), request(FILE_OPEN_IF, 0), 210, 310)
        .unwrap();
    info.context
}

fn root(fs: &mut MemFsHandler) -> usize {
    fs.create_file(&Ok(None), sec(), request(FILE_OPEN, 0), 230, 330).unwrap().context
}

fn refused(status: u32) -> OperationError {
    OperationError::NtStatus(status)
}

#[test]
fn a_directory_lists_its_entries_once() {
    let mut fs = new_fs();
    let (f, _) = make(&mut fs, ROOT, "File", 0);
    make(&mut fs, ROOT, "Dir", FILE_DIRECTORY_FILE);
    fs.write_file(f, 0, b"hello", false, 400).unwrap();
    let r = root(&mut fs);
    let mut items = fs.find_files(r).unwrap();
    items.sort_by(|a, b| a.file_name.cmp(&b.file_name));
    assert_eq!(items.len(), 2);
    assert_eq!(items[0].file_name, wide("Dir"));
    assert_eq!(items[0].attributes, FILE_ATTRIBUTE_DIRECTORY);
    assert_eq!(items[0].file_size, 0);
    assert_eq!(items[1].file_name, wide("File"));
    assert_eq!(items[1].attributes, FILE_ATTRIBUTE_ARCHIVE);
    assert_eq!(items[1].file_size, 5);
    assert_eq!(items[1].creation_time, 200);
    assert_eq!((items[1].last_access_time, items[1].last_write_time), (200, 200));
    assert_eq!(fs.find_files(f).unwrap_err(), refused(STATUS_INVALID_DEVICE_REQUEST));
    let s = make_stream(&mut fs, ROOT, "dir", "s");
    assert_eq!(fs.find_files(s).unwrap_err(), refused(STATUS_INVALID_DEVICE_REQUEST));
    assert_eq!(fs.get_file_information(s).unwrap().attributes, FILE_ATTRIBUTE_NORMAL);
}

#[test]
fn streams_are_listed() {
    let mut fs = new_fs();
    let (f, _) = make(&mut fs, ROOT, "f", 0);
    let s = make_stream(&mut fs, ROOT, "f", "Side");
    fs.write_file(f, 0, b"hello", false, 400).unwrap();
    fs.write_file(s, 0, b"abc", false, 400).unwrap();
    let items = fs.find_streams(f).unwrap();
    assert_eq!(items.len(), 2);
    assert_eq!((items[0].name.clone(), items[0].size), (wide("::$DATA"), 5));
    assert_eq!((items[1].name.clone(), items[1].size), (wide(":Side:$DATA"), 3));
    make(&mut fs, ROOT, "d", FILE_DIRECTORY_FILE);
    let t = make_stream(&mut fs, ROOT, "d", "t");
    let items = fs.find_streams(t).unwrap();
    assert_eq!(items.len(), 1);
    assert_eq!((items[0].name.clone(), items[0].size), (wide(":t:$DATA"), 0));
}

#[test]
fn information_on_handles() {
    let mut fs = new_fs();
    let (f, _) = make(&mut fs, ROOT, "f", 0);
    let s = make_stream(&mut fs, ROOT, "f", "s");
    fs.write_file(s, 0, b"abc", false, 400).unwrap();
    assert_eq!(
        fs.get_file_information(f).unwrap(),
        FileInfo {
            attributes: FILE_ATTRIBUTE_ARCHIVE,
            creation_time: 200,
            last_access_time: 210,
            last_write_time: 200,
            file_size: 0,
            number_of_links: 1,
            file_index: 1,
        }
    );
    assert_eq!(fs.get_file_information(s).unwrap().file_size, 3);
    let r = root(&mut fs);
    let info = fs.get_file_information(r).unwrap();
    assert_eq!((info.attributes, info.file_size, info.file_index), (FILE_ATTRIBUTE_DIRECTORY, 0, 0));
}

#[test]
fn the_volume_tells_about_itself() {
    let fs = new_fs();
    assert_eq!(
        fs.get_disk_free_space().unwrap(),
        DiskSpaceInfo {
            byte_count: 1 << 30,
            free_byte_count: 1 << 29,
            available_byte_count: 1 << 29,
        }
    );
    let info = fs.get_volume_information(255).unwrap();
    assert_eq!(info.name, wide("dokan-rust memfs"));
    assert_eq!(info.fs_name, wide("NTFS"));
    assert_eq!((info.serial_number, info.max_component_length, info.fs_flags), (0, 255, 0x4000F));
    assert_eq!(fs.mounted(), Ok(()));
    assert_eq!(fs.unmounted(), Ok(()));
}

#[test]
fn a_listing_goes_on_after_a_long_name() {
    assert_eq!(check_fill_data_error(Ok(())), Ok(()));
    assert_eq!(check_fill_data_error(Err(FillDataError::NameTooLong)), Ok(()));
    assert_eq!(
        check_fill_data_error(Err(FillDataError::BufferFull)),
        Err(nt_err(STATUS_INTERNAL_ERROR))
    );
    assert_eq!(refused(STATUS_INVALID_PARAMETER), OperationError::NtStatus(0xC000000D));
}
