use memfs::create::{
    CreateRequest, FILE_OPEN, FILE_CREATE, FILE_OPEN_IF, FILE_DIRECTORY_FILE, FILE_DELETE_ON_CLOSE,
};
use memfs::entry::SecurityDescriptor;
use memfs::memfs::MemFsHandler;
use memfs::model::ROOT;
use memfs::path::{FullName, PathInfo, StreamInfo};
use memfs::status::OperationError;

fn wide(s: &str) -> Vec<u16> {
    s.encode_utf16().collect()
}

fn new_fs() -> MemFsHandler {
    MemFsHandler::new(SecurityDescriptor { bytes: vec![9] }, 100)
}

fn at(parent: usize, name: &str) -> Result<Option<PathInfo>, OperationError> {
    Ok(Some(PathInfo {
        name: FullName { file_name: wide(name), stream_info: None },
        parent,
    }))
}

fn stream(name: &str) -> StreamInfo {
    StreamInfo {
        name: wide(name),
        on_file: Ok(name.is_empty()),
        on_dir: Ok(false),
    }
}

fn at_stream(parent: usize, name: &str, stream_name: &str) -> Result<Option<PathInfo>, OperationError> {
    Ok(Some(PathInfo {
        name: FullName { file_name: wide(name), stream_info: Some(stream(stream_name)) },
        parent,
    }))
}

fn request(create_disposition: u32, create_options: u32) -> CreateRequest {
    CreateRequest {
        desired_access: 0,
        file_attributes: 0,
        create_disposition,
        create_options,
        info_delete_on_close: false,
    }
}

fn sec() -> Result<SecurityDescriptor, OperationError> {
    Ok(SecurityDescriptor { bytes: vec![1, 2, 3] })
}

fn make(fs: &mut MemFsHandler, parent: usize, name: &str, options: u32) -> (usize, usize) {
    let info = fs.create_file(&at(parent, name), sec(), request(FILE_CREATE, options), 200, 300).unwrap();
    assert!(info.new_file_created);
    (info.context, fs.lookup(parent, &wide(name)).unwrap())
}

fn make_stream(fs: &mut MemFsHandler, parent: usize, name: &str, stream_name: &str) -> usize {
    let info = fs
        .create_file(&at_stream(parent, name, stream_name), sec(), request(FILE_OPEN_IF, 0), 210, 310)
        .unwrap();
    info.context
}

fn open(fs: &mut MemFsHandler, parent: usize, name: &str) -> usize {
    fs.create_file(&at(parent, name), sec(), request(FILE_OPEN, 0), 220, 320).unwrap().context
}

fn root(fs: &mut MemFsHandler) -> usize {
    fs.create_file(&Ok(None), sec(), request(FILE_OPEN, 0), 230, 330).unwrap().context
}

fn read_all(fs: &MemFsHandler, h: usize) -> Vec<u8> {
    let mut buffer = vec![0xEEu8; 64];
    let n = fs.read_file(h, 0, &mut buffer).unwrap();
    buffer.truncate(n as usize);
    buffer
}

#[test]
fn closing_leaves_the_file() {
    let mut fs = new_fs();
    let (h, e) = make(&mut fs, ROOT, "f", 0);
    fs.write_file(h, 0, b"abc", false, 400).unwrap();
    assert!(fs.can_drop(h));
    fs.drop_handle(h, 1, 2, 3);
    assert!(!fs.is_open(h));
    assert_eq!(fs.lookup(ROOT, &wide("f")), Some(e));
    let again = open(&mut fs, ROOT, "f");
    assert_eq!(again, h);
    assert_eq!(read_all(&fs, again), b"abc");
}

#[test]
fn the_last_close_deletes() {
    let mut fs = new_fs();
    let (h, _) = make(&mut fs, ROOT, "f", 0);
    make(&mut fs, ROOT, "g", 0);
    fs.delete_file(h, true).unwrap();
    fs.drop_handle(h, 700, 2, 3);
    assert_eq!(fs.lookup(ROOT, &wide("f")), None);
    assert!(fs.lookup(ROOT, &wide("g")).is_some());
    let r = root(&mut fs);
    assert_eq!(fs.get_file_information(r).unwrap().last_write_time, 700);
}

#[test]
fn delete_on_close() {
    let mut fs = new_fs();
    let info = fs
        .create_file(&at(ROOT, "f"), sec(), request(FILE_CREATE, FILE_DELETE_ON_CLOSE), 1, 2)
        .unwrap();
    fs.drop_handle(info.context, 1, 2, 3);
    assert_eq!(fs.lookup(ROOT, &wide("f")), None);
}

#[test]
fn an_earlier_close_takes_back_a_pending_deletion() {
    let mut fs = new_fs();
    let (h, _) = make(&mut fs, ROOT, "f", 0);
    let other = open(&mut fs, ROOT, "f");
    fs.delete_file(h, true).unwrap();
    fs.drop_handle(h, 1, 2, 3);
    fs.drop_handle(other, 1, 2, 3);
    assert!(fs.lookup(ROOT, &wide("f")).is_some());
}

#[test]
fn a_deletion_can_be_withdrawn() {
    let mut fs = new_fs();
    let (h, _) = make(&mut fs, ROOT, "f", 0);
    fs.delete_file(h, true).unwrap();
    fs.delete_file(h, false).unwrap();
    fs.drop_handle(h, 1, 2, 3);
    assert!(fs.lookup(ROOT, &wide("f")).is_some());
}

#[test]
fn closing_never_deletes_the_root_directory() {
    let mut fs = new_fs();
    let (_, e) = make(&mut fs, ROOT, "f", 0);
    let mut req = request(FILE_OPEN, 0);
    req.info_delete_on_close = true;
    let h = fs.create_file(&Ok(None), sec(), req, 1, 2).unwrap().context;
    assert!(fs.can_drop(h));
    fs.drop_handle(h, 1, 2, 3);
    assert!(!fs.is_open(h));
    assert!(fs.is_directory(ROOT));
    assert_eq!(fs.lookup(ROOT, &wide("f")), Some(e));
    let r = root(&mut fs);
    assert_eq!(fs.get_file_information(r).unwrap().last_write_time, 300);
    fs.delete_file(r, true).unwrap();
    assert!(fs.can_drop(r));
    fs.drop_handle(r, 1, 2, 3);
    let (_, g) = make(&mut fs, ROOT, "g", 0);
    assert_eq!(fs.lookup(ROOT, &wide("g")), Some(g));
}

#[test]
fn streams_are_deleted_with_their_last_handle() {
    let mut fs = new_fs();
    let (f, _) = make(&mut fs, ROOT, "f", 0);
    let s = make_stream(&mut fs, ROOT, "f", "s");
    let t = make_stream(&mut fs, ROOT, "f", "t");
    fs.delete_file(s, true).unwrap();
    fs.drop_handle(s, 1, 800, 900);
    assert_eq!(fs.find_streams(f).unwrap().len(), 2);
    let info = fs.get_file_information(f).unwrap();
    assert_eq!((info.last_write_time, info.last_access_time), (800, 900));
    fs.drop_handle(t, 1, 850, 950);
    assert_eq!(fs.find_streams(f).unwrap().len(), 2);
    let info = fs.get_file_information(f).unwrap();
    assert_eq!((info.last_write_time, info.last_access_time), (850, 900));
    let again = make_stream(&mut fs, ROOT, "f", "s");
    assert_eq!(fs.len_of(again), Some(0));
}

#[test]
fn a_stream_opened_for_deletion_goes_and_the_file_stays() {
    let mut fs = new_fs();
    let (f, _) = make(&mut fs, ROOT, "f", 0);
    let s = fs
        .create_file(&at_stream(ROOT, "f", "s"), sec(), request(FILE_CREATE, FILE_DELETE_ON_CLOSE), 1, 2)
        .unwrap()
        .context;
    fs.drop_handle(s, 1, 2, 3);
    assert_eq!(fs.find_streams(f).unwrap().len(), 1);
    assert!(fs.lookup(ROOT, &wide("f")).is_some());
}

#[test]
fn what_is_open_below_a_deleted_directory_stays_until_it_is_closed() {
    let mut fs = new_fs();
    let info = fs
        .create_file(
            &at(ROOT, "d"),
            sec(),
            request(FILE_CREATE, FILE_DIRECTORY_FILE | FILE_DELETE_ON_CLOSE),
            1,
            2,
        )
        .unwrap();
    let d = fs.lookup(ROOT, &wide("d")).unwrap();
    let (inner, i) = make(&mut fs, d, "i", FILE_DIRECTORY_FILE);
    let (f, _) = make(&mut fs, i, "f", 0);
    let (g, e) = make(&mut fs, d, "g", FILE_DIRECTORY_FILE);
    fs.write_file(f, 0, b"kept", false, 400).unwrap();
    fs.drop_handle(inner, 1, 2, 3);
    fs.drop_handle(g, 1, 2, 3);
    assert!(fs.is_directory(e));
    fs.drop_handle(info.context, 1, 2, 3);
    assert!(!fs.is_directory(d));
    assert!(!fs.is_directory(i));
    assert!(!fs.is_directory(e));
    assert_eq!(read_all(&fs, f), b"kept");
    assert!(fs.can_drop(f));
    fs.drop_handle(f, 1, 2, 3);
    assert!(!fs.is_open(f));
}

#[test]
fn an_entry_without_a_directory_is_not_closed_for_deletion() {
    let mut fs = new_fs();
    let info = fs
        .create_file(
            &at(ROOT, "d"),
            sec(),
            request(FILE_CREATE, FILE_DIRECTORY_FILE | FILE_DELETE_ON_CLOSE),
            1,
            2,
        )
        .unwrap();
    let d = fs.lookup(ROOT, &wide("d")).unwrap();
    let (f, _) = make(&mut fs, d, "f", 0);
    fs.drop_handle(info.context, 1, 2, 3);
    fs.delete_file(f, true).unwrap();
    assert!(!fs.can_drop(f));
}

#[test]
fn opening_and_closing_changes_nothing() {
    let mut fs = new_fs();
    let (h, _) = make(&mut fs, ROOT, "f", 0);
    let before = fs.get_file_information(h).unwrap();
    let other = open(&mut fs, ROOT, "f");
    fs.drop_handle(other, 1, 2, 3);
    assert_eq!(fs.get_file_information(h).unwrap(), before);
}
