use memfs::attributes::FILE_ATTRIBUTE_READONLY;
use memfs::create::{CreateRequest, FILE_OPEN, FILE_CREATE, FILE_OPEN_IF, FILE_DIRECTORY_FILE};
use memfs::entry::SecurityDescriptor;
use memfs::memfs::MemFsHandler;
use memfs::model::ROOT;
use memfs::path::{find_name, FullName, PathInfo, StreamInfo};
use memfs::rename::{is_stream_name, Destination};
use memfs::status::{
    OperationError, STATUS_INVALID_PARAMETER, STATUS_INVALID_DEVICE_REQUEST, STATUS_ACCESS_DENIED,
    STATUS_OBJECT_NAME_INVALID, STATUS_OBJECT_NAME_COLLISION, STATUS_SHARING_VIOLATION,
};

fn wide(s: &str) -> Vec<u16> {
    s.encode_utf16().collect()
}

fn new_fs() -> MemFsHandler {
    MemFsHandler::new(SecurityDescriptor { bytes: vec![9] }, 100)
}

fn at(parent: usize, name: &str) -> Result<Option<PathInfo>, OperationError> {
    Ok(Some(PathInfo {
        name: FullName { file_name: wide(name), stream_info: None },
        parent,
    }))
}

fn stream(name: &str) -> StreamInfo {
    StreamInfo {
        name: wide(name),
        on_file: Ok(name.is_empty()),
        on_dir: Ok(false),
    }
}

fn at_stream(parent: usize, name: &str, stream_name: &str) -> Result<Option<PathInfo>, OperationError> {
    Ok(Some(PathInfo {
        name: FullName { file_name: wide(name), stream_info: Some(stream(stream_name)) },
        parent,
    }))
}

fn request(create_disposition: u32, create_options: u32) -> CreateRequest {
    CreateRequest {
        desired_access: 0,
        file_attributes: 0,
        create_disposition,
        create_options,
        info_delete_on_close: false,
    }
}

fn sec() -> Result<SecurityDescriptor, OperationError> {
    Ok(SecurityDescriptor { bytes: vec![1, 2, 3] })
}

fn make(fs: &mut MemFsHandler, parent: usize, name: &str, options: u32) -> (usize, usize) {
    let info = fs.create_file(&at(parent, name), sec(), request(FILE_CREATE, options), 200, 300).unwrap();
    assert!(info.new_file_created);
    (info.context, fs.lookup(parent, &wide(name)).unwrap())
}

fn make_stream(fs: &mut MemFsHandler, parent: usize, name: &str, stream_name: &str) -> usize {
    let info = fs
        .create_file(&at_stream(parent, name, stream_name), sec(), request(FILE_OPEN_IF, 0), 210, 310)
        .unwrap();
    info.context
}

fn open(fs: &mut MemFsHandler, parent: usize, name: &str) -> usize {
    fs.create_file(&at(parent, name), sec(), request(FILE_OPEN, 0), 220, 320).unwrap().context
}

fn root(fs: &mut MemFsHandler) -> usize {
    fs.create_file(&Ok(None), sec(), request(FILE_OPEN, 0), 230, 330).unwrap().context
}

fn refused(status: u32) -> OperationError {
    OperationError::NtStatus(status)
}

fn read_all(fs: &MemFsHandler, h: usize) -> Vec<u8> {
    let mut buffer = vec![0xEEu8; 64];
    let n = fs.read_file(h, 0, &mut buffer).unwrap();
    buffer.truncate(n as usize);
    buffer
}

fn move_to(
    fs: &mut MemFsHandler,
    h: usize,
    from: &str,
    to: Result<Option<PathInfo>, OperationError>,
    replace: bool,
) -> Result<(), OperationError> {
    let dest = Destination::Path(to);
    assert!(fs.can_move(h, &wide(from), &dest, replace));
    assert!(fs.is_own_name(h, &wide(from), &dest, replace));
    fs.move_file(h, &wide(from), &wide("\\new"), &dest, replace, 500)
}

fn to_stream(
    fs: &mut MemFsHandler,
    h: usize,
    from: Option<&str>,
    to: &str,
    replace: bool,
) -> Result<(), OperationError> {
    let dest = Destination::Stream {
        src: Ok(FullName { file_name: wide("f"), stream_info: from.map(stream) }),
        dst: Ok(FullName { file_name: vec![], stream_info: Some(stream(to)) }),
    };
    assert!(fs.can_move(h, &wide("\\f"), &dest, replace));
    assert!(fs.is_own_name(h, &wide("\\f"), &dest, replace));
    fs.move_file(h, &wide("\\f"), &wide(":s"), &dest, replace, 500)
}

#[test]
fn the_last_part_of_a_path() {
    assert_eq!(find_name(&wide("\\a\\bc")), Some(3));
    assert_eq!(find_name(&wide("\\")), Some(1));
    assert_eq!(find_name(&wide("abc")), None);
    assert_eq!(find_name(&[]), None);
    assert!(is_stream_name(&wide(":s")));
    assert!(!is_stream_name(&wide("s:")));
    assert!(!is_stream_name(&[]));
}

#[test]
fn a_file_is_renamed() {
    let mut fs = new_fs();
    let (h, e) = make(&mut fs, ROOT, "f", 0);
    fs.write_file(h, 0, b"abc", false, 400).unwrap();
    move_to(&mut fs, h, "\\F", at(ROOT, "G"), false).unwrap();
    assert_eq!(fs.lookup(ROOT, &wide("f")), None);
    assert_eq!(fs.lookup(ROOT, &wide("g")), Some(e));
    assert_eq!(read_all(&fs, h), b"abc");
    assert_eq!(fs.get_file_information(h).unwrap().last_access_time, 500);
    let r = root(&mut fs);
    assert_eq!(fs.find_files(r).unwrap()[0].file_name, wide("G"));
    assert_eq!(fs.get_file_information(r).unwrap().last_write_time, 500);
}

#[test]
fn a_file_changes_the_case_of_its_name() {
    let mut fs = new_fs();
    let (h, e) = make(&mut fs, ROOT, "file", 0);
    move_to(&mut fs, h, "\\file", at(ROOT, "FILE"), false).unwrap();
    assert_eq!(fs.lookup(ROOT, &wide("file")), Some(e));
    let r = root(&mut fs);
    assert_eq!(fs.find_files(r).unwrap()[0].file_name, wide("FILE"));
}

#[test]
fn an_entry_moves_to_another_directory_and_back() {
    let mut fs = new_fs();
    let (_, d) = make(&mut fs, ROOT, "d", FILE_DIRECTORY_FILE);
    let (h, e) = make(&mut fs, ROOT, "f", FILE_DIRECTORY_FILE);
    move_to(&mut fs, h, "\\f", at(d, "g"), false).unwrap();
    assert_eq!(fs.lookup(ROOT, &wide("f")), None);
    assert_eq!(fs.lookup(d, &wide("g")), Some(e));
    move_to(&mut fs, h, "\\d\\g", at(ROOT, "f"), false).unwrap();
    assert_eq!(fs.lookup(ROOT, &wide("f")), Some(e));
    assert_eq!(fs.lookup(d, &wide("g")), None);
    fs.delete_directory(h, true).unwrap();
    fs.drop_handle(h, 1, 2, 3);
    assert_eq!(fs.lookup(ROOT, &wide("f")), None);
}

#[test]
fn a_file_takes_the_place_of_another() {
    let mut fs = new_fs();
    let (h, e) = make(&mut fs, ROOT, "f", 0);
    let (g, _) = make(&mut fs, ROOT, "g", 0);
    assert_eq!(
        move_to(&mut fs, h, "\\f", at(ROOT, "g"), false).unwrap_err(),
        refused(STATUS_OBJECT_NAME_COLLISION)
    );
    assert_eq!(
        move_to(&mut fs, h, "\\f", at(ROOT, "g"), true).unwrap_err(),
        refused(STATUS_ACCESS_DENIED)
    );
    fs.set_file_attributes(g, FILE_ATTRIBUTE_READONLY, 1).unwrap();
    fs.drop_handle(g, 1, 2, 3);
    assert_eq!(
        move_to(&mut fs, h, "\\f", at(ROOT, "g"), true).unwrap_err(),
        refused(STATUS_ACCESS_DENIED)
    );
    let g = open(&mut fs, ROOT, "g");
    fs.set_file_attributes(g, 0, 1).unwrap();
    fs.drop_handle(g, 1, 2, 3);
    move_to(&mut fs, h, "\\f", at(ROOT, "g"), true).unwrap();
    assert_eq!(fs.lookup(ROOT, &wide("g")), Some(e));
    assert_eq!(fs.lookup(ROOT, &wide("f")), None);
    let r = root(&mut fs);
    assert_eq!(fs.find_files(r).unwrap().len(), 1);
}

#[test]
fn directories_neither_replace_nor_are_replaced() {
    let mut fs = new_fs();
    let (f, _) = make(&mut fs, ROOT, "f", 0);
    let (d, _) = make(&mut fs, ROOT, "d", FILE_DIRECTORY_FILE);
    for (h, from, to) in [(f, "\\f", "d"), (d, "\\d", "f")] {
        assert_eq!(
            move_to(&mut fs, h, from, at(ROOT, to), true).unwrap_err(),
            refused(STATUS_ACCESS_DENIED)
        );
    }
}

#[test]
fn moves_that_are_refused() {
    let mut fs = new_fs();
    let (f, _) = make(&mut fs, ROOT, "f", 0);
    let s = make_stream(&mut fs, ROOT, "f", "s");
    let r = root(&mut fs);
    assert_eq!(
        move_to(&mut fs, f, "f", at(ROOT, "g"), false).unwrap_err(),
        refused(STATUS_INVALID_PARAMETER)
    );
    assert_eq!(
        move_to(&mut fs, r, "\\", at(ROOT, "g"), false).unwrap_err(),
        refused(STATUS_INVALID_DEVICE_REQUEST)
    );
    for to in [at_stream(ROOT, "g", "s"), Ok(None)] {
        assert_eq!(
            move_to(&mut fs, f, "\\f", to, false).unwrap_err(),
            refused(STATUS_OBJECT_NAME_INVALID)
        );
    }
    assert_eq!(
        move_to(&mut fs, f, "\\f", Err(OperationError::Win32(3)), false).unwrap_err(),
        OperationError::Win32(3)
    );
    assert_eq!(
        move_to(&mut fs, s, "\\f:s", at(ROOT, "g"), false).unwrap_err(),
        refused(STATUS_OBJECT_NAME_INVALID)
    );
    let dest = Destination::Stream { src: Err(OperationError::Win32(4)), dst: Err(OperationError::Win32(5)) };
    assert_eq!(
        fs.move_file(f, &wide("\\f"), &wide(":s"), &dest, false, 1).unwrap_err(),
        OperationError::Win32(4)
    );
}

#[test]
fn a_move_needs_the_old_name() {
    let mut fs = new_fs();
    let (f, _) = make(&mut fs, ROOT, "f", 0);
    make(&mut fs, ROOT, "g", 0);
    let dest = Destination::Path(at(ROOT, "h"));
    assert!(!fs.can_move(f, &wide("\\x"), &dest, false));
    assert!(!fs.is_own_name(f, &wide("\\x"), &dest, false));
    assert!(fs.can_move(f, &wide("\\g"), &dest, false));
    assert!(!fs.is_own_name(f, &wide("\\g"), &dest, false));
    let onto_itself = Destination::Path(at(ROOT, "f"));
    assert!(!fs.can_move(f, &wide("\\g"), &onto_itself, true));
    assert!(fs.can_move(f, &wide("\\F"), &onto_itself, true));
    let s = make_stream(&mut fs, ROOT, "f", "s");
    let rename = |src: Option<&str>| Destination::Stream {
        src: Ok(FullName { file_name: wide("f"), stream_info: src.map(stream) }),
        dst: Ok(FullName { file_name: vec![], stream_info: Some(stream("t")) }),
    };
    assert!(fs.can_move(s, &wide("\\f:s"), &rename(Some("S")), false));
    assert!(!fs.can_move(s, &wide("\\f:s"), &rename(Some("x")), false));
    assert!(!fs.can_move(s, &wide("\\f:s"), &rename(None), false));
}

#[test]
fn a_directory_in_itself_is_not_closed_for_deletion() {
    let mut fs = new_fs();
    let (h, d) = make(&mut fs, ROOT, "d", FILE_DIRECTORY_FILE);
    move_to(&mut fs, h, "\\d", at(d, "d"), false).unwrap();
    assert_eq!(fs.lookup(d, &wide("d")), Some(d));
    assert_eq!(fs.lookup(ROOT, &wide("d")), None);
    fs.delete_file(h, true).unwrap();
    assert!(!fs.can_drop(h));
}

#[test]
fn a_file_becomes_a_stream_and_a_file_again() {
    let mut fs = new_fs();
    let (h, _) = make(&mut fs, ROOT, "f", 0);
    let main = open(&mut fs, ROOT, "f");
    fs.write_file(h, 0, b"abc", false, 400).unwrap();
    to_stream(&mut fs, h, None, "s", false).unwrap();
    assert_eq!(read_all(&fs, h), b"abc");
    assert_eq!(read_all(&fs, main), b"");
    assert_eq!(fs.find_streams(h).unwrap().len(), 2);
    assert_eq!(fs.get_file_information(h).unwrap().last_access_time, 500);
    assert_eq!(
        to_stream(&mut fs, h, Some("s"), "", false).unwrap_err(),
        refused(STATUS_OBJECT_NAME_COLLISION)
    );
    to_stream(&mut fs, h, Some("S"), "", true).unwrap();
    assert_eq!(read_all(&fs, main), b"abc");
    assert_eq!(fs.find_streams(h).unwrap().len(), 1);
    to_stream(&mut fs, h, None, "", false).unwrap();
    assert_eq!(read_all(&fs, h), b"abc");
}

#[test]
fn a_pending_deletion_moves_with_the_bytes() {
    let mut fs = new_fs();
    let (h, _) = make(&mut fs, ROOT, "f", 0);
    fs.delete_file(h, true).unwrap();
    to_stream(&mut fs, h, None, "s", false).unwrap();
    fs.drop_handle(h, 1, 2, 3);
    let f = open(&mut fs, ROOT, "f");
    assert_eq!(fs.find_streams(f).unwrap().len(), 1);
}

#[test]
fn a_stream_is_renamed() {
    let mut fs = new_fs();
    let (f, _) = make(&mut fs, ROOT, "f", 0);
    let s = make_stream(&mut fs, ROOT, "f", "s");
    let t = make_stream(&mut fs, ROOT, "f", "t");
    fs.write_file(s, 0, b"abc", false, 400).unwrap();
    assert_eq!(
        to_stream(&mut fs, s, Some("s"), "t", false).unwrap_err(),
        refused(STATUS_OBJECT_NAME_COLLISION)
    );
    assert_eq!(
        to_stream(&mut fs, s, Some("s"), "t", true).unwrap_err(),
        refused(STATUS_ACCESS_DENIED)
    );
    fs.drop_handle(t, 1, 2, 3);
    to_stream(&mut fs, s, Some("s"), "t", true).unwrap();
    let items = fs.find_streams(f).unwrap();
    assert_eq!(items.len(), 2);
    assert_eq!((items[1].name.clone(), items[1].size), (wide(":t:$DATA"), 3));
    to_stream(&mut fs, s, Some("t"), "T", false).unwrap();
    assert_eq!(fs.find_streams(f).unwrap()[1].name, wide(":T:$DATA"));
}

#[test]
fn stream_moves_that_are_refused() {
    let mut fs = new_fs();
    let (d, _) = make(&mut fs, ROOT, "d", FILE_DIRECTORY_FILE);
    assert_eq!(
        to_stream(&mut fs, d, None, "s", false).unwrap_err(),
        refused(STATUS_OBJECT_NAME_INVALID)
    );
    make(&mut fs, ROOT, "f", 0);
    let s = make_stream(&mut fs, ROOT, "f", "s");
    make_stream(&mut fs, ROOT, "f", "s");
    assert_eq!(
        to_stream(&mut fs, s, Some("s"), "", true).unwrap_err(),
        refused(STATUS_SHARING_VIOLATION)
    );
    let dest = Destination::Stream {
        src: Ok(FullName { file_name: wide("f"), stream_info: None }),
        dst: Ok(FullName {
            file_name: vec![],
            stream_info: Some(StreamInfo {
                name: wide("x"),
                on_file: Err(OperationError::Win32(123)),
                on_dir: Ok(true),
            }),
        }),
    };
    let f = open(&mut fs, ROOT, "f");
    assert_eq!(
        fs.move_file(f, &wide("\\f"), &wide(":x"), &dest, false, 1).unwrap_err(),
        OperationError::Win32(123)
    );
}
