use send::errors::SendError;
use send::network::{Interface, Ipv4Address};
use send::registry::{file_message, FileInfo, FileRepository, SERVED_FILE};
use send::transport::Transport;

fn loopback() -> Interface {
    Interface { name: "lo".to_string(), addr: Ipv4Address::new(127, 0, 0, 1) }
}

#[test]
fn registration_gives_the_interface_address() {
    let mut repo = FileRepository::new(loopback());
    let t = repo.add_file(FileInfo::new("/srv/a.txt".to_string(), 3)).ok().unwrap();
    assert_eq!(t.state(), 0x7f00_0001);
    assert_eq!(t.max_state(), u32::MAX);
    assert_eq!(repo.interface.name, "lo");
}

#[test]
fn ids_are_handed_out_in_order() {
    let mut repo = FileRepository::new(loopback());
    assert!(matches!(repo.get_file(0), Err(SendError::UnknownFile(0))));
    repo.add_file(FileInfo::new("first".to_string(), 1)).ok().unwrap();
    repo.add_file(FileInfo::new("second".to_string(), 2)).ok().unwrap();
    assert_eq!(repo.get_file(0).ok().unwrap().path(), "first");
    assert_eq!(repo.get_file(1).ok().unwrap().path(), "second");
    assert_eq!(repo.get_file(1).ok().unwrap().len(), 2);
    assert!(matches!(repo.get_file(2), Err(SendError::UnknownFile(2))));
}

#[test]
fn a_connection_gets_the_first_file() {
    let mut repo = FileRepository::new(loopback());
    assert!(matches!(repo.transfer(), Err(SendError::UnknownFile(SERVED_FILE))));
    repo.add_file(FileInfo::new("/srv/files/a.txt".to_string(), 3)).ok().unwrap();
    repo.add_file(FileInfo::new("/srv/files/b.txt".to_string(), 9)).ok().unwrap();
    let (file, message) = repo.transfer().ok().unwrap();
    assert_eq!(file.path(), "/srv/files/a.txt");
    assert_eq!(message.name(), "a.txt");
    assert_eq!(message.size(), 3);
}

#[test]
fn the_name_sent_is_the_last_path_component() {
    let m = FileInfo::new("dir/sub/report.txt".to_string(), 11).message().ok().unwrap();
    assert_eq!(m.name(), "report.txt");
    let m = FileInfo::new("plain".to_string(), 0).message().ok().unwrap();
    assert_eq!(m.name(), "plain");
}

#[test]
fn a_path_without_a_file_name_is_refused() {
    assert!(matches!(FileInfo::new("/".to_string(), 0).message(), Err(SendError::PathConversion)));
    assert!(matches!(FileInfo::new("a/..".to_string(), 0).message(), Err(SendError::PathConversion)));
    assert!(matches!(file_message(None, 5), Err(SendError::PathConversion)));
}

#[test]
fn a_file_beyond_32_bits_is_refused() {
    let big = u32::MAX as u64 + 1;
    assert!(matches!(
        FileInfo::new("big.iso".to_string(), big).message(),
        Err(SendError::FileTooLarge(n)) if n == big
    ));
    let m = file_message(Some("edge".to_string()), u32::MAX as u64).ok().unwrap();
    assert_eq!(m.size(), u32::MAX);
}

#[test]
fn a_failed_transfer_is_a_sending_error() {
    let mut repo = FileRepository::new(loopback());
    repo.add_file(FileInfo::new("/".to_string(), 0)).ok().unwrap();
    assert!(matches!(repo.transfer(), Err(SendError::PathConversion)));
}
