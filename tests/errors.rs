use send::errors::{FetchError, NetworkError, SendError, SerializationError, ServeError};
use send::network::Ipv4Address;

#[test]
fn each_error_describes_itself() {
    assert_eq!(
        SerializationError::IncompleteRead(4, 10).description(),
        "An error occurred which caused a read to end before getting the expected data"
    );
    assert_eq!(SendError::PathConversion.description(), "An error occurred while converting the path to a string");
    assert_eq!(SendError::UnknownFile(3).description(), "The client requested an unknown file");
    assert_eq!(ServeError::RegistryFull.description(), "Every file id has been handed out");
    assert_eq!(NetworkError::INet(-2).description(), "A Network error occurred");
    assert_eq!(FetchError::InvalidTransport("x".to_string()).description(), "The given transport was invalid");
    assert_eq!(FetchError::FileExists("a".to_string()).description(), "The specified file already exists");
}

fn io_error() -> std::io::Error {
    std::io::Error::new(std::io::ErrorKind::Other, "broken")
}

#[test]
fn messages_carry_their_particulars() {
    assert_eq!(
        SerializationError::IncompleteRead(4, 10).message(),
        "A read didn't get the expected amount of data [Expected 10, Actual 4]"
    );
    assert_eq!(SendError::FileTooLarge(4294967296).message(), "The file is too large to send: 4294967296 bytes");
    assert_eq!(NetworkError::INet(-3).message(), "INet Error -3");
    assert_eq!(NetworkError::INet(0).message(), "INet Error 0");
    assert_eq!(
        ServeError::Bind(io_error(), Ipv4Address::new(192, 168, 0, 10), 2222).message(),
        "While binding to 192.168.0.10:2222"
    );
    assert_eq!(SendError::UnknownFile(7).message(), "The client requested an unknown file with id 7");
    assert_eq!(
        ServeError::SendingFile(SendError::UnknownFile(0), Ipv4Address::new(192, 168, 0, 7), 51000).message(),
        "While sending to 192.168.0.7:51000"
    );
    assert_eq!(
        FetchError::InvalidTransport("notaword".to_string()).message(),
        "The transport \"notaword\" isn't valid"
    );
    assert_eq!(FetchError::FileExists("a.txt".to_string()).message(), "File already exists: a.txt");
    assert_eq!(
        FetchError::Connection(io_error(), Ipv4Address::new(10, 0, 0, 1), 2222).message(),
        "While connecting to 10.0.0.1:2222"
    );
    assert_eq!(FetchError::ReadContent(io_error()).message(), "While reading content of file from network");
}
