use std::path::PathBuf;

use clamav_client::Socket;

#[test]
fn socket_is_named_by_its_path() {
    let socket = Socket("/tmp/clamd.socket".into());
    assert_eq!(socket.0, PathBuf::from("/tmp/clamd.socket"));
    let copy = socket.clone();
    assert_eq!(copy.0, socket.0);
    assert_eq!(format!("{:?}", socket), "Socket(\"/tmp/clamd.socket\")");
}
