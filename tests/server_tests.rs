use concurrent_network_server::server::{AsyncServer, Server};

#[test]
fn servers_keep_their_address() {
    assert_eq!(Server::new("127.0.0.1:7878").addr(), "127.0.0.1:7878");
    assert_eq!(AsyncServer::new("0.0.0.0:9000").addr(), "0.0.0.0:9000");
}
