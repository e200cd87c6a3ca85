use aimeqtt::client::answer_publish;
use aimeqtt::packet::craft_connect_packet;
use aimeqtt::packet::craft_connect_packet_with_credentials;
use aimeqtt::client::connection_error;
use aimeqtt::client::publish_outcome;
use aimeqtt::client::session_read;
use aimeqtt::client::Client;
use aimeqtt::client::ClientError;
use aimeqtt::client::ClientOptions;
use aimeqtt::client::PublishRequest;
use aimeqtt::client::IncomingAction;
use aimeqtt::client::ReadOutcome;
use aimeqtt::client::SessionRead;
use aimeqtt::error::MqttError;
use aimeqtt::packet::craft_pingreq_packet;
use aimeqtt::packet::craft_publish_packet_to;
use aimeqtt::packet::craft_subscribe_packet;
use aimeqtt::packet::ConnackPacket;
use aimeqtt::packet::ConnackReturnCode;
use aimeqtt::packet::IncomingPacket;

fn ignore(_payload: String) {}

fn client_for(host: &str, port: u16) -> Client<fn(String)> {
    let options = ClientOptions::<_, _, fn(String)>::new()
        .with_broker_host(host.to_string())
        .with_broker_port(port)
        .with_callback_handler(ignore as fn(String));
    Client::from_options(options)
}

#[test]
fn broker_address_is_host_colon_port() {
    assert_eq!(client_for("127.0.0.1", 1883).broker_address(), "127.0.0.1:1883");
    assert_eq!(client_for("broker", 0).broker_address(), "broker:0");
    assert_eq!(client_for("b", 65535).broker_address(), "b:65535");
    assert_eq!(client_for("h", 10).broker_address(), "h:10");
}

#[test]
fn keep_alive_defaults_to_sixty_seconds() {
    let client = client_for("h", 1);
    assert_eq!(client.keep_alive(), 60);
    assert_eq!(client.ping_interval_millis(), 30_000);
}

#[test]
fn keep_alive_from_options_and_half_interval() {
    let options = ClientOptions::<_, _, fn(String)>::new()
        .with_keep_alive(7)
        .with_broker_port(1)
        .with_credentials("user".to_string(), "SECRET-REDACTED".to_string())
        .with_broker_host("h".to_string());
    let client = Client::from_options(options);
    assert_eq!(client.keep_alive(), 7);
    assert_eq!(client.ping_interval_millis(), 3_500);
    assert!(client.callback_handler().is_none());
}

#[test]
fn clone_keeps_settings_without_receivers() {
    let mut client = client_for("h", 2);
    let mut copy = client.clone();
    assert_eq!(copy.broker_address(), "h:2");
    assert!(copy.take_publish_receiver().is_none());
    assert!(copy.take_raw_tcp_receiver().is_none());
    assert!(client.take_publish_receiver().is_some());
    assert!(client.take_raw_tcp_receiver().is_some());
    assert!(client.take_raw_tcp_receiver().is_none());
}

#[test]
fn subscribe_and_ping_queue_their_packets() {
    let mut client = client_for("h", 3);
    let mut raw = client.take_raw_tcp_receiver().unwrap();
    client.subscribe("a/b".to_string()).unwrap();
    client.send_pingreq_packet().unwrap();
    assert_eq!(raw.try_recv().unwrap(), craft_subscribe_packet("a/b".to_string()));
    assert_eq!(raw.try_recv().unwrap(), craft_pingreq_packet());
    // A clone queues on the same channel.
    let copy = client.clone();
    copy.send_pingreq_packet().unwrap();
    assert_eq!(raw.try_recv().unwrap(), craft_pingreq_packet());
}

#[test]
fn sending_fails_once_the_loop_is_gone() {
    let mut client = client_for("h", 4);
    drop(client.take_raw_tcp_receiver());
    assert!(client.send_pingreq_packet().is_err());
    drop(client.take_publish_receiver());
    assert_eq!(
        client.request_publish("t".to_string(), "p".to_string()).err(),
        Some(ClientError::InternalError)
    );
}

#[test]
fn publish_request_goes_through_the_loop() {
    let mut client = client_for("h", 5);
    let mut requests = client.take_publish_receiver().unwrap();
    let mut raw = client.take_raw_tcp_receiver().unwrap();
    let mut answer = client
        .request_publish("t/1".to_string(), "hello".to_string())
        .unwrap();
    let request = requests.try_recv().unwrap();
    assert_eq!(request.topic, "t/1");
    assert!(client.handle_publish(request));
    assert_eq!(
        raw.try_recv().unwrap(),
        craft_publish_packet_to("t/1".to_string(), "hello".to_string())
    );
    let response = answer.try_recv().unwrap();
    assert_eq!(publish_outcome(Ok(response)), Ok(()));
}

#[test]
fn publish_with_overlong_topic_gets_no_answer() {
    let mut client = client_for("h", 6);
    let mut requests = client.take_publish_receiver().unwrap();
    let _raw = client.take_raw_tcp_receiver().unwrap();
    let answer = client
        .request_publish("t".repeat(65536), "p".to_string())
        .unwrap();
    let request = requests.try_recv().unwrap();
    assert!(!client.handle_publish(request));
    let runtime = tokio::runtime::Builder::new_current_thread().build().unwrap();
    let awaited = runtime.block_on(answer);
    assert!(awaited.is_err());
    assert_eq!(publish_outcome(awaited), Err(ClientError::InternalError));
}

#[test]
fn publish_fails_when_packet_cannot_be_queued() {
    let mut client = client_for("h", 7);
    let mut requests = client.take_publish_receiver().unwrap();
    drop(client.take_raw_tcp_receiver());
    let mut answer = client.request_publish("t".to_string(), "p".to_string()).unwrap();
    let request = requests.try_recv().unwrap();
    assert!(!client.handle_publish(request));
    let response = answer.try_recv().unwrap();
    assert!(response.is_err());
    assert_eq!(publish_outcome(Ok(response)), Err(ClientError::InternalError));
}

#[test]
fn incoming_reads() {
    let client = client_for("h", 8);
    let buffer = [0u8; 128];
    assert!(matches!(
        client.handle_incoming_packet(ReadOutcome::Received(0), &buffer),
        Err(MqttError::ConnectionClosed)
    ));
    assert!(matches!(
        client.handle_incoming_packet(ReadOutcome::Received(128), &buffer),
        Err(MqttError::PacketTooLarge)
    ));
    assert!(matches!(
        client.handle_incoming_packet(ReadOutcome::WouldBlock, &buffer),
        Ok(IncomingAction::Idle)
    ));
    let failure = std::io::Error::new(std::io::ErrorKind::BrokenPipe, "gone");
    match client.handle_incoming_packet(ReadOutcome::Failed(failure), &buffer) {
        Err(MqttError::IoError(e)) => assert_eq!(e.kind(), std::io::ErrorKind::BrokenPipe),
        _ => panic!("expected an I/O error"),
    }
}

#[test]
fn incoming_packets_are_dispatched_by_type() {
    let client = client_for("h", 9);
    let mut buffer = [0u8; 128];
    buffer[..4].copy_from_slice(&[0x20, 2, 1, 4]);
    match client.handle_incoming_packet(ReadOutcome::Received(4), &buffer) {
        Ok(IncomingAction::Connack(c)) => assert_eq!(
            c,
            ConnackPacket {
                flags: 1,
                return_code: ConnackReturnCode::ConnectionRefusedBadUsernameOrPassword,
            }
        ),
        _ => panic!("expected a CONNACK"),
    }
    let publish = [0x30, 7, 0, 3, b'a', b'/', b'b', b'h', b'i'];
    buffer[..9].copy_from_slice(&publish);
    match client.handle_incoming_packet(ReadOutcome::Received(9), &buffer) {
        Ok(IncomingAction::Deliver(_, payload)) => assert_eq!(payload, "hi"),
        _ => panic!("expected a delivery"),
    }
    buffer[..2].copy_from_slice(&[0xD0, 0]);
    assert!(matches!(
        client.handle_incoming_packet(ReadOutcome::Received(2), &buffer),
        Ok(IncomingAction::Ignore(13))
    ));
    buffer[..3].copy_from_slice(&[0x30, 9, 0]);
    match client.handle_incoming_packet(ReadOutcome::Received(3), &buffer) {
        Err(MqttError::InvalidPacket(m)) => assert_eq!(m, "malformed PUBLISH packet"),
        _ => panic!("expected an invalid packet"),
    }
}

#[test]
fn publish_without_handler_is_idle() {
    let options = ClientOptions::<_, _, fn(String)>::new()
        .with_broker_host("h".to_string())
        .with_broker_port(1);
    let client = Client::from_options(options);
    let publish = [0x30, 7, 0, 3, b'a', b'/', b'b', b'h', b'i'];
    assert!(matches!(client.process_packet(&publish), Ok(IncomingAction::Idle)));
}

#[test]
fn connection_errors() {
    let closed = connection_error(MqttError::ConnectionClosed);
    assert_eq!(closed.kind(), std::io::ErrorKind::ConnectionAborted);
    assert_eq!(closed.to_string(), "Broker closed connection");
    let large = connection_error(MqttError::PacketTooLarge);
    assert_eq!(large.kind(), std::io::ErrorKind::InvalidData);
    assert_eq!(large.to_string(), "Packet too large");
    let invalid = connection_error(MqttError::InvalidPacket("bad".to_string()));
    assert_eq!(invalid.kind(), std::io::ErrorKind::InvalidData);
    assert_eq!(invalid.to_string(), "bad");
}

#[test]
fn session_reads() {
    let buffer = [0xD0u8, 0, 0, 0];
    assert!(matches!(session_read(ReadOutcome::Received(0), &buffer), SessionRead::Closed));
    assert!(matches!(session_read(ReadOutcome::WouldBlock, &buffer), SessionRead::Idle));
    assert!(matches!(
        session_read(ReadOutcome::Received(2), &buffer),
        SessionRead::Packet(IncomingPacket::Pingresp(true))
    ));
    let failure = std::io::Error::new(std::io::ErrorKind::Other, "x");
    assert!(matches!(session_read(ReadOutcome::Failed(failure), &buffer), SessionRead::Failed(_)));
}

#[test]
fn connect_packet_carries_the_credentials() {
    let plain = client_for("h", 10);
    assert_eq!(plain.connect_packet(), Some(craft_connect_packet()));
    let options = ClientOptions::<_, _, fn(String)>::new()
        .with_broker_host("h".to_string())
        .with_broker_port(1)
        .with_credentials("me".to_string(), "pw".to_string());
    let client = Client::from_options(options);
    assert_eq!(
        client.connect_packet(),
        Some(craft_connect_packet_with_credentials(
            Some("me".to_string()),
            Some("pw".to_string()),
            60
        ))
    );
    let too_long = ClientOptions::<_, _, fn(String)>::new()
        .with_broker_host("h".to_string())
        .with_broker_port(1)
        .with_credentials("x".repeat(65536), "pw".to_string());
    assert_eq!(Client::from_options(too_long).connect_packet(), None);
}

#[test]
fn answer_publish_hands_the_send_outcome_to_the_requester() {
    let (responder, mut answer) = tokio::sync::oneshot::channel();
    assert!(answer_publish(responder, Ok(())));
    assert_eq!(answer.try_recv().unwrap(), Ok(()));
    let (responder, mut answer) = tokio::sync::oneshot::channel();
    let failed = tokio::sync::mpsc::error::SendError(vec![0x30u8, 1, 2]);
    assert!(!answer_publish(responder, Err(failed)));
    assert_eq!(
        answer.try_recv().unwrap(),
        Err(tokio::sync::mpsc::error::SendError(vec![0x30u8, 1, 2]))
    );
}

#[test]
fn connect_packet_announces_the_client_keep_alive() {
    let options = ClientOptions::<_, _, fn(String)>::new()
        .with_broker_host("h".to_string())
        .with_broker_port(1)
        .with_keep_alive(10);
    let client = Client::from_options(options);
    assert_eq!(
        client.connect_packet(),
        Some(craft_connect_packet_with_credentials(None, None, 10))
    );
}

#[test]
fn failed_sends_hand_the_packet_back() {
    let mut client = client_for("h", 11);
    drop(client.take_raw_tcp_receiver());
    let ping = client.send_pingreq_packet().unwrap_err();
    assert_eq!(ping.0, craft_pingreq_packet());
    let publish = client
        .send_publish_packet("t".to_string(), "p".to_string())
        .unwrap_err();
    assert_eq!(publish.0, craft_publish_packet_to("t".to_string(), "p".to_string()));
    let subscribe = client.subscribe("a/#".to_string()).unwrap_err();
    assert_eq!(subscribe.0, craft_subscribe_packet("a/#".to_string()));
}

#[test]
fn publish_request_carries_topic_and_payload() {
    let (responder, _answer) = tokio::sync::oneshot::channel();
    let request = PublishRequest::new("topic".to_string(), "payload".to_string(), responder);
    assert_eq!(request.topic, "topic");
    assert_eq!(request.payload, "payload");
}
