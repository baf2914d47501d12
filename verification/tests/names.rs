use rusty_link::link::pingresponder;

#[test]
fn measurement_message_types_have_names() {
    assert_eq!(pingresponder::message_type_name(0), "PING");
    assert_eq!(pingresponder::message_type_name(1), "PONG");
}

#[test]
fn discovery_listens_on_the_link_group() {
    assert_eq!(rusty_link::discovery::MULTICAST_ADDR.to_be_bytes(), [224, 76, 78, 75]);
    let any = rusty_link::discovery::multicast_ip_any();
    assert_eq!((any.ip, any.port), (0, 20808));
}
