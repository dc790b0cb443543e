use btcnetmsg::data::MAX_ADDRS;
use btcnetmsg::peer::{discovery_step, DiscoveryStep, Peer, Port};
use btcnetmsg::{
    Address, Checksum, Command, Decode, EmptyPayload, Encode, Error, Inventory, IpAddress, Magic, Message,
    MessageHeader, MessagePayload, NetAddress, Service, ServicesList, TimestampedNetAddress,
    VersionMessage,
};

fn now_secs() -> u64 {
    std::time::SystemTime::now()
        .duration_since(std::time::SystemTime::UNIX_EPOCH)
        .expect("Failed to get time")
        .as_secs()
}

#[test]
fn version_encode_decode() {
    let peer = Address::me();
    let vm = VersionMessage::for_peer(peer, now_secs());
    let mut enc = Vec::new();
    vm.net_encode(&mut enc);
    let dec: VersionMessage = VersionMessage::net_decode(&enc[..]).expect("Failed to decode").0;

    assert_eq!(vm, dec);
}

#[test]
fn getaddr_encdec() {
    let msg = Message::new(MessagePayload::EmptyPayload, Magic::Main, Command::GetAddr);
    let mut enc = Vec::new();
    msg.net_encode(&mut enc);
    let dec: Message = Message::net_decode(&enc[..]).expect("Failed to decode").0;

    assert_eq!(msg, dec);
}

#[test]
fn handshake_fields() {
    let address = Address { ip: IpAddress::V4([192, 168, 1, 7]), port: 8333 };
    let vm = VersionMessage::for_peer_with_nonce(address, 1_650_000_000, 42);
    assert_eq!(vm.version, 70015);
    assert_eq!(vm.service, ServicesList::default());
    assert_eq!(vm.timestamp, 1_650_000_000);
    assert_eq!(vm.addr_recv, NetAddress::new(ServicesList::default(), address));
    assert_eq!(vm.addr_from, NetAddress::default());
    assert_eq!(vm.nonce, 42);
    assert_eq!(vm.agent, "bit-tune-v0.0.1");
    assert_eq!(vm.start_height, 0);
    assert!(!vm.relay);
    let random = VersionMessage::for_peer(address, 5);
    assert!(random.nonce < u64::MAX);
}

#[test]
fn version_message_round_trip() {
    let address = Address { ip: IpAddress::V4([203, 0, 113, 9]), port: 18444 };
    let vm = VersionMessage::for_peer_with_nonce(address, 1_700_000_123, 0xDEAD_BEEF);
    let msg = Message::new(MessagePayload::Version(vm.clone()), Magic::Test, Command::Version);
    let mut enc = Vec::new();
    let n = msg.net_encode(&mut enc);
    assert_eq!(n, enc.len());
    assert_eq!(msg.header.length as usize, n - 24);
    assert_eq!(msg.payload.len(), n - 24);
    enc.extend_from_slice(&[1, 2, 3]);
    let (dec, used) = Message::net_decode(&enc).unwrap();
    assert_eq!(used, n);
    assert_eq!(dec, msg);
    assert_eq!(dec.payload, MessagePayload::Version(vm));
}

#[test]
fn version_payload_layout() {
    let vm = VersionMessage::for_peer_with_nonce(Address::me(), 1, 2);
    let mut enc = Vec::new();
    assert_eq!(vm.net_encode(&mut enc), 4 + 8 + 8 + 26 + 26 + 8 + 16 + 4 + 1);
    assert_eq!(&enc[..4], &70015u32.to_le_bytes());
    assert_eq!(&enc[12..20], &1u64.to_le_bytes());
    assert_eq!(&enc[72..80], &2u64.to_le_bytes());
    assert_eq!(enc[enc.len() - 1], 0);
}

#[test]
fn empty_payload_checksum() {
    let verack = Message::new(MessagePayload::EmptyPayload, Magic::Main, Command::Verack);
    assert_eq!(verack.header.checksum, [0x5D, 0xF6, 0xE0, 0xE2]);
    assert_eq!(verack.header.length, 0);
    let getaddr = Message::new(MessagePayload::EmptyPayload, Magic::Test, Command::GetAddr);
    assert_eq!(getaddr.header.checksum, [0x5D, 0xF6, 0xE0, 0xE2]);
    let mut enc = Vec::new();
    verack.net_encode(&mut enc);
    assert_eq!(
        enc,
        vec![
            0xF9, 0xBE, 0xB4, 0xD9, b'v', b'e', b'r', b'a', b'c', b'k', 0, 0, 0, 0, 0, 0, 0, 0, 0,
            0, 0x5D, 0xF6, 0xE0, 0xE2
        ]
    );
    let mut e = Vec::new();
    assert_eq!(EmptyPayload::default().net_encode(&mut e), 0);
    assert_eq!(EmptyPayload::net_decode(&[1, 2]).unwrap(), (EmptyPayload, 0));
}

#[test]
fn checksum_of_encoded_values() {
    assert_eq!(MessagePayload::EmptyPayload.checksum(), [0x5D, 0xF6, 0xE0, 0xE2]);
    let ping = MessagePayload::PingPong(7);
    let msg = Message::new(ping.clone(), Magic::Main, Command::Ping);
    assert_eq!(ping.checksum(), msg.header.checksum);
    assert_ne!(ping.checksum(), [0x5D, 0xF6, 0xE0, 0xE2]);
    let ta = TimestampedNetAddress::new(9, NetAddress::default());
    assert_eq!(NetAddress::from(ta), NetAddress::default());
}

#[test]
fn empty_payload_needs_zero_length() {
    let header = MessageHeader::new(Magic::Main, Command::Verack, 4, [0x5D, 0xF6, 0xE0, 0xE2]);
    let mut enc = Vec::new();
    header.net_encode(&mut enc);
    enc.extend_from_slice(&[0, 0, 0, 0]);
    assert_eq!(Message::net_decode(&enc).unwrap_err(), Error::InvalidData);
}

#[test]
fn unknown_command_becomes_dump() {
    let header = MessageHeader::new(Magic::Main, Command::Unknown(String::from("foobar")), 3, [9, 9, 9, 9]);
    let mut enc = Vec::new();
    header.net_encode(&mut enc);
    enc.extend_from_slice(&[0xAA, 0xBB, 0xCC]);
    enc.extend_from_slice(&[0xF9, 0xBE]);
    let (msg, used) = Message::net_decode(&enc).unwrap();
    assert_eq!(used, 27);
    assert_eq!(msg.header.command, Command::Unknown(String::from("foobar")));
    assert_eq!(msg.header.command.to_str(), "foobar");
    assert_eq!(msg.payload, MessagePayload::Dump(vec![0xAA, 0xBB, 0xCC]));
    let mut again = Vec::new();
    msg.net_encode(&mut again);
    assert_eq!(&again[..], &enc[..27]);
}

#[test]
fn unknown_command_short_payload() {
    let header = MessageHeader::new(Magic::Main, Command::Unknown(String::from("foobar")), 5, [0; 4]);
    let mut enc = Vec::new();
    header.net_encode(&mut enc);
    enc.extend_from_slice(&[1, 2]);
    assert_eq!(Message::net_decode(&enc).unwrap_err(), Error::Io);
}

#[test]
fn addr_list_cap() {
    let mut payload = vec![101u8];
    payload.extend_from_slice(&[0u8; 30]);
    assert_eq!(
        MessagePayload::decode_for(&Command::Addr, payload.len() as u32, &payload).unwrap_err(),
        Error::InvalidData
    );
    assert_eq!(MAX_ADDRS, 100);
}

#[test]
fn addr_list_round_trip() {
    let mut services = ServicesList::new();
    services.add_flag(Service::Network);
    services.add_flag(Service::Witness);
    let mut addrs = Vec::new();
    for i in 0..3u8 {
        let na = NetAddress::new(services, Address { ip: IpAddress::V4([10, 0, 0, i]), port: 8333 });
        addrs.push(TimestampedNetAddress::new(1_600_000_000 + i as u32, na));
    }
    let msg = Message::new(MessagePayload::AddrList(addrs.clone()), Magic::Main, Command::Addr);
    assert_eq!(msg.header.length, 1 + 3 * 30);
    let mut enc = Vec::new();
    msg.net_encode(&mut enc);
    assert_eq!(enc[24], 3);
    let (dec, used) = Message::net_decode(&enc).unwrap();
    assert_eq!(used, enc.len());
    assert_eq!(dec.payload, MessagePayload::AddrList(addrs));
}

#[test]
fn inv_round_trip() {
    let items = vec![
        Inventory::Tx([7u8; 32]),
        Inventory::Block([8u8; 32]),
        Inventory::Unknown { inv_type: 0x55, hash: [9u8; 32] },
    ];
    let msg = Message::new(MessagePayload::InvVect(items.clone()), Magic::Main, Command::Inv);
    let mut enc = Vec::new();
    msg.net_encode(&mut enc);
    assert_eq!(enc.len(), 24 + 1 + 3 * 36);
    let (dec, _) = Message::net_decode(&enc).unwrap();
    assert_eq!(dec, msg);
    // A list cut short is a short read.
    assert_eq!(Message::net_decode(&enc[..enc.len() - 1]).unwrap_err(), Error::Io);
}

#[test]
fn ping_pong_round_trip() {
    let msg = Message::new(MessagePayload::PingPong(0x0102_0304_0506_0708), Magic::Main, Command::Ping);
    assert_eq!(msg.header.length, 8);
    let mut enc = Vec::new();
    msg.net_encode(&mut enc);
    assert_eq!(&enc[24..], &[8, 7, 6, 5, 4, 3, 2, 1]);
    let (dec, _) = Message::net_decode(&enc).unwrap();
    assert_eq!(dec, msg);
    let pong = Message::new(dec.payload, Magic::Main, Command::Pong);
    assert_eq!(pong.header.command, Command::Pong);
}

#[test]
fn bad_magic_message() {
    let mut enc = vec![0, 0, 0, 0];
    enc.extend_from_slice(&[0u8; 20]);
    assert_eq!(Message::net_decode(&enc).unwrap_err(), Error::BadNetworkMagic(Magic::Unknown(0)));
}

#[test]
fn peers_and_ports() {
    let peer = Peer::from([127, 0, 0, 1, 0x20, 0x8D]);
    assert_eq!(peer.addr, [127, 0, 0, 1]);
    assert_eq!(peer.port.to_u16(), 8333);
    assert_eq!(Port::from(18333u16).0, [0x47, 0x9D]);
    assert_eq!(Port::from([1, 2]).to_u16(), 258);
    let na = NetAddress::new(ServicesList::new(), Address { ip: IpAddress::V4([8, 8, 4, 4]), port: 53 });
    let p = Peer::from_net_address(na).unwrap();
    assert_eq!(p.addr, [8, 8, 4, 4]);
    assert_eq!(p.port.to_u16(), 53);
    let v6 = NetAddress::new(ServicesList::new(), Address { ip: IpAddress::V6([1; 16]), port: 53 });
    assert!(Peer::from_net_address(v6).is_none());
}

#[test]
fn discovery_steps() {
    assert_eq!(discovery_step(3, 5, 10, 3, 4), DiscoveryStep::Done);
    assert_eq!(discovery_step(1, 10, 10, 3, 4), DiscoveryStep::Exhausted);
    assert_eq!(discovery_step(1, 4, 10, 3, 4), DiscoveryStep::Test { start: 4, count: 4 });
    assert_eq!(discovery_step(0, 8, 10, 3, 4), DiscoveryStep::Test { start: 8, count: 2 });
    assert_eq!(discovery_step(0, 0, 10, 3, 0), DiscoveryStep::Test { start: 0, count: 1 });
}
