use btcnetmsg::header::{payload_checksum, sha256d};
use btcnetmsg::{
    Address, Command, Decode, Encode, Error, Inventory, IpAddress, Magic, MessageHeader,
    NetAddress, Service, ServicesList, TimestampedNetAddress, VariableInteger,
};

#[test]
fn varint_test() {
    let ints: [u64; 9] = [0x01, 0xFC, 0xFD, 0x1000, 0xFFFF, 0x10000, 0x55555, 0xFFFF_FFFF, 0x1000_0000_0000];
    let lens: [usize; 9] = [1, 1, 3, 3, 3, 5, 5, 5, 9];

    for i in 0..ints.len() {
        let mut enc: Vec<u8> = Vec::new();
        assert_eq!(VariableInteger::from(ints[i]).net_encode(&mut enc), lens[i]);
        assert_eq!(VariableInteger::net_decode(&enc[..]).unwrap().0, VariableInteger::from(ints[i]))
    }
}

#[test]
fn network_magic() {
    let mut main: Vec<u8> = Vec::new();
    let mut test: Vec<u8> = Vec::new();

    Magic::Main.net_encode(&mut main);
    Magic::Test.net_encode(&mut test);

    assert_eq!(main, [0xF9, 0xBE, 0xB4, 0xD9]);
    assert_eq!(test, [0xFA, 0xBF, 0xB5, 0xDA]);
}

#[test]
fn service_flags() {
    let mut flags = ServicesList::new();
    flags.add_flag(Service::Network);

    let mut encoded = Vec::new();
    flags.net_encode(&mut encoded);

    assert_eq!(encoded, &[0x01, 0x00, 0x00, 0x00, 0x00, 0x00, 0x00, 0x00])
}

#[test]
fn integer_le() {
    let int: u8 = 0xFF;
    let mut enc: Vec<u8> = Vec::new();
    int.net_encode(&mut enc);
    let dec = u8::net_decode(&enc[..]).expect("Failed to decode").0;
    assert_eq!(int, dec);

    let int: u16 = 0xFFFF;
    let mut enc: Vec<u8> = Vec::new();
    int.net_encode(&mut enc);
    let dec = u16::net_decode(&enc[..]).expect("Failed to decode").0;
    assert_eq!(int, dec);

    let int: u32 = 0xFFFF_FFFF;
    let mut enc: Vec<u8> = Vec::new();
    int.net_encode(&mut enc);
    let dec = u32::net_decode(&enc[..]).expect("Failed to decode").0;
    assert_eq!(int, dec);

    let int: u64 = 0xFFFF_FFFF_FFFF_FFFF;
    let mut enc: Vec<u8> = Vec::new();
    int.net_encode(&mut enc);
    let dec = u64::net_decode(&enc[..]).expect("Failed to decode").0;
    assert_eq!(int, dec);
}

#[test]
fn header_decode() {
    let header = MessageHeader::new(Magic::Main, Command::Verack, 00, [0x5D, 0xF6, 0xE0, 0xE2]);
    let mut enc: Vec<u8> = Vec::new();
    header.net_encode(&mut enc);
    let dec: MessageHeader = MessageHeader::net_decode(&enc[..]).expect("Failed to decode").0;
    assert_eq!(header, dec);
}

#[test]
fn varint_boundaries() {
    let values: [u64; 7] = [0x00, 0xFC, 0xFD, 0xFFFF, 0x10000, 0xFFFF_FFFF, 0xFFFF_FFFF + 1];
    let lens: [usize; 7] = [1, 1, 3, 3, 5, 5, 9];
    for i in 0..values.len() {
        let mut enc: Vec<u8> = Vec::new();
        assert_eq!(VariableInteger(values[i]).net_encode(&mut enc), lens[i]);
        assert_eq!(enc.len(), lens[i]);
        let (back, n) = VariableInteger::net_decode(&enc).unwrap();
        assert_eq!(back.inner(), values[i]);
        assert_eq!(n, lens[i]);
    }
}

#[test]
fn varint_exact_bytes() {
    let mut enc: Vec<u8> = Vec::new();
    VariableInteger(0x1234).net_encode(&mut enc);
    assert_eq!(enc, vec![0xFD, 0x34, 0x12]);
    let mut enc: Vec<u8> = Vec::new();
    VariableInteger(0x0102_0304).net_encode(&mut enc);
    assert_eq!(enc, vec![0xFE, 0x04, 0x03, 0x02, 0x01]);
}

#[test]
fn varint_accepts_long_forms() {
    // 5 written in the three-byte form still reads as 5.
    let (v, n) = VariableInteger::net_decode(&[0xFD, 0x05, 0x00]).unwrap();
    assert_eq!(v.inner(), 5);
    assert_eq!(n, 3);
    let (v, n) = VariableInteger::net_decode(&[0xFF, 7, 0, 0, 0, 0, 0, 0, 0]).unwrap();
    assert_eq!(v.inner(), 7);
    assert_eq!(n, 9);
}

#[test]
fn short_reads_are_io_errors() {
    assert_eq!(u32::net_decode(&[1, 2, 3]).unwrap_err(), Error::Io);
    assert_eq!(VariableInteger::net_decode(&[]).unwrap_err(), Error::Io);
    assert_eq!(VariableInteger::net_decode(&[0xFE, 1, 2]).unwrap_err(), Error::Io);
    assert_eq!(<[u8; 4]>::net_decode(&[9, 9]).unwrap_err(), Error::Io);
    assert_eq!(MessageHeader::net_decode(&[0xF9, 0xBE, 0xB4, 0xD9, b'p']).unwrap_err(), Error::Io);
}

#[test]
fn integer_exact_bytes() {
    let mut enc: Vec<u8> = Vec::new();
    0x0102_0304u32.net_encode(&mut enc);
    assert_eq!(enc, vec![0x04, 0x03, 0x02, 0x01]);
    assert_eq!(u16::net_decode(&[0x34, 0x12, 0xFF]).unwrap(), (0x1234, 2));
}

#[test]
fn unknown_magic_is_refused() {
    let bytes = [0x01, 0x02, 0x03, 0x04];
    assert_eq!(Magic::net_decode(&bytes).unwrap_err(), Error::BadNetworkMagic(Magic::Unknown(0x0403_0201)));
    assert_eq!(Magic::net_decode(&[0xFA, 0xBF, 0xB5, 0xDA]).unwrap(), (Magic::Test, 4));
    assert_eq!(Magic::Main.bytes(), 0xD9B4BEF9);
    assert_eq!(Magic::from([0xD9, 0xB4, 0xBE, 0xF9]), Magic::Main);
    assert_eq!(Magic::from([0x00, 0x00, 0x00, 0x07]), Magic::Unknown(7));
}

#[test]
fn command_names() {
    assert_eq!(Command::Version.to_str(), "version");
    assert_eq!(Command::WTxIdRelay.to_str(), "wtxidrelay");
    assert_eq!(Command::from_str(String::from("sendheaders")).unwrap(), Command::SendHeaders);
    assert_eq!(
        Command::from_str(String::from("mempool")).unwrap_err(),
        Error::UnknownCommand(String::from("mempool"))
    );
    let mut enc: Vec<u8> = Vec::new();
    assert_eq!(Command::Ping.net_encode(&mut enc), 12);
    assert_eq!(enc, vec![b'p', b'i', b'n', b'g', 0, 0, 0, 0, 0, 0, 0, 0]);
    assert_eq!(Command::net_decode(&enc).unwrap(), (Command::Ping, 12));
}

#[test]
fn unknown_command_alone_is_an_error() {
    let mut field = [0u8; 12];
    field[..6].copy_from_slice(b"foobar");
    assert_eq!(Command::net_decode(&field).unwrap_err(), Error::UnknownCommand(String::from("foobar")));
    let bad = [0xC3, 0x28, 0, 0, 0, 0, 0, 0, 0, 0, 0, 0];
    assert_eq!(Command::net_decode(&bad).unwrap_err(), Error::InvalidData);
}

#[test]
fn header_round_trip_unknown_command() {
    let header = MessageHeader::new(
        Magic::Test,
        Command::Unknown(String::from("cmpctblock")),
        300,
        [1, 2, 3, 4],
    );
    let mut enc: Vec<u8> = Vec::new();
    assert_eq!(header.net_encode(&mut enc), 24);
    let (dec, n) = MessageHeader::net_decode(&enc).unwrap();
    assert_eq!(n, 24);
    assert_eq!(dec, header);
}

#[test]
fn checksum_of_empty_payload() {
    assert_eq!(payload_checksum(&[]), [0x5D, 0xF6, 0xE0, 0xE2]);
    let digest = sha256d(b"hello");
    assert_eq!(&digest[..4], &[0x95, 0x95, 0xc9, 0xdf]);
}

#[test]
fn services_decode() {
    let (l, n) = ServicesList::net_decode(&[0, 0, 0, 0, 0, 0, 0, 0]).unwrap();
    assert_eq!(n, 8);
    assert_eq!(l, ServicesList::default());
    assert_eq!(l.get_flags(), vec![Service::NoService]);

    let (l, _) = ServicesList::net_decode(&[0x49, 0x04, 0, 0, 0, 0, 0, 0]).unwrap();
    assert_eq!(l.get_flags(), vec![Service::Network, Service::Witness, Service::CompactFilters, Service::NetworkLimited]);

    // Bit 4 names no flag.
    assert_eq!(ServicesList::net_decode(&[0x10, 0, 0, 0, 0, 0, 0, 0]).unwrap_err(), Error::InvalidData);
}

#[test]
fn services_values() {
    assert_eq!(Service::CompactFilters.value(), 64);
    assert_eq!(Service::NetworkLimited.value(), 1024);
    assert_eq!(Service::try_from_bit(8).unwrap(), Service::Witness);
    assert_eq!(Service::try_from_bit(16).unwrap_err(), Error::InvalidData);
    let mut l = ServicesList::new();
    assert!(l.get_flags().is_empty());
    l.add_flag(Service::Bloom);
    l.add_flag(Service::Bloom);
    l.add_flag(Service::GetUTXO);
    assert_eq!(l.get_flags(), vec![Service::GetUTXO, Service::Bloom]);
    let mut enc = Vec::new();
    l.net_encode(&mut enc);
    assert_eq!(enc, vec![6, 0, 0, 0, 0, 0, 0, 0]);
}

#[test]
fn address_encoding() {
    let a = Address { ip: IpAddress::V4([10, 0, 0, 1]), port: 8333 };
    let mut enc = Vec::new();
    assert_eq!(a.net_encode(&mut enc), 18);
    assert_eq!(
        enc,
        vec![0, 0, 0, 0, 0, 0, 0, 0, 0, 0, 0xFF, 0xFF, 10, 0, 0, 1, 0x20, 0x8D]
    );
    assert_eq!(Address::net_decode(&enc).unwrap(), (a, 18));

    let mut six = [0u8; 16];
    six[0] = 0x20;
    six[1] = 0x01;
    six[15] = 1;
    let b = Address { ip: IpAddress::V6(six), port: 1 };
    let mut enc = Vec::new();
    b.net_encode(&mut enc);
    assert_eq!(&enc[16..], &[0, 1]);
    assert_eq!(Address::net_decode(&enc).unwrap().0, b);
}

#[test]
fn timestamped_address_round_trip() {
    let mut services = ServicesList::new();
    services.add_flag(Service::Network);
    let na = NetAddress::new(services, Address { ip: IpAddress::V4([1, 2, 3, 4]), port: 18333 });
    let ta = TimestampedNetAddress::new(1_700_000_000, na);
    let mut enc = Vec::new();
    assert_eq!(ta.net_encode(&mut enc), 30);
    assert_eq!(&enc[..4], &1_700_000_000u32.to_le_bytes());
    assert_eq!(TimestampedNetAddress::net_decode(&enc).unwrap(), (ta, 30));
    assert_eq!(NetAddress::default().address, Address::me());
}

#[test]
fn inventory_round_trip() {
    let mut h: [u8; 32] = [0u8; 32];
    h[0] = 0xAB;
    h[31] = 0xCD;
    let items = [
        Inventory::Tx(h),
        Inventory::WitnessBlock(h),
        Inventory::Unknown { inv_type: 77, hash: h },
        Inventory::Error,
    ];
    for item in items.iter() {
        let mut enc = Vec::new();
        assert_eq!(item.net_encode(&mut enc), 36);
        assert_eq!(&enc[..4], &item.identifier().to_le_bytes());
        assert_eq!(Inventory::net_decode(&enc).unwrap(), (*item, 36));
    }
    assert_eq!(Inventory::from_id_and_hash(0x4000_0001, h), Inventory::WitnessTx(h));
    assert_eq!(Inventory::from_id_and_hash(9, h), Inventory::Unknown { inv_type: 9, hash: h });
    assert_eq!(Inventory::Error.inner(), [0u8; 32]);
    assert_eq!(Inventory::Block(h).inner(), h);
    assert_eq!(Inventory::FilteredWitnessBlock(h).kind_name(), "Filtered Witness Block");
}

#[test]
fn var_string() {
    let s = String::from("bit-tune-v0.0.1");
    let mut enc = Vec::new();
    assert_eq!(s.net_encode(&mut enc), 16);
    assert_eq!(enc[0], 15);
    assert_eq!(&enc[1..], s.as_bytes());
    assert_eq!(String::net_decode(&enc).unwrap(), (s, 16));
    assert_eq!(String::net_decode(&[2, 0xFF, 0xFE]).unwrap_err(), Error::InvalidData);
    assert_eq!(String::net_decode(&[5, b'a']).unwrap_err(), Error::Io);
}
