use chert::address::{Cidr, Ip};
use chert::lex::{lex, Error, Token};

fn theirs(text: &str) -> Option<cidr::IpCidr> {
    text.parse().ok()
}

fn ours(text: &str) -> Option<Cidr> {
    match lex(text) {
        Ok(tokens) => match &tokens[..] {
            [(Token::Cidr(network), _)] => Some(*network),
            other => panic!("{other:?}"),
        },
        Err(Error::NetworkParseError) => None,
        Err(other) => panic!("{other:?}"),
    }
}

fn same(ours: &Cidr, theirs: &cidr::IpCidr) -> bool {
    let bits = match ours.first_address() {
        Ip::V4(bits) => bits,
        Ip::V6(_) => return false,
    };
    match theirs {
        cidr::IpCidr::V4(network) => {
            u32::from(network.first_address()) == bits
                && network.network_length() == ours.network_length()
        }
        cidr::IpCidr::V6(_) => false,
    }
}

#[test]
fn networks_read_as_the_cidr_crate_reads_them() {
    for text in [
        "1.1.1.0/24",
        "1.1.1.1/24",
        "1.1.1.1/32",
        "0.0.0.0/0",
        "128.0.0.0/1",
        "64.0.0.0/1",
        "10.0.0.0/8",
        "10.128.0.0/9",
        "10.128.0.0/8",
        "255.255.255.255/32",
        "255.255.255.254/31",
        "255.255.255.255/31",
        "1.2.3.0/33",
        "1.2.3.0/99",
        "1.2.3.256/24",
        "256.2.3.0/24",
        "010.0.0.0/8",
        "10.00.0.000/08",
        "192.168.1.128/25",
        "192.168.1.128/24",
        "0.0.0.1/0",
    ] {
        match (ours(text), theirs(text)) {
            (Some(ours), Some(theirs)) => assert!(same(&ours, &theirs), "{text}"),
            (None, None) => {}
            (ours, theirs) => panic!("{text}: {ours:?} and {theirs:?}"),
        }
    }
}

#[test]
fn a_network_holds_what_the_cidr_crate_says_it_holds() {
    let networks = ["0.0.0.0/0", "10.0.0.0/8", "10.128.0.0/9", "1.2.3.4/32", "1.2.3.4/31", "255.255.255.0/24"];
    let addresses = [
        [0, 0, 0, 0],
        [10, 0, 0, 1],
        [10, 127, 255, 255],
        [10, 128, 0, 0],
        [10, 255, 255, 255],
        [11, 0, 0, 0],
        [1, 2, 3, 4],
        [1, 2, 3, 5],
        [1, 2, 3, 6],
        [255, 255, 255, 255],
        [255, 255, 254, 255],
    ];
    for text in networks {
        let Some(expected) = theirs(text) else { continue };
        let network = ours(text).unwrap();
        for [a, b, c, d] in addresses {
            let address = format!("{a}.{b}.{c}.{d}").parse().unwrap();
            assert_eq!(
                network.contains(&Ip::v4(a, b, c, d)),
                expected.contains(&address),
                "{text} {a}.{b}.{c}.{d}"
            );
        }
    }
}

#[test]
fn a_network_is_made_of_an_address_and_a_length() {
    let network = Cidr::new(Ip::v4(10, 0, 0, 0), 8).unwrap();
    assert_eq!(network.first_address(), Ip::v4(10, 0, 0, 0));
    assert_eq!(network.network_length(), 8);
    assert!(Cidr::new(Ip::v4(10, 0, 0, 1), 8).is_none());
    assert!(Cidr::new(Ip::v4(10, 0, 0, 0), 33).is_none());
    assert!(Cidr::new(Ip::V4(0), 0).is_some());
    assert!(Cidr::new(Ip::V4(1), 0).is_none());
    assert!(Cidr::new(Ip::V6(1), 128).is_some());
    assert!(Cidr::new(Ip::V6(1), 127).is_none());
    assert!(Cidr::new(Ip::V6(0), 129).is_none());
    assert!(Cidr::new(Ip::V6(1 << 127), 1).is_some());
    let host = Cidr::new_host(Ip::v4(1, 2, 3, 4));
    assert_eq!((host.first_address(), host.network_length()), (Ip::v4(1, 2, 3, 4), 32));
    assert_eq!(Cidr::new_host(Ip::V6(7)).network_length(), 128);
    assert!(host.contains(&Ip::v4(1, 2, 3, 4)));
    assert!(!host.contains(&Ip::v4(1, 2, 3, 5)));
    assert!(!host.contains(&Ip::V6(0x0102_0304)));
}

#[test]
fn a_network_of_the_long_family_holds_its_addresses() {
    let network = Cidr::new(Ip::V6(0x2001_0db8 << 96), 32).unwrap();
    assert!(network.contains(&Ip::V6((0x2001_0db8 << 96) | 0xffff)));
    assert!(!network.contains(&Ip::V6(0x2001_0db9 << 96)));
    assert!(Cidr::new(Ip::V6(0), 0).unwrap().contains(&Ip::V6(u128::MAX)));
    let all: cidr::IpCidr = "2001:db8::/32".parse().unwrap();
    assert!(all.contains(&"2001:db8::ffff".parse().unwrap()));
}
