use nym_transport::address::{
    multiaddress_to_nym_address, nym_address_to_multiaddress, Multiaddr, Recipient,
};
use nym_transport::error::Error;

const ADDRESS: &str = "Hmer6Ndt3PV13YW53HM8ri4NvqqtfDQUQBhzvKqb1dag.2g478dyxtrQXGWc1Mk2VEqdPcWXpz7EhAcjhdAJtVZdA@AnnYnEtBjB2a5sHmeRCnBq43qxyHDf95Bqd7cwQyKNLR";

#[test]
fn recipient_is_read_from_its_text() {
    let r = Recipient::from_str(ADDRESS).unwrap();
    assert_eq!(r.as_str(), ADDRESS);
}

#[test]
fn recipient_from_outside_bytes_is_accepted() {
    let text = nym_sphinx_addressing::clients::Recipient::try_from_base58_string(ADDRESS)
        .unwrap()
        .to_string();
    assert_eq!(text, ADDRESS);
    assert!(Recipient::from_str(&text).is_ok());
}

#[test]
fn malformed_recipient_is_refused() {
    assert_eq!(Recipient::from_str(""), Err(Error::InvalidRecipientBytes));
    assert_eq!(Recipient::from_str("hello"), Err(Error::InvalidRecipientBytes));
    assert_eq!(Recipient::from_str("a.b@c"), Err(Error::InvalidRecipientBytes));
    let no_gateway = &ADDRESS[..ADDRESS.find('@').unwrap()];
    assert_eq!(Recipient::from_str(no_gateway), Err(Error::InvalidRecipientBytes));
}

#[test]
fn listen_address_has_the_single_component_form() {
    let r = Recipient::from_str(ADDRESS).unwrap();
    let addr = nym_address_to_multiaddress(&r);
    assert_eq!(addr.as_str(), format!("/nym/{}", ADDRESS));
}

#[test]
fn address_round_trip() {
    let r = Recipient::from_str(ADDRESS).unwrap();
    let addr = nym_address_to_multiaddress(&r);
    assert_eq!(multiaddress_to_nym_address(&addr), Ok(r));
}

#[test]
fn earlier_components_are_ignored() {
    let addr = Multiaddr::from_text(&format!("/ip4/127.0.0.1/tcp/4001/nym/{}", ADDRESS));
    assert_eq!(multiaddress_to_nym_address(&addr).unwrap().as_str(), ADDRESS);
}

#[test]
fn address_without_final_nym_component_is_refused() {
    for text in ["", "/", "nym", "/nym", "/ip4/127.0.0.1/tcp/4001", "/tcp/80", "/nymm/abc", "/xnym/abc"] {
        assert_eq!(
            multiaddress_to_nym_address(&Multiaddr::from_text(text)),
            Err(Error::InvalidProtocolForMultiaddr)
        );
    }
    let nym_not_last = format!("/nym/{}/tcp/80", ADDRESS);
    assert_eq!(
        multiaddress_to_nym_address(&Multiaddr::from_text(&nym_not_last)),
        Err(Error::InvalidProtocolForMultiaddr)
    );
}

#[test]
fn nym_component_with_bad_recipient_is_refused() {
    for text in ["/nym/", "/nym/abc", "/ip4/1.2.3.4/nym/not-an-address"] {
        assert_eq!(
            multiaddress_to_nym_address(&Multiaddr::from_text(text)),
            Err(Error::InvalidRecipientBytes)
        );
    }
}

#[test]
fn error_messages() {
    assert_eq!(Error::DialTimeout.message(), "dial timed out");
    assert_eq!(Error::QueueOverflow.message(), "message queue overflow");
    assert_eq!(Error::Codec.message(), "failed to decode message");
    assert_eq!(Error::ConnectionIDExists.message(), "connection id already exists");
}
