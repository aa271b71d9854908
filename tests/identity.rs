use fanout::entity::{device_ids, device_namespace, entity_id};

#[test]
fn same_inputs_give_same_id() {
    let ns = device_namespace();
    assert_eq!(entity_id(&ns, &[7]), entity_id(&ns, &[7]));
}

#[test]
fn different_seeds_give_different_ids() {
    let ns = device_namespace();
    let ids = device_ids(100);
    assert_eq!(ids.len(), 100);
    for i in 0..ids.len() {
        for j in (i + 1)..ids.len() {
            assert_ne!(ids[i], ids[j]);
        }
        assert_ne!(ids[i], ns);
    }
}

#[test]
fn ids_are_version_five_rfc4122() {
    let ns = device_namespace();
    let id = entity_id(&ns, b"device");
    assert_eq!(id[6] >> 4, 5);
    assert_eq!(id[8] & 0xc0, 0x80);
}

#[test]
fn device_ids_match_name_based_uuids() {
    let ns = device_namespace();
    assert_eq!(ns, [0xff, 0xff, 0xff, 0xff, 0xff, 0xff, 0xff, 0xff, 0, 0, 0, 0, 0, 0, 0, 0]);
    let ids = device_ids(3);
    for (i, id) in ids.iter().enumerate() {
        let expected = uuid::Uuid::new_v5(&uuid::Uuid::from_bytes(ns), &[i as u8 + 1]);
        assert_eq!(id, expected.as_bytes());
    }
}

#[test]
fn known_dns_namespace_value() {
    let dns = *uuid::Uuid::NAMESPACE_DNS.as_bytes();
    let id = entity_id(&dns, b"example.org");
    assert_eq!(
        uuid::Uuid::from_bytes(id).to_string(),
        "aad03681-8b63-5304-89e0-8ca8f49461b5"
    );
}
