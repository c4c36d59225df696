use name_registry::store::{
    directory, finish_register, finish_resolve, plan_register, record_file, Created, StoreError,
};
use name_registry::wire::{encode_host_record, HostRecord};

fn record(address: &[u8], name: &str) -> HostRecord {
    HostRecord { address: address.to_vec(), name: name.to_string() }
}

#[test]
fn records_lie_under_domains_with_their_extension() {
    assert_eq!(directory(), "./domains");
    assert_eq!(record_file("example"), "./domains/example.sdm");
    assert_eq!(record_file(""), "./domains/.sdm");
    assert_eq!(record_file("sub.domain.example"), "./domains/sub.domain.example.sdm");
    assert_eq!(record_file("ñandú"), "./domains/ñandú.sdm");
}

#[test]
fn different_names_have_different_files() {
    let names = ["a", "b", "a.sdm", "a.sdm.sdm", "", " a", "a ", "A"];
    for (i, first) in names.iter().enumerate() {
        for second in names.iter().skip(i + 1) {
            assert_ne!(record_file(first), record_file(second));
        }
    }
}

#[test]
fn a_registration_creates_the_encoded_record_at_the_names_file() {
    let host = record(&[192, 168, 1, 1], "example");
    let creation = plan_register(&host);
    assert_eq!(creation.path, "./domains/example.sdm");
    assert_eq!(creation.contents, encode_host_record(&host));
    assert_eq!(
        creation.contents,
        vec![4, 192, 168, 1, 1, 7, b'e', b'x', b'a', b'm', b'p', b'l', b'e']
    );
}

#[test]
fn the_mediums_report_becomes_the_registrations_result() {
    assert_eq!(finish_register(Created::Done), Ok(()));
    assert_eq!(finish_register(Created::Exists), Err(StoreError::AlreadyExists));
    assert_eq!(
        finish_register(Created::Failed { reason: "disk full".to_string() }),
        Err(StoreError::Io { reason: "disk full".to_string() })
    );
}

#[test]
fn a_file_resolves_to_the_record_it_holds() {
    let host = record(&[10, 1, 2, 3], "intranet");
    let contents = encode_host_record(&host);
    assert_eq!(finish_resolve(Some(&contents)), host);
}

#[test]
fn no_file_resolves_to_not_found() {
    assert_eq!(finish_resolve(None), HostRecord::not_found());
    assert!(finish_resolve(None).is_not_found());
}

#[test]
fn a_file_that_does_not_decode_resolves_to_not_found() {
    assert_eq!(finish_resolve(Some(&[])), HostRecord::not_found());
    assert_eq!(finish_resolve(Some(&[4, 1, 2])), HostRecord::not_found());
    assert_eq!(finish_resolve(Some(&[0, 1, 0xff])), HostRecord::not_found());
}
