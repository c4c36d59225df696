use name_registry::client::{contains, register_request, reports_success, resolve_request};
use name_registry::handler::{begin, registration_reply, Action, Phase};
use name_registry::registration::parse_registration;
use name_registry::store::Created;
use name_registry::wire::{encode_request, HostRecord, Request, RequestKind};

#[test]
fn a_lookup_request_carries_the_bare_name() {
    assert_eq!(
        resolve_request("example"),
        Request { kind: RequestKind::Resolve, payload: "example".to_string() }
    );
    assert_eq!(
        resolve_request(""),
        Request { kind: RequestKind::Resolve, payload: String::new() }
    );
}

#[test]
fn a_registration_request_carries_name_bar_address() {
    assert_eq!(
        register_request("example", "192.168.1.1"),
        Some(Request { kind: RequestKind::Register, payload: "example|192.168.1.1".to_string() })
    );
}

#[test]
fn no_registration_request_without_an_address() {
    for dotted in ["", "192.168.1", "192.168.1.999", "1.2.3.4.5", " 1.2.3.4", "a.b.c.d"] {
        assert_eq!(register_request("example", dotted), None, "{:?}", dotted);
    }
}

#[test]
fn what_the_client_asks_is_what_the_server_registers() {
    for (name, dotted, octets) in [
        ("example", "192.168.1.1", [192u8, 168, 1, 1]),
        ("  spaced out ", "010.+0.0.255", [10, 0, 0, 255]),
        ("", "0.0.0.0", [0, 0, 0, 0]),
    ] {
        let request = register_request(name, dotted).unwrap();
        assert_eq!(
            parse_registration(&request.payload),
            Ok(HostRecord { address: octets.to_vec(), name: name.trim().to_string() })
        );
        let (phase, action) = begin(&encode_request(&request));
        assert_eq!(phase, Phase::Registering { name: name.trim().to_string() });
        assert!(matches!(action, Action::Create { .. }));
    }
}

#[test]
fn contains_is_what_std_finds() {
    let texts = ["", "a", "ab", "abc", "aab", "abab", "éxito", "con éxito!", "exito", "xa"];
    for text in texts {
        for needle in texts {
            assert_eq!(contains(text, needle), text.contains(needle), "{:?} in {:?}", needle, text);
        }
    }
}

#[test]
fn success_is_told_by_three_words() {
    assert!(reports_success("Dominio registrado con éxito"));
    assert!(reports_success("registrado exitosamente"));
    assert!(reports_success("guardado correctamente."));
    assert!(!reports_success(""));
    assert!(!reports_success("Error al registrar dominio: El dominio x ya existe"));
    assert!(!reports_success("Formato inválido para registro. Debe ser 'dominio|ip'"));
    assert!(!reports_success("con exito"));
    assert!(!reports_success("Éxito"));
}

#[test]
fn the_servers_answers_are_told_apart() {
    let text = |bytes: Vec<u8>| String::from_utf8(bytes).unwrap();
    assert!(reports_success(&text(registration_reply("example", Created::Done))));
    assert!(!reports_success(&text(registration_reply("example", Created::Exists))));
    assert!(!reports_success(&text(registration_reply(
        "example",
        Created::Failed { reason: "disco lleno".to_string() }
    ))));
}
