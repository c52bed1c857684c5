use thruster_ssl::error::StartError;
use thruster_ssl::server::{acceptor_outcome, credential_outcome, has_nul, SSLServer};
use thruster_ssl::supervisor::{ListenAction, ListenEvent, Supervisor};

/// A self-signed identity for `localhost`, as a PKCS #12 archive protected
/// with the passphrase `hunter2`.
const BUNDLE: [u8; 1056] = [
    48, 130, 4, 28, 2, 1, 3, 48, 130, 3, 210, 6, 9, 42, 134, 72,
    134, 247, 13, 1, 7, 1, 160, 130, 3, 195, 4, 130, 3, 191, 48, 130,
    3, 187, 48, 130, 2, 106, 6, 9, 42, 134, 72, 134, 247, 13, 1, 7,
    6, 160, 130, 2, 91, 48, 130, 2, 87, 2, 1, 0, 48, 130, 2, 80,
    6, 9, 42, 134, 72, 134, 247, 13, 1, 7, 1, 48, 95, 6, 9, 42,
    134, 72, 134, 247, 13, 1, 5, 13, 48, 82, 48, 49, 6, 9, 42, 134,
    72, 134, 247, 13, 1, 5, 12, 48, 36, 4, 16, 165, 30, 191, 65, 145,
    176, 126, 35, 152, 230, 238, 59, 73, 176, 123, 74, 2, 2, 8, 0, 48,
    12, 6, 8, 42, 134, 72, 134, 247, 13, 2, 9, 5, 0, 48, 29, 6,
    9, 96, 134, 72, 1, 101, 3, 4, 1, 42, 4, 16, 125, 157, 135, 145,
    130, 52, 144, 43, 132, 177, 252, 10, 147, 147, 18, 115, 128, 130, 1, 224,
    81, 95, 22, 135, 40, 200, 71, 212, 150, 8, 231, 83, 239, 65, 52, 182,
    116, 139, 192, 225, 247, 205, 173, 214, 165, 22, 20, 132, 28, 85, 211, 223,
    16, 218, 220, 79, 162, 207, 46, 104, 101, 223, 66, 32, 28, 153, 99, 58,
    60, 157, 17, 84, 7, 9, 131, 41, 0, 205, 235, 151, 164, 53, 173, 208,
    187, 49, 40, 128, 172, 126, 119, 217, 43, 213, 22, 255, 35, 222, 191, 156,
    22, 14, 130, 67, 212, 12, 251, 249, 242, 110, 147, 210, 28, 46, 63, 155,
    73, 47, 119, 96, 189, 25, 236, 38, 227, 247, 176, 215, 54, 229, 194, 78,
    148, 5, 213, 255, 43, 139, 36, 238, 70, 45, 104, 30, 79, 5, 24, 219,
    126, 136, 14, 210, 67, 84, 138, 228, 92, 172, 13, 179, 83, 48, 151, 112,
    47, 84, 218, 240, 149, 223, 169, 59, 67, 80, 175, 64, 92, 75, 239, 21,
    128, 70, 112, 87, 181, 67, 104, 234, 52, 32, 129, 75, 104, 91, 139, 235,
    68, 243, 213, 123, 236, 170, 76, 88, 45, 160, 113, 64, 15, 159, 11, 177,
    71, 215, 12, 5, 207, 183, 17, 17, 13, 156, 216, 63, 67, 81, 161, 169,
    0, 97, 45, 234, 46, 220, 217, 199, 33, 191, 32, 117, 0, 166, 32, 97,
    115, 25, 72, 246, 171, 48, 43, 25, 70, 206, 51, 20, 207, 130, 220, 158,
    152, 89, 169, 60, 203, 139, 197, 86, 23, 33, 45, 180, 64, 59, 63, 106,
    255, 8, 1, 140, 142, 192, 202, 97, 26, 113, 5, 45, 113, 219, 18, 62,
    24, 40, 72, 122, 49, 115, 40, 86, 28, 178, 231, 207, 165, 202, 143, 34,
    232, 228, 74, 216, 152, 241, 175, 10, 174, 96, 202, 184, 81, 123, 162, 50,
    175, 120, 125, 199, 20, 60, 17, 12, 82, 46, 81, 210, 177, 83, 152, 83,
    157, 223, 85, 191, 186, 133, 43, 18, 107, 214, 24, 90, 14, 244, 225, 248,
    208, 103, 201, 200, 109, 136, 96, 19, 251, 117, 6, 132, 34, 175, 44, 200,
    88, 3, 171, 254, 199, 155, 118, 39, 145, 136, 240, 21, 208, 200, 31, 146,
    193, 156, 134, 159, 139, 35, 60, 220, 38, 81, 109, 56, 59, 118, 255, 236,
    251, 163, 158, 127, 146, 155, 2, 30, 150, 186, 172, 180, 171, 25, 144, 65,
    173, 244, 32, 91, 74, 3, 35, 68, 223, 223, 72, 66, 79, 243, 72, 76,
    220, 114, 232, 30, 153, 123, 79, 114, 188, 217, 90, 10, 28, 51, 222, 102,
    43, 169, 111, 92, 196, 155, 20, 196, 75, 17, 71, 130, 81, 104, 182, 135,
    92, 53, 203, 133, 193, 59, 124, 118, 48, 143, 128, 8, 149, 99, 227, 21,
    129, 242, 66, 150, 172, 115, 89, 41, 107, 224, 166, 156, 181, 90, 106, 119,
    48, 130, 1, 73, 6, 9, 42, 134, 72, 134, 247, 13, 1, 7, 1, 160,
    130, 1, 58, 4, 130, 1, 54, 48, 130, 1, 50, 48, 130, 1, 46, 6,
    11, 42, 134, 72, 134, 247, 13, 1, 12, 10, 1, 2, 160, 129, 247, 48,
    129, 244, 48, 95, 6, 9, 42, 134, 72, 134, 247, 13, 1, 5, 13, 48,
    82, 48, 49, 6, 9, 42, 134, 72, 134, 247, 13, 1, 5, 12, 48, 36,
    4, 16, 47, 231, 221, 56, 119, 39, 46, 221, 93, 150, 8, 12, 240, 235,
    19, 201, 2, 2, 8, 0, 48, 12, 6, 8, 42, 134, 72, 134, 247, 13,
    2, 9, 5, 0, 48, 29, 6, 9, 96, 134, 72, 1, 101, 3, 4, 1,
    42, 4, 16, 17, 88, 71, 65, 157, 222, 209, 206, 205, 63, 207, 136, 64,
    235, 102, 221, 4, 129, 144, 112, 153, 211, 89, 226, 151, 130, 148, 83, 184,
    14, 33, 27, 150, 221, 6, 158, 42, 124, 242, 83, 125, 173, 204, 234, 55,
    27, 129, 117, 67, 221, 11, 174, 250, 151, 213, 7, 149, 21, 155, 99, 108,
    135, 219, 23, 227, 165, 44, 105, 186, 56, 202, 52, 67, 35, 174, 247, 146,
    15, 238, 21, 150, 86, 226, 238, 35, 87, 118, 100, 92, 17, 153, 163, 43,
    37, 248, 167, 227, 76, 175, 115, 151, 218, 44, 142, 166, 64, 3, 92, 35,
    5, 67, 86, 126, 125, 119, 222, 39, 114, 196, 232, 61, 72, 241, 148, 150,
    165, 165, 161, 1, 83, 225, 45, 25, 240, 247, 117, 75, 41, 9, 248, 79,
    58, 97, 163, 167, 103, 159, 19, 13, 0, 169, 217, 73, 218, 197, 226, 239,
    143, 53, 211, 106, 86, 6, 49, 37, 48, 35, 6, 9, 42, 134, 72, 134,
    247, 13, 1, 9, 21, 49, 22, 4, 20, 71, 79, 230, 203, 96, 37, 209,
    237, 21, 252, 13, 134, 237, 93, 110, 30, 108, 89, 220, 204, 48, 65, 48,
    49, 48, 13, 6, 9, 96, 134, 72, 1, 101, 3, 4, 2, 1, 5, 0,
    4, 32, 74, 161, 121, 184, 50, 150, 144, 207, 198, 218, 107, 248, 106, 191,
    127, 231, 33, 77, 0, 165, 90, 18, 188, 158, 212, 47, 58, 221, 76, 24,
    3, 122, 4, 8, 115, 204, 88, 69, 69, 239, 42, 234, 2, 2, 8, 0,
];

fn configured(passphrase: &'static str) -> SSLServer<u32> {
    let mut server = SSLServer::new(7u32);
    server.cert(BUNDLE.to_vec());
    server.cert_pass(passphrase);
    server
}

#[test]
fn new_server_has_no_credential() {
    let server = SSLServer::new(7u32);
    assert!(!server.has_cert());
}

#[test]
fn cert_makes_the_credential_present() {
    let mut server = SSLServer::new(7u32);
    server.cert(vec![1, 2, 3]);
    assert!(server.has_cert());
    server.cert_pass("anything");
    assert!(server.has_cert());
}

#[test]
fn valid_credential_prepares_the_server() {
    let startup = configured("hunter2").build("127.0.0.1", 4321).expect("the bundle is valid");
    assert_eq!(startup.host, "127.0.0.1");
    assert_eq!(startup.port, 4321);
    assert_eq!(startup.app, 7);
}

#[test]
fn wrong_passphrase_is_an_undecodable_credential() {
    let refused = configured("hunter3").build("127.0.0.1", 4321);
    match refused {
        Err(StartError::UndecodableCredential(Some(_))) => {}
        other => panic!("expected an undecodable credential, got {:?}", other),
    }
}

#[test]
fn empty_passphrase_is_the_default_and_is_refused_for_a_protected_bundle() {
    let mut server = SSLServer::new(7u32);
    server.cert(BUNDLE.to_vec());
    let refused = server.build("127.0.0.1", 4321);
    assert!(matches!(refused, Err(StartError::UndecodableCredential(Some(_)))));
}

#[test]
fn garbage_bundle_is_an_undecodable_credential() {
    let mut server = SSLServer::new(7u32);
    server.cert(vec![0xde, 0xad, 0xbe, 0xef]);
    server.cert_pass("hunter2");
    let refused = server.build("localhost", 443);
    match refused {
        Err(error) => {
            assert!(matches!(error, StartError::UndecodableCredential(Some(_))));
            assert_eq!(error.message(), "Could not decrypt p12 file");
        }
        Ok(_) => panic!("garbage was taken for a credential"),
    }
}

#[test]
fn empty_bundle_is_an_undecodable_credential() {
    let mut server = SSLServer::new(7u32);
    server.cert(Vec::new());
    let refused = server.build("localhost", 443);
    assert!(matches!(refused, Err(StartError::UndecodableCredential(Some(_)))));
}

#[test]
fn passphrase_with_nul_is_refused_without_a_cause() {
    let refused = configured("hunter2\0").build("127.0.0.1", 4321);
    assert!(matches!(refused, Err(StartError::UndecodableCredential(None))));
    let refused = configured("\0").build("127.0.0.1", 4321);
    assert!(matches!(refused, Err(StartError::UndecodableCredential(None))));
}

#[test]
fn has_nul_finds_the_zero_byte() {
    assert!(!has_nul(""));
    assert!(!has_nul("hunter2"));
    assert!(!has_nul("p\u{e4}ss\u{20ac}"));
    assert!(has_nul("\0"));
    assert!(has_nul("hunter2\0"));
    assert!(has_nul("hun\0ter2"));
    assert!(has_nul("\u{20ac}\0"));
}

#[test]
fn outcomes_keep_what_the_backend_produced() {
    let decoded = native_tls::Identity::from_pkcs12(&BUNDLE, "hunter2");
    assert!(decoded.is_ok());
    let identity = credential_outcome(decoded).expect("an identity stays an identity");
    let built = native_tls::TlsAcceptor::new(identity);
    assert!(built.is_ok());
    assert!(acceptor_outcome(built).is_ok());
}

#[test]
fn outcomes_name_the_failed_step() {
    let decoded = native_tls::Identity::from_pkcs12(&[1, 2, 3], "hunter2");
    assert!(decoded.is_err());
    let refused = credential_outcome(decoded);
    assert!(matches!(refused, Err(StartError::UndecodableCredential(Some(_)))));
}

#[test]
fn start_error_messages() {
    assert_eq!(StartError::UndecodableCredential(None).message(), "Could not decrypt p12 file");
    let cause = native_tls::Identity::from_pkcs12(&[], "").err().expect("nothing to decode");
    assert_eq!(
        StartError::UnbuildableAcceptor(cause).message(),
        "Could not create TLS acceptor."
    );
}

#[test]
fn prepared_server_is_bound_first() {
    let prepared = configured("hunter2").build("127.0.0.1", 4321);
    let (state, action) = Supervisor::start::<u32, u8>(prepared);
    assert_eq!(state, Supervisor::Binding);
    assert!(!state.is_stopped());
    match action {
        ListenAction::Bind(startup) => {
            assert_eq!(startup.host, "127.0.0.1");
            assert_eq!(startup.port, 4321);
            assert_eq!(startup.app, 7);
        }
        other => panic!("expected a bind, got {:?}", other),
    }
}

#[test]
fn refused_credential_binds_nothing() {
    let prepared = configured("wrong").build("127.0.0.1", 4321);
    let (state, action) = Supervisor::start::<u32, u8>(prepared);
    assert_eq!(state, Supervisor::Stopped);
    assert!(state.is_stopped());
    assert!(matches!(action, ListenAction::Refuse(StartError::UndecodableCredential(Some(_)))));
    let (state, action) = state.step::<u32, u8>(ListenEvent::Bound);
    assert_eq!(state, Supervisor::Stopped);
    assert!(matches!(action, ListenAction::Rejected));
    let (state, action) = state.step::<u32, u8>(ListenEvent::Accepted(1));
    assert_eq!(state, Supervisor::Stopped);
    assert!(matches!(action, ListenAction::Rejected));
}

#[test]
fn accept_loop_serves_and_skips() {
    let (state, action) = Supervisor::Binding.step::<u32, u8>(ListenEvent::Bound);
    assert_eq!(state, Supervisor::Accepting);
    assert!(matches!(action, ListenAction::Accept));
    let (state, action) = state.step::<u32, u8>(ListenEvent::Accepted(11));
    assert_eq!(state, Supervisor::Accepting);
    assert!(matches!(action, ListenAction::Serve(11)));
    let (state, action) = state.step::<u32, u8>(ListenEvent::AcceptFailed("reset".to_string()));
    assert_eq!(state, Supervisor::Accepting);
    match action {
        ListenAction::Skip(detail) => assert_eq!(detail, "reset"),
        other => panic!("expected a skip, got {:?}", other),
    }
    let (state, action) = state.step::<u32, u8>(ListenEvent::Accepted(12));
    assert_eq!(state, Supervisor::Accepting);
    assert!(matches!(action, ListenAction::Serve(12)));
    let (state, action) = state.step::<u32, u8>(ListenEvent::Bound);
    assert_eq!(state, Supervisor::Accepting);
    assert!(matches!(action, ListenAction::Rejected));
}

#[test]
fn ended_stops_the_accept_loop() {
    let (state, action) = Supervisor::Accepting.step::<u32, u8>(ListenEvent::Ended);
    assert_eq!(state, Supervisor::Stopped);
    assert!(matches!(action, ListenAction::Stop));
    let (state, action) = state.step::<u32, u8>(ListenEvent::Accepted(13));
    assert_eq!(state, Supervisor::Stopped);
    assert!(matches!(action, ListenAction::Rejected));
    let (state, action) = Supervisor::Binding.step::<u32, u8>(ListenEvent::Ended);
    assert_eq!(state, Supervisor::Stopped);
    assert!(matches!(action, ListenAction::Stop));
}

#[test]
fn failed_bind_abandons_startup() {
    let (state, action) =
        Supervisor::Binding.step::<u32, u8>(ListenEvent::BindFailed("in use".to_string()));
    assert_eq!(state, Supervisor::Stopped);
    match action {
        ListenAction::Abandon(detail) => assert_eq!(detail, "in use"),
        other => panic!("expected startup to be abandoned, got {:?}", other),
    }
}

#[test]
fn binding_supervisor_accepts_nothing_yet() {
    let (state, action) = Supervisor::Binding.step::<u32, u8>(ListenEvent::Accepted(1));
    assert_eq!(state, Supervisor::Binding);
    assert!(matches!(action, ListenAction::Rejected));
    let (state, action) =
        state.step::<u32, u8>(ListenEvent::AcceptFailed("early".to_string()));
    assert_eq!(state, Supervisor::Binding);
    assert!(matches!(action, ListenAction::Rejected));
}
