use mira_sharer::config::{
    default_ice_servers, default_max_fps, default_signaller, default_viewer, default_webui,
    default_webui_bind, default_webui_enabled, default_webui_port, libx264, servers_from_twilio_token,
    twilio_basic_auth,
    Config, IceCredentialType, IceServer, IceSource, SignallerIceServer, TransportCredentialType,
};

fn base_config() -> Config {
    Config {
        signaller_url: default_signaller(),
        viewer_url: default_viewer(),
        max_fps: default_max_fps(),
        ice_servers: default_ice_servers(),
        encoder: libx264(),
        webui: default_webui(),
        password: None,
        room: None,
        auto_accept: false,
        auto_start: false,
    }
}

#[test]
fn defaults_contact_no_third_party_and_fail_closed() {
    let webui = default_webui();
    assert!(webui.enabled);
    assert_eq!(webui.port, 8765);
    assert_eq!(webui.bind, "127.0.0.1");
    assert_eq!(webui.public_url, None);
    assert_eq!(
        webui.admin_password, None,
        "the admin control plane must fail closed unless a secret is configured"
    );
    assert!(default_ice_servers().is_empty(), "no STUN/TURN server may be configured by default");
    assert!(default_webui_enabled());
    assert_eq!(default_webui_port(), 8765);
    assert_eq!(default_webui_bind(), "127.0.0.1");
    assert_eq!(default_max_fps(), 60);
    assert_eq!(default_signaller(), "wss://ws.mirashare.app");
    assert_eq!(default_viewer(), "https://mirashare.app/");
}

#[test]
fn default_encoder_is_low_latency_x264() {
    let e = libx264();
    assert_eq!(e.encoder, "libx264");
    assert_eq!(e.pixel_format, "nv12");
    assert_eq!(e.encoding, "video/H264");
    assert_eq!(
        e.options,
        vec![
            ("profile".to_string(), "baseline".to_string()),
            ("preset".to_string(), "ultrafast".to_string()),
            ("tune".to_string(), "zerolatency".to_string()),
        ]
    );
}

#[test]
fn credential_types_map_to_transport_kinds() {
    assert_eq!(IceCredentialType::default(), IceCredentialType::Password);
    assert_eq!(IceCredentialType::Unspecified.transport_credential(), TransportCredentialType::Unspecified);
    assert_eq!(IceCredentialType::Password.transport_credential(), TransportCredentialType::Password);
    assert_eq!(IceCredentialType::Oauth.transport_credential(), TransportCredentialType::Oauth);
    assert_eq!(IceCredentialType::Twilio.transport_credential(), TransportCredentialType::Password);
    assert_eq!(IceCredentialType::Signaller.transport_credential(), TransportCredentialType::Password);
}

#[test]
fn ice_entries_resolve_by_credential_type() {
    let mut s = IceServer::default();
    assert_eq!(s.source(), IceSource::Configured);
    s.credential_type = IceCredentialType::Twilio;
    assert_eq!(s.source(), IceSource::Twilio);
    s.credential_type = IceCredentialType::Signaller;
    assert_eq!(s.source(), IceSource::Signaller);
    s.credential_type = IceCredentialType::Oauth;
    assert_eq!(s.source(), IceSource::Configured);
}

#[test]
fn signaller_servers_become_password_servers() {
    let s = IceServer::from_signaller(SignallerIceServer {
        url: "turn:example.org".into(),
        username: "u".into(),
        password: "p".into(),
    });
    assert_eq!(s.urls, vec!["turn:example.org".to_string()]);
    assert_eq!(s.username, "u");
    assert_eq!(s.credential, "p");
    assert_eq!(s.credential_type, IceCredentialType::Password);
}

#[test]
fn resolved_servers_replace_the_entries_in_order() {
    let mut config = base_config();
    config.room = Some("desk".into());
    let a = IceServer::with_password("a".into(), String::new(), String::new());
    let b = IceServer::with_password("b".into(), String::new(), String::new());
    let c = IceServer::with_password("c".into(), String::new(), String::new());
    let out = config.with_ice_servers(vec![vec![a], vec![], vec![b, c]]);
    let urls: Vec<String> = out.ice_servers.iter().map(|s| s.urls[0].clone()).collect();
    assert_eq!(urls, vec!["a", "b", "c"]);
    assert_eq!(out.room.as_deref(), Some("desk"));
    assert_eq!(out.max_fps, 60);
}

#[test]
fn twilio_credential_is_base64_of_user_colon_secret() {
    assert_eq!(twilio_basic_auth(&"user".into(), &"pass".into()), "dXNlcjpwYXNz");
    assert_eq!(twilio_basic_auth(&String::new(), &String::new()), "Og==");
}

#[test]
fn twilio_token_urls_become_password_servers() {
    let urls = vec!["turn:a".to_string(), "stun:b".to_string()];
    let servers = servers_from_twilio_token(urls, &"tok-user".into(), &"tok-pass".into());
    assert_eq!(servers.len(), 2);
    assert_eq!(servers[0].urls, vec!["turn:a".to_string()]);
    assert_eq!(servers[1].urls, vec!["stun:b".to_string()]);
    for server in &servers {
        assert_eq!(server.username, "tok-user");
        assert_eq!(server.credential, "tok-pass");
        assert_eq!(server.credential_type, IceCredentialType::Password);
    }
    assert!(servers_from_twilio_token(Vec::new(), &"u".into(), &"p".into()).is_empty());
}
