//! The configuration model and its defaults.
//!
//! Every key of the configuration file is optional; the functions here give
//! the value a key takes when it is absent. The defaults contact no
//! third-party service, and unattended behaviour is opt-in.

use vstd::prelude::*;
use vstd::utf8::encode_utf8;
use base64::Engine;

verus! {

/// The whole configuration.
#[derive(Debug, Clone)]
pub struct Config {
    pub signaller_url: String,
    pub viewer_url: String,
    pub max_fps: u32,
    pub ice_servers: Vec<IceServer>,
    pub encoder: EncoderConfig,
    pub webui: WebuiConfig,
    /// Fixed session password. When unset (or empty) a random one is
    /// generated per session.
    pub password: Option<String>,
    /// Fixed room id, which keeps the invite URL stable across restarts.
    pub room: Option<String>,
    /// Admit any viewer that passes the password check without waiting for
    /// the operator. The password check still runs.
    pub auto_accept: bool,
    /// Start sharing as soon as the app launches.
    pub auto_start: bool,
}

/// The embedded web server.
#[derive(Debug, Clone)]
pub struct WebuiConfig {
    pub enabled: bool,
    pub port: u16,
    /// Address the server binds to; loopback by default.
    pub bind: String,
    /// Base URL of the invite link.
    pub public_url: Option<String>,
    /// Secret of the admin control plane. When unset or blank the admin page
    /// and its API are not served at all.
    pub admin_password: Option<String>,
}

/// The video encoder and its options.
#[derive(Debug, Clone)]
pub struct EncoderConfig {
    pub encoder: String,
    pub pixel_format: String,
    pub encoding: String,
    /// Encoder options as (name, value) pairs; no name occurs twice.
    pub options: Vec<(String, String)>,
}

/// How an ICE server's credentials are obtained.
#[derive(PartialEq, Eq, Structural, Clone, Copy, Debug)]
pub enum IceCredentialType {
    Unspecified,
    Password,
    Oauth,
    /// Fetched from Twilio's token service.
    Twilio,
    /// Fetched from the signalling server.
    Signaller,
}

impl Default for IceCredentialType {
    fn default() -> (t: Self)
        ensures
            t == IceCredentialType::Password,
    {
        IceCredentialType::Password
    }
}

/// A STUN or TURN server.
#[derive(Debug, Clone)]
pub struct IceServer {
    pub urls: Vec<String>,
    pub username: String,
    pub credential: String,
    pub credential_type: IceCredentialType,
}

/// [`IceServer`] as plain sequences.
pub struct IceServerView {
    pub urls: Seq<Seq<char>>,
    pub username: Seq<char>,
    pub credential: Seq<char>,
    pub credential_type: IceCredentialType,
}

impl View for IceServer {
    type V = IceServerView;

    open spec fn view(&self) -> IceServerView {
        IceServerView {
            urls: self.urls@.map_values(|u: String| u@),
            username: self.username@,
            credential: self.credential@,
            credential_type: self.credential_type,
        }
    }
}

impl Default for IceServer {
    fn default() -> (s: Self)
        ensures
            s@.urls.len() == 0,
            s@.username.len() == 0,
            s@.credential.len() == 0,
            s@.credential_type == IceCredentialType::Password,
    {
        let s = IceServer {
            urls: Vec::new(),
            username: String::new(),
            credential: String::new(),
            credential_type: IceCredentialType::Password,
        };
        assert(s@.urls =~= Seq::<Seq<char>>::empty());
        s
    }
}

/// An ICE server as the signalling server hands it out.
pub struct SignallerIceServer {
    pub url: String,
    pub username: String,
    pub password: String,
}

impl IceServer {
    /// A server at `url` that authenticates with a username and password.
    pub fn with_password(url: String, username: String, credential: String) -> (s: IceServer)
        ensures
            s@.urls == seq![url@],
            s@.username == username@,
            s@.credential == credential@,
            s@.credential_type == IceCredentialType::Password,
    {
        let mut urls: Vec<String> = Vec::new();
        urls.push(url);
        let s = IceServer { urls, username, credential, credential_type: IceCredentialType::Password };
        assert(s@.urls =~= seq![url@]);
        s
    }
}

impl IceServer {
    /// The server the signalling server described.
    pub fn from_signaller(val: SignallerIceServer) -> (s: IceServer)
        ensures
            s@.urls == seq![val.url@],
            s@.username == val.username@,
            s@.credential == val.password@,
            s@.credential_type == IceCredentialType::Password,
    {
        IceServer::with_password(val.url, val.username, val.password)
    }
}

/// The default signalling server.
pub fn default_signaller() -> (url: String)
    ensures
        url@ == "wss://ws.mirashare.app"@,
{
    "wss://ws.mirashare.app".to_owned()
}

/// The default viewer page.
pub fn default_viewer() -> (url: String)
    ensures
        url@ == "https://mirashare.app/"@,
{
    "https://mirashare.app/".to_owned()
}

/// The default frame-rate cap.
pub fn default_max_fps() -> (fps: u32)
    ensures
        fps == 60,
{
    60
}

/// The embedded web server is on by default.
pub fn default_webui_enabled() -> (enabled: bool)
    ensures
        enabled,
{
    true
}

/// The default port of the embedded web server.
pub fn default_webui_port() -> (port: u16)
    ensures
        port == 8765,
{
    8765
}

/// The embedded web server binds to loopback by default.
pub fn default_webui_bind() -> (bind: String)
    ensures
        bind@ == "127.0.0.1"@,
{
    "127.0.0.1".to_owned()
}

/// The default web server settings: on, loopback, port 8765, no public URL
/// and no admin secret, so the admin plane stays closed.
pub fn default_webui() -> (webui: WebuiConfig)
    ensures
        webui.enabled,
        webui.port == 8765,
        webui.bind@ == "127.0.0.1"@,
        webui.public_url is None,
        webui.admin_password is None,
{
    WebuiConfig {
        enabled: default_webui_enabled(),
        port: default_webui_port(),
        bind: default_webui_bind(),
        public_url: None,
        admin_password: None,
    }
}

/// No ICE servers by default: the only one a self-hosted deployment should
/// contact is its own, which is left to the configuration file. Without any,
/// WebRTC still uses host candidates, enough for viewers on the same LAN.
pub fn default_ice_servers() -> (servers: Vec<IceServer>)
    ensures
        servers@.len() == 0,
{
    Vec::new()
}

/// The encoder options as plain pairs.
pub open spec fn options_view(options: Seq<(String, String)>) -> Seq<(Seq<char>, Seq<char>)> {
    options.map_values(|p: (String, String)| (p.0@, p.1@))
}

/// No option name occurs twice.
pub open spec fn option_names_distinct(options: Seq<(Seq<char>, Seq<char>)>) -> bool {
    forall|i: int, j: int| 0 <= i < j < options.len() ==> options[i].0 != options[j].0
}

/// The default encoder: x264 with the baseline profile, the fastest preset
/// and zero-latency tuning, producing NV12 frames and H.264 video.
pub fn libx264() -> (encoder: EncoderConfig)
    ensures
        encoder.encoder@ == "libx264"@,
        encoder.pixel_format@ == "nv12"@,
        encoder.encoding@ == "video/H264"@,
        options_view(encoder.options@) == seq![
            ("profile"@, "baseline"@),
            ("preset"@, "ultrafast"@),
            ("tune"@, "zerolatency"@),
        ],
        option_names_distinct(options_view(encoder.options@)),
{
    let mut options: Vec<(String, String)> = Vec::new();
    options.push(("profile".to_owned(), "baseline".to_owned()));
    options.push(("preset".to_owned(), "ultrafast".to_owned()));
    options.push(("tune".to_owned(), "zerolatency".to_owned()));
    proof {
        reveal_strlit("profile");
        reveal_strlit("preset");
        reveal_strlit("tune");
        assert("profile"@.len() == 7 && "preset"@.len() == 6 && "tune"@.len() == 4);
    }
    assert(options_view(options@) =~= seq![
        ("profile"@, "baseline"@),
        ("preset"@, "ultrafast"@),
        ("tune"@, "zerolatency"@),
    ]);
    EncoderConfig {
        encoder: "libx264".to_owned(),
        pixel_format: "nv12".to_owned(),
        encoding: "video/H264".to_owned(),
        options,
    }
}

/// The credential kinds the WebRTC stack knows.
#[derive(PartialEq, Eq, Structural, Clone, Copy, Debug)]
pub enum TransportCredentialType {
    Unspecified,
    Password,
    Oauth,
}

/// The credential kind handed to the WebRTC stack. Twilio and signaller
/// servers have been resolved to username and password by then.
pub open spec fn transport_credential_spec(t: IceCredentialType) -> TransportCredentialType {
    match t {
        IceCredentialType::Unspecified => TransportCredentialType::Unspecified,
        IceCredentialType::Password => TransportCredentialType::Password,
        IceCredentialType::Oauth => TransportCredentialType::Oauth,
        IceCredentialType::Twilio => TransportCredentialType::Password,
        IceCredentialType::Signaller => TransportCredentialType::Password,
    }
}

impl IceCredentialType {
    /// The credential kind handed to the WebRTC stack.
    pub fn transport_credential(self) -> (t: TransportCredentialType)
        ensures
            t == transport_credential_spec(self),
    {
        match self {
            IceCredentialType::Unspecified => TransportCredentialType::Unspecified,
            IceCredentialType::Password => TransportCredentialType::Password,
            IceCredentialType::Oauth => TransportCredentialType::Oauth,
            IceCredentialType::Twilio => TransportCredentialType::Password,
            IceCredentialType::Signaller => TransportCredentialType::Password,
        }
    }
}

/// Where the servers of a configured ICE entry come from.
#[derive(PartialEq, Eq, Structural, Clone, Copy, Debug)]
pub enum IceSource {
    /// The entry is used as it is.
    Configured,
    /// The entry holds Twilio credentials; the servers come from Twilio.
    Twilio,
    /// The servers come from the signalling server.
    Signaller,
}

pub open spec fn ice_source_spec(t: IceCredentialType) -> IceSource {
    match t {
        IceCredentialType::Twilio => IceSource::Twilio,
        IceCredentialType::Signaller => IceSource::Signaller,
        _ => IceSource::Configured,
    }
}

impl IceServer {
    /// Where the servers of this entry come from.
    pub fn source(&self) -> (source: IceSource)
        ensures
            source == ice_source_spec(self.credential_type),
    {
        match self.credential_type {
            IceCredentialType::Twilio => IceSource::Twilio,
            IceCredentialType::Signaller => IceSource::Signaller,
            _ => IceSource::Configured,
        }
    }
}

/// An ICE entry is used as it is unless its credentials are to be fetched:
/// from Twilio for a Twilio entry, from the signalling server for a
/// signaller entry. Password, OAuth and unspecified entries stay as written.
pub proof fn law_ice_entry_resolution(t: IceCredentialType)
    ensures
        t != IceCredentialType::Twilio && t != IceCredentialType::Signaller ==> ice_source_spec(t)
            == IceSource::Configured,
        t == IceCredentialType::Twilio ==> ice_source_spec(t) == IceSource::Twilio,
        t == IceCredentialType::Signaller ==> ice_source_spec(t) == IceSource::Signaller,
        ice_source_spec(IceCredentialType::Unspecified) == IceSource::Configured,
        ice_source_spec(IceCredentialType::Password) == IceSource::Configured,
        ice_source_spec(IceCredentialType::Oauth) == IceSource::Configured,
{
}

pub open spec fn servers_view(servers: Seq<IceServer>) -> Seq<IceServerView> {
    servers.map_values(|s: IceServer| s@)
}

/// The resolved lists, one after another.
pub open spec fn flatten_servers(lists: Seq<Seq<IceServerView>>) -> Seq<IceServerView>
    decreases lists.len(),
{
    if lists.len() == 0 {
        seq![]
    } else {
        flatten_servers(lists.drop_last()) + lists.last()
    }
}

impl Config {
    /// This configuration with its ICE entries replaced by what they resolved
    /// to: `resolved[i]` are the servers of entry `i`, and they keep the order
    /// of the entries.
    pub fn with_ice_servers(self, resolved: Vec<Vec<IceServer>>) -> (config: Config)
        ensures
            servers_view(config.ice_servers@) == flatten_servers(resolved@.map_values(|l: Vec<IceServer>| servers_view(l@))),
            config.signaller_url == self.signaller_url,
            config.viewer_url == self.viewer_url,
            config.max_fps == self.max_fps,
            config.encoder == self.encoder,
            config.webui == self.webui,
            config.password == self.password,
            config.room == self.room,
            config.auto_accept == self.auto_accept,
            config.auto_start == self.auto_start,
    {
        let ghost lists = resolved@.map_values(|l: Vec<IceServer>| servers_view(l@));
        let mut servers: Vec<IceServer> = Vec::new();
        let mut pending = resolved;
        let mut taken: Vec<Vec<IceServer>> = Vec::new();
        let ghost mut done: int = 0;
        assert(lists.take(0) =~= Seq::<Seq<IceServerView>>::empty());
        assert(servers_view(servers@) =~= Seq::<IceServerView>::empty());
        while pending.len() > 0
            invariant
                0 <= done <= lists.len(),
                pending@.len() == lists.len() - done,
                forall|k: int| 0 <= k < pending@.len() ==> servers_view(#[trigger] pending@[k]@) == lists[done + k],
                servers_view(servers@) == flatten_servers(lists.take(done)),
            decreases pending@.len(),
        {
            let ghost pv = pending@;
            let mut list = pending.remove(0);
            assert(servers_view(list@) == lists[done]);
            let ghost before = servers_view(servers@);
            servers.append(&mut list);
            assert(servers_view(servers@) =~= before + lists[done]);
            assert(lists.take(done + 1).drop_last() =~= lists.take(done));
            proof {
                assert forall|k: int| 0 <= k < pending@.len() implies servers_view(#[trigger] pending@[k]@) == lists[done + 1 + k] by {
                    assert(pending@[k] == pv[k + 1]);
                }
                done = done + 1;
            }
        }
        assert(lists.take(done) =~= lists);
        Config { ice_servers: servers, ..self }
    }
}

/// A server at `url` that authenticates with `username` and `password`.
pub open spec fn password_server(url: Seq<char>, username: Seq<char>, password: Seq<char>) -> IceServerView {
    IceServerView { urls: seq![url], username, credential: password, credential_type: IceCredentialType::Password }
}

/// The servers a Twilio token describes: one password server per URL, each
/// with the token's username and password.
pub fn servers_from_twilio_token(urls: Vec<String>, username: &String, password: &String) -> (servers: Vec<IceServer>)
    ensures
        servers@.len() == urls@.len(),
        forall|i: int| 0 <= i < urls@.len() ==> #[trigger] servers@[i]@ == password_server(urls@[i]@, username@, password@),
{
    let mut servers: Vec<IceServer> = Vec::new();
    let mut pending = urls;
    let ghost all = pending@;
    let ghost mut done: int = 0;
    while pending.len() > 0
        invariant
            0 <= done <= all.len(),
            pending@ == all.subrange(done, all.len() as int),
            servers@.len() == done,
            forall|i: int| 0 <= i < done ==> #[trigger] servers@[i]@ == password_server(all[i]@, username@, password@),
        decreases pending@.len(),
    {
        let url = pending.remove(0);
        assert(url == all[done]);
        let ghost before = servers@;
        let server = IceServer::with_password(url, username.clone(), password.clone());
        servers.push(server);
        proof {
            assert(pending@ =~= all.subrange(done + 1, all.len() as int));
            assert(server@ == password_server(all[done]@, username@, password@));
            assert(servers@[done] == server);
            assert forall|i: int| 0 <= i < done implies #[trigger] servers@[i]@ == password_server(all[i]@, username@, password@) by {
                assert(servers@[i] == before[i]);
            }
            done = done + 1;
        }
    }
    servers
}

/// The Base64 text (standard alphabet, with padding) of `bytes`.
pub uninterp spec fn base64_standard(bytes: Seq<u8>) -> Seq<char>;

/// Calls `Engine::encode` of `base64::engine::general_purpose::STANDARD`: the
/// standard alphabet with padding. Its result is named, not spelled out.
#[verifier::external_body]
fn base64_encode(bytes: &[u8]) -> (text: String)
    ensures
        text@ == base64_standard(bytes@),
{
    base64::engine::general_purpose::STANDARD.encode(bytes)
}

/// The HTTP basic-auth credential for Twilio's token service: the Base64 of
/// `username:credential`.
pub fn twilio_basic_auth(username: &String, credential: &String) -> (auth: String)
    ensures
        auth@ == base64_standard(encode_utf8(username@ + ":"@ + credential@)),
{
    let joined = username.clone().concat(":").concat(credential.as_str());
    base64_encode(joined.as_str().as_bytes())
}

} // verus!
