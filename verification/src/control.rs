//! The local control protocol: request routing behind the secret code, and
//! every endpoint's effect on the launcher state, each stated as an exact
//! transition.  The HTTP plumbing around it is the caller's; the library
//! answers what each request does and what it returns.

use vstd::prelude::*;

use crate::config::{install_env_text, Config, ConfigV};
use crate::keybinds::{Keybinds, KeybindsV};
use crate::text::{
    all_digits, ascii, bytes_eq, dec_digits, dec_value, lit, parse_u64, push_all, split,
    split_bytes, u64_to_dec,
};
use crate::versions::{
    can_delete, get_specific_version_location, version_exe_path, BadVersionName,
};

verus! {

/// Mathematical model of an HTTP answer: a status code and a body.
pub ghost struct ResponseV {
    pub status: u16,
    pub body: Seq<u8>,
}

/// An HTTP answer: a status code and a body.
pub struct Response {
    pub status: u16,
    pub body: Vec<u8>,
}

impl View for Response {
    type V = ResponseV;

    open spec fn view(&self) -> ResponseV {
        ResponseV { status: self.status, body: self.body@ }
    }
}

/// The plain success answer.
pub fn response_ok() -> (r: Response)
    ensures
        r@.status == 200,
        r@.body == ascii("ok"@),
{
    proof {
        reveal_strlit("ok");
    }
    Response { status: 200, body: lit("ok") }
}

/// A success answer carrying `body`.
pub fn response_text(body: Vec<u8>) -> (r: Response)
    ensures
        r@.status == 200,
        r@.body == body@,
{
    Response { status: 200, body }
}

/// How a request URL fares against the protocol shape and the secret.
#[derive(PartialEq, Eq, Structural)]
pub enum RouteKind {
    /// The path does not start with the protocol prefix.
    NotFound,
    /// The prefix fits but the code is not the secret.
    BadCode,
    /// Prefix and code fit, but no operation follows.
    NoEndpoint,
    /// Prefix and code fit and an operation follows.
    Accepted,
}

/// A routed request: its fate, and on acceptance the operation word and
/// its trailing arguments.
pub struct Routed {
    pub kind: RouteKind,
    pub words: Vec<Vec<u8>>,
}

/// The slash-separated segments of a request path.
pub open spec fn path_segs(path: Seq<u8>) -> Seq<Seq<u8>> {
    split_bytes(path, '/' as u8)
}

/// Whether the path has the protocol shape: empty before the first slash,
/// then the protocol word.
pub open spec fn prefix_ok(path: Seq<u8>) -> bool {
    &&& path_segs(path).len() >= 2
    &&& path_segs(path)[0] == Seq::<u8>::empty()
    &&& path_segs(path)[1] == ascii("launcher0"@)
}

/// Whether the path carries the secret code in its third segment.
pub open spec fn code_ok(path: Seq<u8>, secret: Seq<u8>) -> bool {
    &&& path_segs(path).len() >= 3
    &&& path_segs(path)[2] == secret
}

/// Routes a request path: wrong prefixes 404, a wrong secret 401, and an
/// accepted request hands the operation word and arguments on.  A request
/// is accepted only with the secret in its third segment.
pub fn route_request(path: &[u8], secret: &[u8]) -> (r: Routed)
    ensures
        r.kind == RouteKind::Accepted ==> code_ok(path@, secret@),
        !prefix_ok(path@) ==> r.kind == RouteKind::NotFound,
        prefix_ok(path@) && !code_ok(path@, secret@) ==> r.kind == RouteKind::BadCode,
        prefix_ok(path@) && code_ok(path@, secret@) && path_segs(path@).len() == 3 ==> r.kind
            == RouteKind::NoEndpoint,
        prefix_ok(path@) && code_ok(path@, secret@) && path_segs(path@).len() > 3 ==> r.kind
            == RouteKind::Accepted && r.words@.map_values(|w: Vec<u8>| w@) == path_segs(
            path@,
        ).skip(3),
{
    proof {
        reveal_strlit("launcher0");
    }
    let segs = split(path, '/' as u8);
    let ghost sv = segs@.map_values(|w: Vec<u8>| w@);
    let empty_words: Vec<Vec<u8>> = Vec::new();
    if segs.len() < 2 {
        return Routed { kind: RouteKind::NotFound, words: empty_words };
    }
    let l0 = lit("launcher0");
    proof {
        assert(sv[0] == segs@[0]@);
        assert(sv[1] == segs@[1]@);
    }
    if segs[0].len() != 0 || !bytes_eq(segs[1].as_slice(), l0.as_slice()) {
        proof {
            assert(segs@[0]@.len() != 0 ==> segs@[0]@ != Seq::<u8>::empty());
        }
        return Routed { kind: RouteKind::NotFound, words: empty_words };
    }
    proof {
        assert(segs@[0]@ =~= Seq::<u8>::empty());
    }
    if segs.len() < 3 || !bytes_eq(segs[2].as_slice(), secret) {
        proof {
            if segs@.len() >= 3 {
                assert(sv[2] == segs@[2]@);
            }
        }
        return Routed { kind: RouteKind::BadCode, words: empty_words };
    }
    proof {
        assert(sv[2] == segs@[2]@);
    }
    if segs.len() == 3 {
        return Routed { kind: RouteKind::NoEndpoint, words: empty_words };
    }
    let mut words: Vec<Vec<u8>> = Vec::new();
    let mut i: usize = 3;
    proof {
        assert(words@.map_values(|w: Vec<u8>| w@) =~= sv.skip(3).take(0));
    }
    while i < segs.len()
        invariant
            3 <= i <= segs@.len(),
            segs@.len() > 3,
            sv == segs@.map_values(|w: Vec<u8>| w@),
            words@.map_values(|w: Vec<u8>| w@) == sv.skip(3).take(i - 3),
        decreases segs@.len() - i,
    {
        words.push(vstd::slice::slice_to_vec(segs[i].as_slice()));
        proof {
            assert(sv.skip(3).take(i - 3 + 1) =~= sv.skip(3).take(i - 3).push(sv[i as int]));
            assert(words@.map_values(|w: Vec<u8>| w@) =~= sv.skip(3).take(i - 3 + 1));
        }
        i += 1;
    }
    proof {
        assert(sv.skip(3).take(i - 3) =~= sv.skip(3));
    }
    Routed { kind: RouteKind::Accepted, words }
}

/// The operations the control protocol knows.
#[derive(PartialEq, Eq, Structural)]
pub enum Endpoint {
    SetAppSettings,
    GetAppSettings,
    SetInterestingKeys,
    EnterKeybindMode,
    Keys,
    DownloadUpdate,
    DeleteVersion,
    GetVersions,
    SetNewestVersion,
    IsActive,
    OpenUrl,
    ShutdownClient,
    MinimizeClient,
    MaximizeClient,
    RestartClient,
    Unknown,
}

/// Which operation a word names.
pub open spec fn endpoint_spec(w: Seq<u8>) -> Endpoint {
    if w == ascii("setAppSettings0"@) {
        Endpoint::SetAppSettings
    } else if w == ascii("getAppSettings0"@) {
        Endpoint::GetAppSettings
    } else if w == ascii("setInterestingKeys0"@) {
        Endpoint::SetInterestingKeys
    } else if w == ascii("enterKeybindMode0"@) {
        Endpoint::EnterKeybindMode
    } else if w == ascii("keys0"@) {
        Endpoint::Keys
    } else if w == ascii("downloadUpdate0"@) {
        Endpoint::DownloadUpdate
    } else if w == ascii("deleteVersion0"@) {
        Endpoint::DeleteVersion
    } else if w == ascii("getVersions0"@) {
        Endpoint::GetVersions
    } else if w == ascii("setNewestVersion0"@) {
        Endpoint::SetNewestVersion
    } else if w == ascii("isActive0"@) {
        Endpoint::IsActive
    } else if w == ascii("openURL0"@) {
        Endpoint::OpenUrl
    } else if w == ascii("shutdownClient0"@) {
        Endpoint::ShutdownClient
    } else if w == ascii("minimizeClient0"@) {
        Endpoint::MinimizeClient
    } else if w == ascii("maximizeClient0"@) {
        Endpoint::MaximizeClient
    } else if w == ascii("restartClient0"@) {
        Endpoint::RestartClient
    } else {
        Endpoint::Unknown
    }
}

/// Matches an operation word.
pub fn endpoint_of(w: &[u8]) -> (e: Endpoint)
    ensures
        e == endpoint_spec(w@),
{
    proof {
        reveal_strlit("setAppSettings0");
        reveal_strlit("getAppSettings0");
        reveal_strlit("setInterestingKeys0");
        reveal_strlit("enterKeybindMode0");
        reveal_strlit("keys0");
        reveal_strlit("downloadUpdate0");
        reveal_strlit("deleteVersion0");
        reveal_strlit("getVersions0");
        reveal_strlit("setNewestVersion0");
        reveal_strlit("isActive0");
        reveal_strlit("openURL0");
        reveal_strlit("shutdownClient0");
        reveal_strlit("minimizeClient0");
        reveal_strlit("maximizeClient0");
        reveal_strlit("restartClient0");
    }
    if bytes_eq(w, lit("setAppSettings0").as_slice()) {
        Endpoint::SetAppSettings
    } else if bytes_eq(w, lit("getAppSettings0").as_slice()) {
        Endpoint::GetAppSettings
    } else if bytes_eq(w, lit("setInterestingKeys0").as_slice()) {
        Endpoint::SetInterestingKeys
    } else if bytes_eq(w, lit("enterKeybindMode0").as_slice()) {
        Endpoint::EnterKeybindMode
    } else if bytes_eq(w, lit("keys0").as_slice()) {
        Endpoint::Keys
    } else if bytes_eq(w, lit("downloadUpdate0").as_slice()) {
        Endpoint::DownloadUpdate
    } else if bytes_eq(w, lit("deleteVersion0").as_slice()) {
        Endpoint::DeleteVersion
    } else if bytes_eq(w, lit("getVersions0").as_slice()) {
        Endpoint::GetVersions
    } else if bytes_eq(w, lit("setNewestVersion0").as_slice()) {
        Endpoint::SetNewestVersion
    } else if bytes_eq(w, lit("isActive0").as_slice()) {
        Endpoint::IsActive
    } else if bytes_eq(w, lit("openURL0").as_slice()) {
        Endpoint::OpenUrl
    } else if bytes_eq(w, lit("shutdownClient0").as_slice()) {
        Endpoint::ShutdownClient
    } else if bytes_eq(w, lit("minimizeClient0").as_slice()) {
        Endpoint::MinimizeClient
    } else if bytes_eq(w, lit("maximizeClient0").as_slice()) {
        Endpoint::MaximizeClient
    } else if bytes_eq(w, lit("restartClient0").as_slice()) {
        Endpoint::RestartClient
    } else {
        Endpoint::Unknown
    }
}

/// Mathematical model of the launcher's mutable state.
pub ghost struct LauncherV {
    pub secret_code: Seq<u8>,
    pub is_downloading: bool,
    pub is_changing_config: bool,
    pub download_progress: nat,
    pub app_process_id: u32,
    pub previous_mouse_clicks: nat,
    pub extra_config: Seq<u8>,
    pub config: ConfigV,
    pub keybinds: KeybindsV,
}

/// The launcher's mutable state: the protocol secret, the flags that make
/// privileged operations rejectable, the renderer's settings blob, the
/// configuration snapshot and the keybind state.
pub struct Launcher {
    pub secret_code: Vec<u8>,
    pub is_downloading: bool,
    pub is_changing_config: bool,
    pub download_progress: u64,
    pub app_process_id: u32,
    pub previous_mouse_clicks: usize,
    pub extra_config: Vec<u8>,
    pub config: Config,
    pub keybinds: Keybinds,
}

impl View for Launcher {
    type V = LauncherV;

    open spec fn view(&self) -> LauncherV {
        LauncherV {
            secret_code: self.secret_code@,
            is_downloading: self.is_downloading,
            is_changing_config: self.is_changing_config,
            download_progress: self.download_progress as nat,
            app_process_id: self.app_process_id,
            previous_mouse_clicks: self.previous_mouse_clicks as nat,
            extra_config: self.extra_config@,
            config: self.config@,
            keybinds: self.keybinds@,
        }
    }
}

impl Launcher {
    /// A launcher fresh at startup: nothing in flight, nothing downloaded,
    /// the given secret and configuration, and whatever settings blob
    /// already sits in the installation root.
    pub fn launch(secret_code: Vec<u8>, config: Config, extra_config: Vec<u8>) -> (r: Launcher)
        ensures
            r@.secret_code == secret_code@,
            r@.config == config@,
            r@.extra_config == extra_config@,
            !r@.is_downloading,
            !r@.is_changing_config,
            r@.download_progress == 0,
            r@.app_process_id == 0,
            r@.previous_mouse_clicks == 0,
            r@.keybinds.accept_all == false,
            r@.keybinds.interested == Seq::<u64>::empty(),
            r@.keybinds.mouse_clicks == 0,
    {
        Launcher {
            secret_code,
            is_downloading: false,
            is_changing_config: false,
            download_progress: 0,
            app_process_id: 0,
            previous_mouse_clicks: 0,
            extra_config,
            config,
            keybinds: Keybinds::default(),
        }
    }
}

impl Launcher {
    /// Starts a launcher as the process boots: a fresh 24-character
    /// alphanumeric secret, the loaded configuration, and the settings
    /// blob already on disk.
    pub fn start(config: Config, extra_config: Vec<u8>) -> (r: Launcher)
        ensures
            r@.secret_code.len() == 24,
            forall|i: int|
                0 <= i < r@.secret_code.len() ==> crate::trusted::is_alphanumeric_byte(
                    #[trigger] r@.secret_code[i],
                ),
            r@.config == config@,
            r@.extra_config == extra_config@,
            !r@.is_downloading,
            !r@.is_changing_config,
            r@.download_progress == 0,
            r@.app_process_id == 0,
            r@.previous_mouse_clicks == 0,
            r@.keybinds.accept_all == false,
            r@.keybinds.interested == Seq::<u64>::empty(),
            r@.keybinds.mouse_clicks == 0,
    {
        let secret_code = crate::trusted::generate_secret_code();
        Launcher::launch(secret_code, config, extra_config)
    }
}

/// What storing the settings blob does: a busy launcher answers 409 and
/// changes nothing; otherwise the blob replaces the stored one and the
/// answer is plain success, with the busy flag clear again.
pub open spec fn set_app_settings_model(l: LauncherV, body: Seq<u8>) -> (LauncherV, ResponseV) {
    if l.is_changing_config {
        (l, ResponseV { status: 409, body: ascii("already changing settings"@) })
    } else {
        (
            LauncherV { extra_config: body, ..l },
            ResponseV { status: 200, body: ascii("ok"@) },
        )
    }
}

/// What reading the settings blob answers: the stored bytes, verbatim.
pub open spec fn get_app_settings_model(l: LauncherV) -> ResponseV {
    ResponseV { status: 200, body: l.extra_config }
}

impl Launcher {
    /// Stores the renderer's settings blob, unless a concurrent change is
    /// under way.
    pub fn set_app_settings(&mut self, body: &[u8]) -> (r: Response)
        ensures
            final(self)@ == set_app_settings_model(old(self)@, body@).0,
            r@ == set_app_settings_model(old(self)@, body@).1,
    {
        proof {
            reveal_strlit("already changing settings");
            reveal_strlit("ok");
        }
        if self.is_changing_config {
            return Response { status: 409, body: lit("already changing settings") };
        }
        self.is_changing_config = true;
        self.extra_config = vstd::slice::slice_to_vec(body);
        self.is_changing_config = false;
        proof {
            assert(self@ =~~= set_app_settings_model(old(self)@, body@).0);
        }
        response_ok()
    }

    /// Reads the renderer's settings blob back.
    pub fn get_app_settings(&self) -> (r: Response)
        ensures
            r@ == get_app_settings_model(self@),
    {
        response_text(vstd::slice::slice_to_vec(self.extra_config.as_slice()))
    }
}

/// Settings written while no other change is under way read back verbatim:
/// storing a blob and then reading gives exactly the stored bytes.
pub proof fn lemma_settings_round_trip(l: LauncherV, body: Seq<u8>)
    requires
        !l.is_changing_config,
    ensures
        set_app_settings_model(l, body).1.status == 200,
        get_app_settings_model(set_app_settings_model(l, body).0).body == body,
{
}

/// A busy launcher refuses a settings write and keeps the stored blob.
pub proof fn lemma_settings_write_excluded(l: LauncherV, body: Seq<u8>)
    requires
        l.is_changing_config,
    ensures
        set_app_settings_model(l, body).1.status == 409,
        set_app_settings_model(l, body).0 == l,
{
}

/// The keys a request's arguments name: each argument read as a decimal
/// number, anything unreadable as zero.
pub open spec fn parsed_keys(args: Seq<Seq<u8>>) -> Seq<u64> {
    args.map_values(
        |a: Seq<u8>|
            if a.len() > 0 && all_digits(a) && dec_value(a) <= u64::MAX {
                dec_value(a) as u64
            } else {
                0u64
            },
    )
}

/// The complaint body when too many keys arrive.
pub open spec fn keybind_excess_body(max: nat) -> Seq<u8> {
    dec_digits(max) + ascii(" is the maximum number of key bindings allowed"@)
}

/// What replacing the interested keys does: more keys than the bound
/// answers 400 and leaves the set untouched; otherwise the arguments,
/// read as numbers, replace the set.
pub open spec fn set_keys_model(l: LauncherV, args: Seq<Seq<u8>>) -> (LauncherV, ResponseV) {
    if parsed_keys(args).len() > l.config.max_keybinds {
        (l, ResponseV { status: 400, body: keybind_excess_body(l.config.max_keybinds) })
    } else {
        (
            LauncherV {
                keybinds: KeybindsV { interested: parsed_keys(args), ..l.keybinds },
                ..l
            },
            ResponseV { status: 200, body: ascii("ok"@) },
        )
    }
}

/// A request with more keys than the bound allows changes nothing and is
/// answered 400.
pub proof fn lemma_keybind_bound_enforced(l: LauncherV, args: Seq<Seq<u8>>)
    requires
        parsed_keys(args).len() > l.config.max_keybinds,
    ensures
        set_keys_model(l, args).0 == l,
        set_keys_model(l, args).1.status == 400,
{
}

impl Launcher {
    /// Replaces the interested keys from request arguments, refusing more
    /// than the configured bound.
    pub fn set_interesting_keys(&mut self, args: &Vec<Vec<u8>>) -> (r: Response)
        ensures
            final(self)@ == set_keys_model(old(self)@, args@.map_values(|a: Vec<u8>| a@)).0,
            r@ == set_keys_model(old(self)@, args@.map_values(|a: Vec<u8>| a@)).1,
    {
        proof {
            reveal_strlit(" is the maximum number of key bindings allowed");
            reveal_strlit("ok");
        }
        let ghost argv = args@.map_values(|a: Vec<u8>| a@);
        let mut keys: Vec<u64> = Vec::new();
        let mut i: usize = 0;
        proof {
            assert(keys@ =~= parsed_keys(argv.take(0)));
        }
        while i < args.len()
            invariant
                i <= args@.len(),
                argv == args@.map_values(|a: Vec<u8>| a@),
                keys@ == parsed_keys(argv.take(i as int)),
            decreases args@.len() - i,
        {
            let k: u64 = match parse_u64(args[i].as_slice()) {
                Some(n) => n,
                None => 0,
            };
            keys.push(k);
            proof {
                assert(keys@ =~= parsed_keys(argv.take(i + 1)));
            }
            i += 1;
        }
        proof {
            assert(argv.take(i as int) =~= argv);
        }
        if keys.len() as u64 > self.config.max_keybinds {
            let mut body = u64_to_dec(self.config.max_keybinds);
            let tail = lit(" is the maximum number of key bindings allowed");
            push_all(&mut body, tail.as_slice());
            return Response { status: 400, body };
        }
        self.keybinds.interested = keys;
        proof {
            assert(self@ =~~= set_keys_model(old(self)@, argv).0);
        }
        response_ok()
    }

    /// Switches the one-shot accept-all keybind mode on, but only when the
    /// renderer owns the foreground window.
    pub fn enter_keybind_mode(&mut self, renderer_in_focus: bool) -> (r: Response)
        ensures
            renderer_in_focus ==> final(self)@ == (LauncherV {
                keybinds: KeybindsV { accept_all: true, ..old(self)@.keybinds },
                ..old(self)@
            }),
            !renderer_in_focus ==> final(self)@ == old(self)@,
            r@.status == 200,
            r@.body == ascii("ok"@),
    {
        if renderer_in_focus {
            self.keybinds.accept_all = true;
        }
        proof {
            if renderer_in_focus {
                assert(self@ =~~= LauncherV {
                    keybinds: KeybindsV { accept_all: true, ..old(self)@.keybinds },
                    ..old(self)@
                });
            }
        }
        response_ok()
    }

    /// Answers whether the user has clicked since the last probe, and
    /// remembers the probe.
    pub fn is_active(&mut self) -> (r: Response)
        ensures
            final(self)@ == (LauncherV {
                previous_mouse_clicks: old(self)@.keybinds.mouse_clicks,
                ..old(self)@
            }),
            r@.status == 200,
            r@.body == (if old(self)@.previous_mouse_clicks != old(self)@.keybinds.mouse_clicks {
                ascii("userIsActive"@)
            } else {
                ascii("userIsInactive"@)
            }),
    {
        proof {
            reveal_strlit("userIsActive");
            reveal_strlit("userIsInactive");
        }
        let differ = self.previous_mouse_clicks != self.keybinds.mouse_clicks;
        self.previous_mouse_clicks = self.keybinds.mouse_clicks;
        proof {
            assert(self@ =~~= LauncherV {
                previous_mouse_clicks: old(self)@.keybinds.mouse_clicks,
                ..old(self)@
            });
        }
        if differ {
            response_text(lit("userIsActive"))
        } else {
            response_text(lit("userIsInactive"))
        }
    }
}

/// How a download request is decided.
#[derive(PartialEq, Eq, Structural)]
pub enum DownloadDecision {
    /// Another download still runs: 409, nothing starts.
    Busy,
    /// The destination name would escape the versions directory.
    BadFilename,
    /// The download may start; the flag is set.
    Start,
}

/// What asking for a download does: a running download refuses a second
/// one; an unsafe destination name refuses without starting; otherwise the
/// download starts, with the flag set and the progress reset.
pub open spec fn begin_download_model(l: LauncherV, filename: Seq<u8>) -> (
    LauncherV,
    DownloadDecision,
) {
    if l.is_downloading {
        (l, DownloadDecision::Busy)
    } else if !crate::versions::safe_filename(filename) {
        (l, DownloadDecision::BadFilename)
    } else {
        (
            LauncherV { is_downloading: true, download_progress: 0, ..l },
            DownloadDecision::Start,
        )
    }
}

/// While a download runs, no second one may start, and nothing changes.
pub proof fn lemma_no_second_download(l: LauncherV, filename: Seq<u8>)
    requires
        l.is_downloading,
    ensures
        begin_download_model(l, filename).1 == DownloadDecision::Busy,
        begin_download_model(l, filename).0 == l,
{
}

impl Launcher {
    /// Decides whether a download of `filename` may start, and claims the
    /// flag when it may.
    pub fn begin_download(&mut self, filename: &[u8]) -> (r: DownloadDecision)
        ensures
            final(self)@ == begin_download_model(old(self)@, filename@).0,
            r == begin_download_model(old(self)@, filename@).1,
    {
        if self.is_downloading {
            return DownloadDecision::Busy;
        }
        if !crate::versions::is_safe_filename(filename) {
            return DownloadDecision::BadFilename;
        }
        self.is_downloading = true;
        self.download_progress = 0;
        proof {
            assert(self@ =~~= begin_download_model(old(self)@, filename@).0);
        }
        DownloadDecision::Start
    }

    /// Ends a download, successful or not: every terminal path clears the
    /// flag.
    pub fn end_download(&mut self)
        ensures
            final(self)@ == (LauncherV { is_downloading: false, ..old(self)@ }),
    {
        self.is_downloading = false;
        proof {
            assert(self@ =~~= LauncherV { is_downloading: false, ..old(self)@ });
        }
    }

    /// Records streamed progress.
    pub fn note_progress(&mut self, bytes: u64)
        ensures
            final(self)@ == (LauncherV { download_progress: bytes as nat, ..old(self)@ }),
    {
        self.download_progress = bytes;
        proof {
            assert(self@ =~~= LauncherV { download_progress: bytes as nat, ..old(self)@ });
        }
    }
}

/// What deleting a version answers: the active version, named in full or
/// by stem, is refused with 403 and nothing is removed; any other version
/// is removed together with its stem-named directory.
pub open spec fn delete_version_model(l: LauncherV, version: Seq<u8>) -> (bool, ResponseV) {
    if !can_delete(version, l.config.newest_version) {
        (false, ResponseV { status: 403, body: ascii("can not delete latest version"@) })
    } else {
        (true, ResponseV { status: 200, body: version + ascii(" deleted"@) })
    }
}

/// Deleting the active version is refused and removes nothing.
pub proof fn lemma_delete_active_refused(l: LauncherV, version: Seq<u8>)
    requires
        !can_delete(version, l.config.newest_version),
    ensures
        delete_version_model(l, version).0 == false,
        delete_version_model(l, version).1.status == 403,
{
}

impl Launcher {
    /// Decides a delete request: whether the caller may remove the
    /// version's files, and what to answer.
    pub fn delete_version(&self, version: &[u8]) -> (r: (bool, Response))
        ensures
            r.0 == delete_version_model(self@, version@).0,
            r.1@ == delete_version_model(self@, version@).1,
    {
        proof {
            reveal_strlit("can not delete latest version");
            reveal_strlit(" deleted");
        }
        if !crate::versions::delete_allowed(version, self.config.newest_version.as_slice()) {
            return (
                false,
                Response { status: 403, body: lit("can not delete latest version") },
            );
        }
        let mut body = vstd::slice::slice_to_vec(version);
        let tail = lit(" deleted");
        push_all(&mut body, tail.as_slice());
        (true, response_text(body))
    }
}

/// The filesystem work an activation asks of its caller: write the
/// installation file and mark the executable.
pub struct ActivationPlan {
    pub install_env: Vec<u8>,
    pub exe_path: Vec<u8>,
}

impl Launcher {
    /// Activates a version: records it as newest, and hands back the
    /// installation-file text to persist and the executable path to mark.
    /// A name that is neither empty nor a bundle is a fatal error and
    /// changes nothing.
    pub fn set_newest_version(&mut self, app_root: &[u8], version: &[u8], windows: bool) -> (r:
        Result<(ActivationPlan, Response), BadVersionName>)
        ensures
            match r {
                Ok((plan, resp)) => {
                    &&& final(self)@ == (LauncherV {
                        config: ConfigV { newest_version: version@, ..old(self)@.config },
                        ..old(self)@
                    })
                    &&& plan.install_env@ == install_env_text(
                        old(self)@.config.latest_launcher_builddate,
                        version@,
                    )
                    &&& version_exe_path(app_root@, version@, windows) == Some(plan.exe_path@)
                    &&& resp@.status == 200
                    &&& resp@.body == ascii("ok"@)
                },
                Err(_) => {
                    &&& version_exe_path(app_root@, version@, windows) is None
                    &&& final(self)@ == old(self)@
                },
            },
    {
        let exe_path = match get_specific_version_location(app_root, version, windows) {
            Ok(p) => p,
            Err(e) => {
                return Err(e);
            },
        };
        self.config.newest_version = vstd::slice::slice_to_vec(version);
        let install_env = crate::config::save_install_info(
            self.config.latest_launcher_builddate.as_slice(),
            version,
        );
        proof {
            assert(self@ =~~= LauncherV {
                config: ConfigV { newest_version: version@, ..old(self)@.config },
                ..old(self)@
            });
        }
        Ok((ActivationPlan { install_env, exe_path }, response_ok()))
    }
}

/// Validates and normalizes the URL an open-URL request carries: bytes
/// that parse as no URL are answered 400 at once; otherwise the caller
/// gets the normalized URL to hand to the system opener.
pub fn open_url_request(body: &[u8]) -> (r: Result<Vec<u8>, Response>)
    ensures
        match r {
            Ok(u) => crate::trusted::parsed_url(body@) == Some(u@),
            Err(resp) => {
                &&& crate::trusted::parsed_url(body@) is None
                &&& resp@.status == 400
                &&& resp@.body == ascii("failed to parse URL"@)
            },
        },
{
    proof {
        reveal_strlit("failed to parse URL");
    }
    match crate::trusted::parse_url(body) {
        Some(u) => Ok(u),
        None => Err(Response { status: 400, body: lit("failed to parse URL") }),
    }
}

/// Reads the download target and destination out of a request's query
/// string: the last `url` and `filename` values of its decoded pairs.
pub fn parse_download_query(query: &[u8]) -> (r: (Vec<u8>, Vec<u8>))
    ensures
        r.0@ == last_value(crate::trusted::form_decoded(query@), ascii("url"@)),
        r.1@ == last_value(crate::trusted::form_decoded(query@), ascii("filename"@)),
{
    let pairs = crate::trusted::form_urlencoded_pairs(query);
    select_download_params(&pairs)
}

/// What answering an open-URL request gives: 400 for bytes that parse as
/// no URL, 500 when the system opener failed, plain success otherwise.
pub open spec fn open_url_model(parse_ok: bool, opener_ok: bool) -> ResponseV {
    if !parse_ok {
        ResponseV { status: 400, body: ascii("failed to parse URL"@) }
    } else if !opener_ok {
        ResponseV { status: 500, body: ascii("could not open URL"@) }
    } else {
        ResponseV { status: 200, body: ascii("ok"@) }
    }
}

/// Builds the answer to an open-URL request from the parse and opener
/// outcomes.
pub fn open_url_response(parse_ok: bool, opener_ok: bool) -> (r: Response)
    ensures
        r@ == open_url_model(parse_ok, opener_ok),
{
    proof {
        reveal_strlit("failed to parse URL");
        reveal_strlit("could not open URL");
        reveal_strlit("ok");
    }
    if !parse_ok {
        Response { status: 400, body: lit("failed to parse URL") }
    } else if !opener_ok {
        Response { status: 500, body: lit("could not open URL") }
    } else {
        response_ok()
    }
}

/// The value under the last occurrence of `key`, or nothing's empty
/// stand-in.
pub open spec fn last_value(pairs: Seq<(Seq<u8>, Seq<u8>)>, key: Seq<u8>) -> Seq<u8>
    decreases pairs.len(),
{
    if pairs.len() == 0 {
        Seq::empty()
    } else if pairs.last().0 == key {
        pairs.last().1
    } else {
        last_value(pairs.drop_last(), key)
    }
}

/// Finds the value under the last occurrence of `key`.
fn find_last_value(pairs: &Vec<(Vec<u8>, Vec<u8>)>, key: &[u8]) -> (r: Vec<u8>)
    ensures
        r@ == last_value(pairs@.map_values(|p: (Vec<u8>, Vec<u8>)| (p.0@, p.1@)), key@),
{
    let ghost pv = pairs@.map_values(|p: (Vec<u8>, Vec<u8>)| (p.0@, p.1@));
    let mut i: usize = pairs.len();
    proof {
        assert(pv.take(i as int) =~= pv);
    }
    while i > 0
        invariant
            i <= pairs@.len(),
            pv == pairs@.map_values(|p: (Vec<u8>, Vec<u8>)| (p.0@, p.1@)),
            last_value(pv, key@) == last_value(pv.take(i as int), key@),
        decreases i,
    {
        i -= 1;
        proof {
            assert(pv.take(i + 1).drop_last() =~= pv.take(i as int));
            assert(pv.take(i + 1).last() == pv[i as int]);
            assert(pv[i as int] == (pairs@[i as int].0@, pairs@[i as int].1@));
        }
        if bytes_eq(pairs[i].0.as_slice(), key) {
            return vstd::slice::slice_to_vec(pairs[i].1.as_slice());
        }
    }
    proof {
        assert(pv.take(0) =~= Seq::<(Seq<u8>, Seq<u8>)>::empty());
    }
    let r: Vec<u8> = Vec::new();
    proof {
        assert(r@ =~= Seq::<u8>::empty());
    }
    r
}

/// Picks the download target and destination out of decoded query pairs:
/// the last `url` value and the last `filename` value, empty when absent.
pub fn select_download_params(pairs: &Vec<(Vec<u8>, Vec<u8>)>) -> (r: (Vec<u8>, Vec<u8>))
    ensures
        r.0@ == last_value(pairs@.map_values(|p: (Vec<u8>, Vec<u8>)| (p.0@, p.1@)), ascii("url"@)),
        r.1@ == last_value(
            pairs@.map_values(|p: (Vec<u8>, Vec<u8>)| (p.0@, p.1@)),
            ascii("filename"@),
        ),
{
    proof {
        reveal_strlit("url");
        reveal_strlit("filename");
    }
    let url_key = lit("url");
    let file_key = lit("filename");
    let url = find_last_value(pairs, url_key.as_slice());
    let filename = find_last_value(pairs, file_key.as_slice());
    (url, filename)
}

/// The answer for an operation word the protocol does not know.
pub fn unknown_endpoint_response(word: &[u8]) -> (r: Response)
    ensures
        r@.status == 404,
        r@.body == word@ + ascii(" is an invalid endpoint"@),
{
    proof {
        reveal_strlit(" is an invalid endpoint");
    }
    let mut body = vstd::slice::slice_to_vec(word);
    let tail = lit(" is an invalid endpoint");
    push_all(&mut body, tail.as_slice());
    Response { status: 404, body }
}

/// The answer when prefix or path shape is wrong.
pub fn not_found_response() -> (r: Response)
    ensures
        r@.status == 404,
        r@.body == ascii("endpoints start with launcher0"@),
{
    proof {
        reveal_strlit("endpoints start with launcher0");
    }
    Response { status: 404, body: lit("endpoints start with launcher0") }
}

/// The answer when the secret does not match.
pub fn bad_code_response() -> (r: Response)
    ensures
        r@.status == 401,
        r@.body == ascii("bad code"@),
{
    proof {
        reveal_strlit("bad code");
    }
    Response { status: 401, body: lit("bad code") }
}

/// The answer when no operation follows the secret.
pub fn no_endpoint_response() -> (r: Response)
    ensures
        r@.status == 404,
        r@.body == ascii("no endpoint provided"@),
{
    proof {
        reveal_strlit("no endpoint provided");
    }
    Response { status: 404, body: lit("no endpoint provided") }
}

/// The answer when a download is already running.
pub fn download_busy_response() -> (r: Response)
    ensures
        r@.status == 409,
        r@.body == ascii("update is already being downloaded"@),
{
    proof {
        reveal_strlit("update is already being downloaded");
    }
    Response { status: 409, body: lit("update is already being downloaded") }
}

} // verus!
